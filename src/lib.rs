//! Audio spectrum analysis: band-limited magnitude spectra, the dominant
//! frequency, salient peaks, and the musical note nearest to a frequency.
//!
//! Frequencies are carried as whole millihertz and magnitudes as unsigned
//! fixed-point values, so that every comparison the analysis makes is exact.
pub mod notes;
pub mod peaks;
pub mod spectrum;

pub use notes::{note_for_frequency, note_name, NOTE_COUNT, OUT_OF_RANGE, REF_FREQ, REF_INDEX};
pub use peaks::{get_peaks, PeakEntry, PeakResult, MAX_PEAKS};
pub use spectrum::{
    default_band, get_data, get_max_frequency, Band, DataEntry, MaxFreq, MAGNITUDE_SCALE,
    MAX_FREQ, MIN_FREQ,
};
