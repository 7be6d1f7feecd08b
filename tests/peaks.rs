use pitch_analysis::{get_peaks, DataEntry, PeakEntry};

fn spectrum(ys: &[u64]) -> Vec<DataEntry> {
    ys.iter()
        .enumerate()
        .map(|(i, &y)| DataEntry { x: 1_000 * (i as u64 + 1), y })
        .collect()
}

fn peak(i: usize, y: u64) -> PeakEntry {
    PeakEntry { x: 1_000 * (i as u64 + 1), y, index: i }
}

#[test]
fn peaks_of_two_humps() {
    let r = get_peaks(&spectrum(&[1, 5, 2, 3, 9, 4]));
    assert_eq!(r.max, 9);
    assert_eq!(r.peaks, vec![peak(1, 5), peak(4, 9)]);
}

#[test]
fn peaks_at_or_below_a_third_are_dropped() {
    // 3 is exactly a third of 9: not above it.
    let r = get_peaks(&spectrum(&[0, 3, 0, 9, 0, 4, 0]));
    assert_eq!(r.max, 9);
    assert_eq!(r.peaks, vec![peak(3, 9), peak(5, 4)]);
}

#[test]
fn plateau_peak_is_its_last_point() {
    let r = get_peaks(&spectrum(&[1, 4, 4, 1]));
    assert_eq!(r.peaks, vec![peak(2, 4)]);
}

#[test]
fn boundary_maxima_are_not_peaks() {
    let r = get_peaks(&spectrum(&[9, 5, 3, 2, 8]));
    assert_eq!(r.max, 9);
    assert!(r.peaks.is_empty());
}

#[test]
fn falling_spectrum_has_no_peaks() {
    let r = get_peaks(&spectrum(&[9, 8, 7, 5, 3]));
    assert_eq!(r.max, 9);
    assert!(r.peaks.is_empty());
}

#[test]
fn level_stretch_counts_as_ascent() {
    // The scan is ascending into a point equal to its predecessor.
    let r = get_peaks(&spectrum(&[9, 8, 7, 7, 3]));
    assert_eq!(r.peaks, vec![peak(3, 7)]);
}

#[test]
fn five_peaks_are_kept() {
    let r = get_peaks(&spectrum(&[0, 5, 0, 5, 0, 5, 0, 5, 0, 5, 0]));
    assert_eq!(r.max, 5);
    assert_eq!(r.peaks.len(), 5);
    assert_eq!(r.peaks[4], peak(9, 5));
}

#[test]
fn six_peaks_are_all_dropped() {
    let r = get_peaks(&spectrum(&[0, 5, 0, 5, 0, 5, 0, 5, 0, 5, 0, 5, 0]));
    assert_eq!(r.max, 5);
    assert!(r.peaks.is_empty());
}

#[test]
fn six_candidates_with_small_ones_filtered_first() {
    // Six local maxima, but two fall below the threshold: four remain.
    let r = get_peaks(&spectrum(&[0, 9, 0, 1, 0, 9, 0, 2, 0, 9, 0, 9, 0]));
    assert_eq!(r.max, 9);
    assert_eq!(r.peaks, vec![peak(1, 9), peak(5, 9), peak(9, 9), peak(11, 9)]);
}

#[test]
fn empty_spectrum_has_no_peaks() {
    let r = get_peaks(&Vec::new());
    assert_eq!(r.max, 0);
    assert!(r.peaks.is_empty());
}

#[test]
fn every_peak_exceeds_a_third_of_max() {
    let r = get_peaks(&spectrum(&[2, 7, 1, 30, 4, 11, 10, 12, 0, 40, 3]));
    assert_eq!(r.max, 40);
    assert!(!r.peaks.is_empty());
    for p in &r.peaks {
        assert!(3 * p.y > r.max);
    }
}
