//! The band-limited magnitude spectrum and its dominant point.
use vstd::prelude::*;

verus! {

use vstd::arithmetic::div_mod::{lemma_div_is_ordered, lemma_div_plus_one};

/// One point of a spectrum: the centre frequency of a bin and its magnitude.
#[derive(Clone, Copy, Debug, PartialEq, Eq, Structural)]
pub struct DataEntry {
    /// The frequency, in millihertz.
    pub x: u64,
    /// The magnitude.
    pub y: u64,
}

/// The frequency band kept by the analysis, in millihertz.
#[derive(Clone, Copy, Debug, PartialEq, Eq, Structural)]
pub struct Band {
    /// The lower end.
    pub min: u64,
    /// The upper end.
    pub max: u64,
}

/// Lowest frequency of the default band, in millihertz.
pub const MIN_FREQ: u64 = 0;

/// Highest frequency of the default band, in millihertz.
pub const MAX_FREQ: u64 = 20_000_000;

/// Fixed-point units per unit of amplitude in the magnitudes handed to
/// `get_data`.
pub const MAGNITUDE_SCALE: u64 = 1_000_000;

/// The default band: 0 Hz to 20 kHz.
pub fn default_band() -> (r: Band)
    ensures
        r.min == MIN_FREQ,
        r.max == MAX_FREQ,
{
    Band { min: MIN_FREQ, max: MAX_FREQ }
}

/// The inputs `get_data` accepts: a non-empty block of bin magnitudes, a
/// positive sample rate, and a band with `min < max <= rate`.
/// A bin must be at least one millihertz wide, so that bin centres stay apart.
pub open spec fn valid_input(bins: int, rate: int, band: Band) -> bool {
    &&& 0 < bins <= 0xFFFF_FFFF
    &&& bins <= rate
    &&& band.min < band.max
    &&& band.max <= rate
}

/// First bin kept: `floor(min / bin_delta)` with `bin_delta = rate / bins`.
pub open spec fn band_start(bins: int, rate: int, band: Band) -> int {
    (band.min * bins) / rate
}

/// One past the last bin kept: `bins - floor((rate - max) / bin_delta)`.
pub open spec fn band_end(bins: int, rate: int, band: Band) -> int {
    bins - ((rate - band.max) * bins) / rate
}

/// Centre frequency of bin `i`: `(i + 0.5) * rate / bins`, rounded down.
pub open spec fn bin_center(i: int, bins: int, rate: int) -> int {
    ((2 * i + 1) * rate) / (2 * bins)
}

/// The band-limited spectrum of the bin magnitudes `mags`.
pub open spec fn spectrum_of(mags: Seq<u64>, rate: int, band: Band) -> Seq<DataEntry> {
    let bins = mags.len() as int;
    let start = band_start(bins, rate, band);
    let end = band_end(bins, rate, band);
    Seq::new(
        (end - start) as nat,
        |k: int| DataEntry { x: bin_center(start + k, bins, rate) as u64, y: mags[start + k] },
    )
}

/// Frequencies strictly increase along a spectrum.
pub open spec fn strictly_increasing(s: Seq<DataEntry>) -> bool {
    forall|i: int, j: int| 0 <= i < j < s.len() ==> s[i].x < s[j].x
}

proof fn lemma_band_bounds(bins: int, rate: int, band: Band)
    requires
        valid_input(bins, rate, band),
    ensures
        0 <= band_start(bins, rate, band) < band_end(bins, rate, band) <= bins,
{
    let m = band.min as int;
    let mx = band.max as int;
    let a = m * bins;
    let c = (rate - mx) * bins;
    assert(0 <= a) by (nonlinear_arith)
        requires a == m * bins, 0 <= m, 0 < bins;
    assert(0 <= c) by (nonlinear_arith)
        requires c == (rate - mx) * bins, mx <= rate, 0 < bins;
    assert(a + c < rate * bins) by (nonlinear_arith)
        requires a == m * bins, c == (rate - mx) * bins, m < mx, 0 < bins;
    assert(a / rate + c / rate <= (a + c) / rate) by (nonlinear_arith)
        requires 0 <= a, 0 <= c, 0 < rate;
    assert((a + c) / rate < bins) by (nonlinear_arith)
        requires 0 <= a + c < rate * bins, 0 < rate;
    assert(0 <= a / rate) by (nonlinear_arith)
        requires 0 <= a, 0 < rate;
    assert(0 <= c / rate) by (nonlinear_arith)
        requires 0 <= c, 0 < rate;
}

proof fn lemma_center_bounds(i: int, bins: int, rate: int)
    requires
        0 <= i < bins,
        0 < rate,
    ensures
        0 <= bin_center(i, bins, rate) < rate,
{
    let n = (2 * i + 1) * rate;
    assert(0 <= n < rate * (2 * bins)) by (nonlinear_arith)
        requires n == (2 * i + 1) * rate, 0 <= i < bins, 0 < rate;
    assert(0 <= n / (2 * bins) < rate) by (nonlinear_arith)
        requires 0 <= n < rate * (2 * bins), 0 < bins;
}

proof fn lemma_center_step(i: int, bins: int, rate: int)
    requires
        0 <= i,
        0 < bins <= rate,
    ensures
        bin_center(i, bins, rate) < bin_center(i + 1, bins, rate),
{
    let d = 2 * bins;
    let a = (2 * i + 1) * rate;
    assert((2 * (i + 1) + 1) * rate == a + 2 * rate) by (nonlinear_arith)
        requires a == (2 * i + 1) * rate;
    lemma_div_is_ordered(d + a, a + 2 * rate, d);
    lemma_div_plus_one(a, d);
}

/// Law: for every valid input, the spectrum's frequencies strictly increase.
/// (Magnitudes are unsigned, so they are never negative.)
pub proof fn lemma_spectrum_increasing(mags: Seq<u64>, rate: u64, band: Band)
    requires
        valid_input(mags.len() as int, rate as int, band),
    ensures
        strictly_increasing(spectrum_of(mags, rate as int, band)),
        spectrum_of(mags, rate as int, band).len() > 0,
{
    let bins = mags.len() as int;
    let rate = rate as int;
    let start = band_start(bins, rate, band);
    let s = spectrum_of(mags, rate, band);
    lemma_band_bounds(bins, rate, band);
    assert forall|i: int, j: int| 0 <= i < j < s.len() implies s[i].x < s[j].x by {
        lemma_center_bounds(start + i, bins, rate);
        lemma_center_bounds(start + j, bins, rate);
        lemma_centers_ordered(start + i, start + j, bins, rate);
    }
}

proof fn lemma_centers_ordered(i: int, j: int, bins: int, rate: int)
    requires
        0 <= i < j,
        0 < bins <= rate,
    ensures
        bin_center(i, bins, rate) < bin_center(j, bins, rate),
    decreases j - i,
{
    lemma_center_step(j - 1, bins, rate);
    if i < j - 1 {
        lemma_centers_ordered(i, j - 1, bins, rate);
    }
}

/// Cuts the bin magnitudes `ft_res` of one transformed sample block down to
/// the band, pairing each kept bin with its centre frequency.
/// `rate` is the sample rate in millihertz.
pub fn get_data(ft_res: &Vec<u64>, rate: u64, band: Band) -> (r: Vec<DataEntry>)
    requires
        valid_input(ft_res@.len() as int, rate as int, band),
    ensures
        r@ == spectrum_of(ft_res@, rate as int, band),
        r@.len() > 0,
        strictly_increasing(r@),
{
    let bins = ft_res.len();
    proof {
        lemma_band_bounds(bins as int, rate as int, band);
    }
    assert((band.min as u128) * (bins as u128) <= 0xFFFF_FFFF_FFFF_FFFF * 0xFFFF_FFFF) by (nonlinear_arith)
        requires band.min <= 0xFFFF_FFFF_FFFF_FFFF, bins <= 0xFFFF_FFFF;
    let above = rate - band.max;
    assert((above as u128) * (bins as u128) <= 0xFFFF_FFFF_FFFF_FFFF * 0xFFFF_FFFF) by (nonlinear_arith)
        requires above <= 0xFFFF_FFFF_FFFF_FFFF, bins <= 0xFFFF_FFFF;
    let start = ((band.min as u128) * (bins as u128) / (rate as u128)) as usize;
    let end = bins - ((above as u128) * (bins as u128) / (rate as u128)) as usize;
    let ghost spec_s = spectrum_of(ft_res@, rate as int, band);
    let mut res: Vec<DataEntry> = Vec::with_capacity(end - start);
    let mut i: usize = start;
    while i < end
        invariant
            start <= i <= end <= bins,
            bins == ft_res@.len(),
            bins <= 0xFFFF_FFFF,
            0 < bins,
            0 < rate,
            start == band_start(bins as int, rate as int, band),
            end == band_end(bins as int, rate as int, band),
            spec_s == spectrum_of(ft_res@, rate as int, band),
            res@ == spec_s.take(i - start),
        decreases end - i,
    {
        proof {
            lemma_center_bounds(i as int, bins as int, rate as int);
            assert((2 * i as u128 + 1) * (rate as u128) <= 0x2_0000_0000 * 0xFFFF_FFFF_FFFF_FFFF) by (nonlinear_arith)
                requires i < bins <= 0xFFFF_FFFF, rate <= 0xFFFF_FFFF_FFFF_FFFF;
        }
        let x = (((2 * i as u128 + 1) * (rate as u128)) / (2 * bins as u128)) as u64;
        res.push(DataEntry { x, y: ft_res[i] });
        proof {
            assert(res@ =~= spec_s.take(i + 1 - start));
        }
        i = i + 1;
    }
    assert(res@ =~= spec_s);
    proof {
        lemma_spectrum_increasing(ft_res@, rate, band);
    }
    res
}

/// The dominant point of a spectrum.
#[derive(Clone, Copy, Debug, PartialEq, Eq, Structural)]
pub struct MaxFreq {
    /// The frequency, in millihertz.
    pub freq: u64,
    /// The magnitude.
    pub val: u64,
}

/// Index of the first point of greatest magnitude among the first `n` points.
pub open spec fn argmax(s: Seq<DataEntry>, n: int) -> int
    decreases n,
{
    if n <= 1 {
        0
    } else {
        let k = argmax(s, n - 1);
        if s[n - 1].y > s[k].y {
            n - 1
        } else {
            k
        }
    }
}

/// The dominant point of a non-empty spectrum: the first of greatest magnitude.
pub open spec fn max_point(s: Seq<DataEntry>) -> MaxFreq {
    let i = argmax(s, s.len() as int);
    MaxFreq { freq: s[i].x, val: s[i].y }
}

/// Point `i` has a magnitude at least that of every point, and greater than
/// that of every point before it.
pub open spec fn is_first_max(s: Seq<DataEntry>, i: int) -> bool {
    &&& 0 <= i < s.len()
    &&& forall|j: int| 0 <= j < s.len() ==> #[trigger] s[j].y <= s[i].y
    &&& forall|j: int| 0 <= j < i ==> #[trigger] s[j].y < s[i].y
}

proof fn lemma_argmax_prefix(s: Seq<DataEntry>, n: int)
    requires
        1 <= n <= s.len(),
    ensures
        0 <= argmax(s, n) < n,
        forall|j: int| 0 <= j < n ==> #[trigger] s[j].y <= s[argmax(s, n)].y,
        forall|j: int| 0 <= j < argmax(s, n) ==> #[trigger] s[j].y < s[argmax(s, n)].y,
    decreases n,
{
    if n > 1 {
        lemma_argmax_prefix(s, n - 1);
    }
}

/// Law: the dominant point is a point of the spectrum whose magnitude is at
/// least that of every point, and it is the first such point.
pub proof fn lemma_max_point_dominates(s: Seq<DataEntry>)
    requires
        s.len() > 0,
    ensures
        is_first_max(s, argmax(s, s.len() as int)),
        max_point(s).freq == s[argmax(s, s.len() as int)].x,
        max_point(s).val == s[argmax(s, s.len() as int)].y,
        forall|j: int| 0 <= j < s.len() ==> #[trigger] s[j].y <= max_point(s).val,
{
    lemma_argmax_prefix(s, s.len() as int);
}

/// Law: the first point of greatest magnitude is unique, so the dominant point
/// is determined by the spectrum alone and two searches on it agree.
pub proof fn lemma_max_point_unique(s: Seq<DataEntry>, i: int)
    requires
        is_first_max(s, i),
    ensures
        i == argmax(s, s.len() as int),
        max_point(s) == (MaxFreq { freq: s[i].x, val: s[i].y }),
{
    let k = argmax(s, s.len() as int);
    lemma_argmax_prefix(s, s.len() as int);
    if k < i {
        assert(s[k].y < s[i].y);
    } else if i < k {
        assert(s[i].y < s[k].y);
    }
}

/// Finds the dominant point of a non-empty spectrum: the point of greatest
/// magnitude, the lowest in frequency among equals.
pub fn get_max_frequency(data: &Vec<DataEntry>) -> (r: MaxFreq)
    requires
        data@.len() > 0,
    ensures
        r == max_point(data@),
        exists|i: int| is_first_max(data@, i) && r == (MaxFreq { freq: data@[i].x, val: data@[i].y }),
        forall|j: int| 0 <= j < data@.len() ==> #[trigger] data@[j].y <= r.val,
{
    let mut best: usize = 0;
    let mut i: usize = 1;
    while i < data.len()
        invariant
            1 <= i <= data@.len(),
            best == argmax(data@, i as int),
            0 <= best < i,
        decreases data@.len() - i,
    {
        if data[i].y > data[best].y {
            best = i;
        }
        i = i + 1;
    }
    proof {
        lemma_max_point_dominates(data@);
    }
    MaxFreq { freq: data[best].x, val: data[best].y }
}

} // verus!
