//! Detection of salient peaks in a spectrum.
use vstd::prelude::*;

use crate::spectrum::{strictly_increasing, DataEntry};

verus! {

/// A local maximum of a spectrum.
#[derive(Clone, Copy, Debug, PartialEq, Eq, Structural)]
pub struct PeakEntry {
    /// The frequency, in millihertz.
    pub x: u64,
    /// The magnitude.
    pub y: u64,
    /// The index of the point in the spectrum.
    pub index: usize,
}

/// The peaks of a spectrum.
#[derive(Debug)]
pub struct PeakResult {
    /// The greatest magnitude of the whole spectrum.
    pub max: u64,
    /// The peaks above a third of `max`, ascending by frequency; empty when
    /// there are more than `MAX_PEAKS` of them.
    pub peaks: Vec<PeakEntry>,
}

/// Above this many peaks a spectrum has no distinguishable pitch.
pub const MAX_PEAKS: usize = 5;

/// Point `j` follows an ascent (or a level stretch) and is followed by a descent.
pub open spec fn is_peak(s: Seq<DataEntry>, j: int) -> bool {
    &&& 1 <= j
    &&& j + 1 < s.len()
    &&& s[j - 1].y <= s[j].y
    &&& s[j + 1].y < s[j].y
}

/// The peak recorded for point `j`.
pub open spec fn peak_at(s: Seq<DataEntry>, j: int) -> PeakEntry {
    PeakEntry { x: s[j].x, y: s[j].y, index: j as usize }
}

/// The peaks at indices below `n`, in order.
pub open spec fn detected(s: Seq<DataEntry>, n: int) -> Seq<PeakEntry>
    decreases n,
{
    if n <= 0 {
        Seq::empty()
    } else if is_peak(s, n - 1) {
        detected(s, n - 1).push(peak_at(s, n - 1))
    } else {
        detected(s, n - 1)
    }
}

/// The greatest magnitude among the first `n` points, or 0.
pub open spec fn max_mag(s: Seq<DataEntry>, n: int) -> u64
    decreases n,
{
    if n <= 0 {
        0
    } else {
        let m = max_mag(s, n - 1);
        if s[n - 1].y > m {
            s[n - 1].y
        } else {
            m
        }
    }
}

/// The peaks of `ps` whose magnitude exceeds `m / 3`, in order.
pub open spec fn above_third(ps: Seq<PeakEntry>, m: int) -> Seq<PeakEntry>
    decreases ps.len(),
{
    if ps.len() == 0 {
        Seq::empty()
    } else {
        let rest = above_third(ps.drop_last(), m);
        if 3 * ps.last().y > m {
            rest.push(ps.last())
        } else {
            rest
        }
    }
}

/// The peaks that pass the threshold relative to the spectrum's maximum.
pub open spec fn filtered_peaks(s: Seq<DataEntry>) -> Seq<PeakEntry> {
    above_third(detected(s, s.len() as int), max_mag(s, s.len() as int) as int)
}

/// The peaks reported for a spectrum: all that pass the threshold, or none
/// when there are more than `MAX_PEAKS`.
pub open spec fn reported_peaks(s: Seq<DataEntry>) -> Seq<PeakEntry> {
    let f = filtered_peaks(s);
    if f.len() > MAX_PEAKS {
        Seq::empty()
    } else {
        f
    }
}

/// Law: the reported maximum is the greatest magnitude of the spectrum: no
/// point exceeds it, and a non-empty spectrum has a point that reaches it.
pub proof fn lemma_max_is_greatest(s: Seq<DataEntry>)
    ensures
        forall|j: int| 0 <= j < s.len() ==> #[trigger] s[j].y <= max_mag(s, s.len() as int),
        s.len() == 0 ==> max_mag(s, s.len() as int) == 0,
        s.len() > 0 ==> exists|j: int|
            0 <= j < s.len() && #[trigger] s[j].y == max_mag(s, s.len() as int),
{
    lemma_max_mag_bounds(s, s.len() as int);
}

proof fn lemma_max_mag_bounds(s: Seq<DataEntry>, n: int)
    requires
        0 <= n <= s.len(),
    ensures
        forall|j: int| 0 <= j < n ==> #[trigger] s[j].y <= max_mag(s, n),
        n == 0 ==> max_mag(s, n) == 0,
        n > 0 ==> exists|j: int| 0 <= j < n && #[trigger] s[j].y == max_mag(s, n),
    decreases n,
{
    if n > 0 {
        lemma_max_mag_bounds(s, n - 1);
        if s[n - 1].y <= max_mag(s, n - 1) && n > 1 {
            let j = choose|j: int| 0 <= j < n - 1 && #[trigger] s[j].y == max_mag(s, n - 1);
            assert(s[j].y == max_mag(s, n));
        }
    }
}

proof fn lemma_above_third_members(ps: Seq<PeakEntry>, m: int)
    ensures
        forall|k: int|
            0 <= k < above_third(ps, m).len() ==> 3 * (#[trigger] above_third(ps, m)[k]).y > m
                && ps.contains(above_third(ps, m)[k]),
    decreases ps.len(),
{
    if ps.len() > 0 {
        lemma_above_third_members(ps.drop_last(), m);
        let rest = above_third(ps.drop_last(), m);
        assert forall|k: int| 0 <= k < rest.len() implies ps.contains(#[trigger] rest[k]) by {
            let i = choose|i: int| 0 <= i < ps.drop_last().len() && ps.drop_last()[i] == rest[k];
            assert(ps[i] == rest[k]);
        }
        assert(ps[ps.len() - 1] == ps.last());
    }
}

/// Law: every reported peak's magnitude is greater than a third of the
/// spectrum's greatest magnitude, and is at most that magnitude.
pub proof fn lemma_peaks_above_threshold(s: Seq<DataEntry>)
    ensures
        forall|k: int|
            0 <= k < reported_peaks(s).len() ==> 3 * (#[trigger] reported_peaks(s)[k]).y
                > max_mag(s, s.len() as int),
{
    lemma_above_third_members(
        detected(s, s.len() as int),
        max_mag(s, s.len() as int) as int,
    );
}

/// Law: the cap is all or nothing. With more than `MAX_PEAKS` peaks past the
/// threshold none is reported; otherwise all of them are.
pub proof fn lemma_cap_all_or_nothing(s: Seq<DataEntry>)
    ensures
        filtered_peaks(s).len() > MAX_PEAKS ==> reported_peaks(s).len() == 0,
        filtered_peaks(s).len() <= MAX_PEAKS ==> reported_peaks(s) == filtered_peaks(s),
{
}

/// Finds the local maxima of a spectrum, keeps those whose magnitude exceeds a
/// third of the spectrum's greatest magnitude, and reports them unless there
/// are more than `MAX_PEAKS`.
pub fn get_peaks(data: &Vec<DataEntry>) -> (r: PeakResult)
    ensures
        r.max == max_mag(data@, data@.len() as int),
        r.peaks@ == reported_peaks(data@),
        forall|k: int| 0 <= k < r.peaks@.len() ==> 3 * (#[trigger] r.peaks@[k]).y > r.max,
        filtered_peaks(data@).len() > MAX_PEAKS ==> r.peaks@.len() == 0,
{
    let ghost s = data@;
    let mut max: u64 = 0;
    let mut peaks: Vec<PeakEntry> = Vec::new();
    let mut last_x: u64 = 0;
    let mut last_y: u64 = 0;
    // Whether the scan was ascending into the previous point.
    let mut ascending = false;
    let mut index: usize = 0;
    while index < data.len()
        invariant
            s == data@,
            0 <= index <= s.len(),
            max == max_mag(s, index as int),
            peaks@ == detected(s, index - 1),
            index > 0 ==> last_x == s[index - 1].x && last_y == s[index - 1].y,
            ascending == (index >= 2 && s[index - 2].y <= s[index - 1].y),
        decreases s.len() - index,
    {
        let x = data[index].x;
        let y = data[index].y;
        // The previous point is a peak.
        if index > 0 && y < last_y && ascending {
            peaks.push(PeakEntry { x: last_x, y: last_y, index: index - 1 });
        }
        if y > max {
            max = y;
        }
        proof {
            assert(is_peak(s, index - 1) == (index > 0 && y < last_y && ascending));
        }
        ascending = index > 0 && y >= last_y;
        last_x = x;
        last_y = y;
        index = index + 1;
    }
    proof {
        if s.len() > 0 {
            assert(!is_peak(s, s.len() - 1));
        }
        assert(detected(s, s.len() as int) == detected(s, s.len() - 1));
    }
    let ghost raw = peaks@;
    let mut kept: Vec<PeakEntry> = Vec::new();
    let mut k: usize = 0;
    while k < peaks.len()
        invariant
            raw == peaks@,
            0 <= k <= raw.len(),
            kept@ == above_third(raw.take(k as int), max as int),
        decreases raw.len() - k,
    {
        let p = peaks[k];
        proof {
            assert(raw.take(k + 1).drop_last() =~= raw.take(k as int));
            assert(raw.take(k + 1).last() == p);
        }
        if 3 * (p.y as u128) > max as u128 {
            kept.push(p);
        }
        k = k + 1;
    }
    proof {
        assert(raw.take(raw.len() as int) =~= raw);
    }
    if kept.len() > MAX_PEAKS {
        kept = Vec::new();
    }
    proof {
        lemma_peaks_above_threshold(s);
    }
    PeakResult { max, peaks: kept }
}

/// Peaks stand in strictly increasing order of index and of frequency.
pub open spec fn ascending(ps: Seq<PeakEntry>) -> bool {
    forall|a: int, b: int|
        0 <= a < b < ps.len() ==> (#[trigger] ps[a]).index < (#[trigger] ps[b]).index
            && ps[a].x < ps[b].x
}

proof fn lemma_detected_ascending(s: Seq<DataEntry>, n: int)
    requires
        strictly_increasing(s),
        0 <= n <= s.len() <= usize::MAX,
    ensures
        ascending(detected(s, n)),
        forall|k: int|
            0 <= k < detected(s, n).len() ==> (#[trigger] detected(s, n)[k]).index < n
                && detected(s, n)[k] == peak_at(s, detected(s, n)[k].index as int),
    decreases n,
{
    if n > 0 {
        lemma_detected_ascending(s, n - 1);
        let p = detected(s, n - 1);
        if is_peak(s, n - 1) {
            let q = p.push(peak_at(s, n - 1));
            assert forall|a: int, b: int| 0 <= a < b < q.len() implies (#[trigger] q[a]).index
                < (#[trigger] q[b]).index && q[a].x < q[b].x by {
                if b == q.len() - 1 {
                    assert(q[a] == p[a]);
                    assert(s[p[a].index as int].x < s[n - 1].x);
                } else {
                    assert(q[a] == p[a] && q[b] == p[b]);
                }
            }
            assert forall|k: int| 0 <= k < q.len() implies (#[trigger] q[k]).index < n && q[k]
                == peak_at(s, q[k].index as int) by {
                if k < p.len() {
                    assert(q[k] == p[k]);
                }
            }
        }
    }
}

proof fn lemma_above_third_ascending(ps: Seq<PeakEntry>, m: int)
    requires
        ascending(ps),
    ensures
        ascending(above_third(ps, m)),
    decreases ps.len(),
{
    if ps.len() > 0 {
        let init = ps.drop_last();
        assert(ascending(init)) by {
            assert forall|a: int, b: int| 0 <= a < b < init.len() implies (#[trigger] init[a]).index
                < (#[trigger] init[b]).index && init[a].x < init[b].x by {
                assert(init[a] == ps[a] && init[b] == ps[b]);
            }
        }
        lemma_above_third_ascending(init, m);
        lemma_above_third_members(init, m);
        let rest = above_third(init, m);
        if 3 * ps.last().y > m {
            let q = rest.push(ps.last());
            assert forall|a: int, b: int| 0 <= a < b < q.len() implies (#[trigger] q[a]).index
                < (#[trigger] q[b]).index && q[a].x < q[b].x by {
                assert(q[a] == rest[a]);
                if b == q.len() - 1 {
                    let i = choose|i: int| 0 <= i < init.len() && init[i] == rest[a];
                    assert(ps[i] == rest[a]);
                    assert(ps[ps.len() - 1] == ps.last());
                } else {
                    assert(q[b] == rest[b]);
                }
            }
        }
    }
}

/// Law: for a spectrum whose frequencies strictly increase, the reported
/// peaks ascend by frequency and by index.
pub proof fn lemma_peaks_ascending(s: Seq<DataEntry>)
    requires
        strictly_increasing(s),
        s.len() <= usize::MAX,
    ensures
        ascending(reported_peaks(s)),
{
    lemma_detected_ascending(s, s.len() as int);
    lemma_above_third_ascending(detected(s, s.len() as int), max_mag(s, s.len() as int) as int);
}

} // verus!
