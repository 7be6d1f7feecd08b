use pitch_analysis::{default_band, get_data, get_max_frequency, Band, DataEntry, MaxFreq};

fn entry(x: u64, y: u64) -> DataEntry {
    DataEntry { x, y }
}

#[test]
fn get_data_cuts_to_band() {
    // 8 bins at 16 Hz: each bin is 2 Hz wide.
    let mags = vec![10, 11, 12, 13, 14, 15, 16, 17];
    let r = get_data(&mags, 16_000, Band { min: 2_000, max: 6_000 });
    assert_eq!(r, vec![entry(3_000, 11), entry(5_000, 12)]);
}

#[test]
fn get_data_keeps_whole_lower_half() {
    let mags = vec![5, 6, 7, 8];
    let r = get_data(&mags, 8_000, Band { min: 0, max: 4_000 });
    assert_eq!(r, vec![entry(1_000, 5), entry(3_000, 6)]);
}

#[test]
fn get_data_narrow_band_is_one_bin() {
    // A band narrower than a bin still keeps the bin that holds it.
    let mags = vec![1, 2, 3, 4, 5, 6, 7, 8];
    let r = get_data(&mags, 16_000, Band { min: 4_100, max: 4_200 });
    assert_eq!(r, vec![entry(5_000, 3)]);
}

#[test]
fn get_data_default_band_at_44100() {
    let mags: Vec<u64> = (0..2048u64).collect();
    let r = get_data(&mags, 44_100_000, default_band());
    assert_eq!(r.len(), 929);
    assert_eq!(r[0], entry(10_766, 0));
    assert_eq!(r[20], entry(441_430, 20));
    assert!(r.last().unwrap().x <= 20_000_000);
    for w in r.windows(2) {
        assert!(w[0].x < w[1].x);
    }
}

#[test]
fn max_frequency_picks_greatest() {
    let data = vec![entry(1, 3), entry(2, 9), entry(3, 4)];
    assert_eq!(get_max_frequency(&data), MaxFreq { freq: 2, val: 9 });
}

#[test]
fn max_frequency_ties_go_to_lowest_frequency() {
    let data = vec![entry(1, 3), entry(2, 9), entry(3, 9), entry(4, 1)];
    assert_eq!(get_max_frequency(&data), MaxFreq { freq: 2, val: 9 });
}

#[test]
fn max_frequency_single_point() {
    let data = vec![entry(7, 0)];
    assert_eq!(get_max_frequency(&data), MaxFreq { freq: 7, val: 0 });
}

#[test]
fn max_frequency_twice_agrees() {
    let data = vec![entry(1, 5), entry(2, 2), entry(3, 8), entry(4, 8)];
    assert_eq!(get_max_frequency(&data), get_max_frequency(&data));
    let m = get_max_frequency(&data);
    assert!(data.iter().all(|d| d.y <= m.val));
}
