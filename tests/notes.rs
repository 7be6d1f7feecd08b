use pitch_analysis::{note_for_frequency, note_name, OUT_OF_RANGE, REF_FREQ, REF_INDEX};

#[test]
fn reference_tone_is_a() {
    assert_eq!(note_for_frequency(440_000), "A");
    assert_eq!(note_for_frequency(REF_FREQ), note_name(REF_INDEX));
}

#[test]
fn neighbours_of_the_reference() {
    assert_eq!(note_for_frequency(466_164), "^A");
    assert_eq!(note_for_frequency(415_305), "^G");
    assert_eq!(note_for_frequency(880_000), "a");
    assert_eq!(note_for_frequency(220_000), "A,");
    assert_eq!(note_for_frequency(261_626), "C");
    assert_eq!(note_for_frequency(27_500), "A,,,,");
}

#[test]
fn semitone_edges() {
    // The semitone of A runs from 427.475 Hz up to 452.893 Hz.
    assert_eq!(note_for_frequency(427_474), "^G");
    assert_eq!(note_for_frequency(427_475), "A");
    assert_eq!(note_for_frequency(452_892), "A");
    assert_eq!(note_for_frequency(452_893), "^A");
}

#[test]
fn table_ends() {
    assert_eq!(note_for_frequency(7_944), "C,,,,,");
    assert_eq!(note_for_frequency(8_133_682), "b'''");
}

#[test]
fn out_of_range_frequencies() {
    assert_eq!(note_for_frequency(1), OUT_OF_RANGE);
    assert_eq!(note_for_frequency(7_943), OUT_OF_RANGE);
    assert_eq!(note_for_frequency(8_133_683), OUT_OF_RANGE);
    assert_eq!(note_for_frequency(20_000_000), OUT_OF_RANGE);
    assert_eq!(note_for_frequency(u64::MAX), "^A,,,,,,,,,");
}

#[test]
fn note_names_follow_the_table() {
    let expected = [
        "C,,,,,", "^C,,,,,", "D,,,,,", "^D,,,,,", "E,,,,,", "F,,,,,", "^F,,,,,", "G,,,,,",
        "^G,,,,,", "A,,,,,", "^A,,,,,", "B,,,,,",
    ];
    for (i, e) in expected.iter().enumerate() {
        assert_eq!(note_name(i), *e);
    }
    assert_eq!(note_name(60), "C");
    assert_eq!(note_name(70), "^A");
    assert_eq!(note_name(71), "B");
    assert_eq!(note_name(72), "c");
    assert_eq!(note_name(84), "c'");
    assert_eq!(note_name(103), "g''");
    assert_eq!(note_name(118), "^a'''");
    assert_eq!(note_name(119), "b'''");
}
