//! The musical note nearest to a frequency.
use vstd::prelude::*;

verus! {

/// Number of notes in the chromatic table: twelve semitones in ten octaves.
pub const NOTE_COUNT: usize = 120;

/// Index in the table of the reference tone, A at 440 Hz.
pub const REF_INDEX: usize = 69;

/// Frequency of the reference tone, in millihertz.
pub const REF_FREQ: u64 = 440_000;

/// The label for a frequency outside the table.
pub const OUT_OF_RANGE: &'static str = "^A,,,,,,,,,";

/// Lower edges of the semitones, in millihertz: entry `k` is the frequency a
/// quarter tone below note `k`, `440 Hz * 2^((k - 69.5) / 12)`, rounded up.
/// The last entry is the upper edge of the last note.
pub const EDGES: [u64; 121] = [
    7944, 8416, 8916, 9446, 10_008, 10_603, 11_234, 11_902,
    12_609, 13_359, 14_153, 14_995, 15_887, 16_831, 17_832, 18_892,
    20_016, 21_206, 22_467, 23_803, 25_218, 26_718, 28_306, 29_989,
    31_773, 33_662, 35_664, 37_784, 40_031, 42_411, 44_933, 47_605,
    50_436, 53_435, 56_612, 59_978, 63_545, 67_323, 71_327, 75_568,
    80_061, 84_822, 89_866, 95_210, 100_871, 106_869, 113_224, 119_956,
    127_089, 134_646, 142_653, 151_135, 160_122, 169_644, 179_731, 190_419,
    201_741, 213_738, 226_447, 239_912, 254_178, 269_292, 285_305, 302_270,
    320_244, 339_287, 359_462, 380_837, 403_482, 427_475, 452_893, 479_824,
    508_356, 538_584, 570_610, 604_540, 640_488, 678_573, 718_923, 761_673,
    806_964, 854_949, 905_786, 959_647, 1_016_711, 1_077_168, 1_141_219, 1_209_080,
    1_280_975, 1_357_146, 1_437_846, 1_523_345, 1_613_928, 1_709_897, 1_811_572, 1_919_294,
    2_033_421, 2_154_335, 2_282_438, 2_418_159, 2_561_950, 2_714_292, 2_875_692, 3_046_689,
    3_227_855, 3_419_793, 3_623_144, 3_838_588, 4_066_842, 4_308_669, 4_564_876, 4_836_317,
    5_123_900, 5_428_583, 5_751_383, 6_093_378, 6_455_709, 6_839_585, 7_246_288, 7_677_175,
    8_133_683,
];

/// Index of the first edge above `f`, searching from edge `i`; 121 if none.
pub open spec fn first_edge_above(f: int, i: int) -> int
    decreases 121 - i,
{
    if i >= 121 {
        121
    } else if EDGES@[i] > f {
        i
    } else {
        first_edge_above(f, i + 1)
    }
}

/// The table index of the note whose semitone holds `f`, or `None` when `f`
/// lies below the first edge or at or above the last.
pub open spec fn note_index(f: int) -> Option<int> {
    let k = first_edge_above(f, 0);
    if 1 <= k <= 120 {
        Some(k - 1)
    } else {
        None
    }
}

/// Whether semitone `k` of the table holds frequency `f`.
pub open spec fn in_semitone(f: int, k: int) -> bool {
    0 <= k < 120 && EDGES@[k] <= f < EDGES@[k + 1]
}

/// The edges strictly increase from edge `i` on.
pub open spec fn edges_increase_from(i: int) -> bool
    decreases 120 - i,
{
    i >= 120 || (EDGES@[i] < EDGES@[i + 1] && edges_increase_from(i + 1))
}

/// Whether pitch class `pc` (0 for C up to 11 for B) is a sharp.
pub open spec fn is_sharp(pc: int) -> bool {
    pc == 1 || pc == 3 || pc == 6 || pc == 8 || pc == 10
}

/// The letter of pitch class `pc`, lower case in the upper octaves.
pub open spec fn letter_name(pc: int, lower: bool) -> Seq<char> {
    if pc <= 1 {
        if lower { "c"@ } else { "C"@ }
    } else if pc <= 3 {
        if lower { "d"@ } else { "D"@ }
    } else if pc == 4 {
        if lower { "e"@ } else { "E"@ }
    } else if pc <= 6 {
        if lower { "f"@ } else { "F"@ }
    } else if pc <= 8 {
        if lower { "g"@ } else { "G"@ }
    } else if pc <= 10 {
        if lower { "a"@ } else { "A"@ }
    } else {
        if lower { "b"@ } else { "B"@ }
    }
}

/// `n` copies of the one-character string `mark`.
pub open spec fn marks(mark: Seq<char>, n: nat) -> Seq<char>
    decreases n,
{
    if n == 0 {
        Seq::empty()
    } else {
        marks(mark, (n - 1) as nat) + mark
    }
}

/// The octave marks of octave `oct`: commas below the sixth octave,
/// apostrophes above the seventh.
pub open spec fn octave_marks(oct: int) -> Seq<char> {
    if oct < 5 {
        marks(","@, (5 - oct) as nat)
    } else if oct > 6 {
        marks("'"@, (oct - 6) as nat)
    } else {
        Seq::empty()
    }
}

/// The label of table entry `i`: `^` for a sharp, the letter, the octave marks.
pub open spec fn note_label(i: int) -> Seq<char> {
    let pc = i % 12;
    let oct = i / 12;
    let accidental = if is_sharp(pc) { "^"@ } else { Seq::empty() };
    accidental + letter_name(pc, oct >= 6) + octave_marks(oct)
}

/// The label for frequency `f` in millihertz.
pub open spec fn note_for(f: int) -> Seq<char> {
    match note_index(f) {
        Some(i) => note_label(i),
        None => OUT_OF_RANGE@,
    }
}

fn letter_str(pc: usize, lower: bool) -> (r: &'static str)
    ensures
        r@ == letter_name(pc as int, lower),
{
    if pc <= 1 {
        if lower { "c" } else { "C" }
    } else if pc <= 3 {
        if lower { "d" } else { "D" }
    } else if pc == 4 {
        if lower { "e" } else { "E" }
    } else if pc <= 6 {
        if lower { "f" } else { "F" }
    } else if pc <= 8 {
        if lower { "g" } else { "G" }
    } else if pc <= 10 {
        if lower { "a" } else { "A" }
    } else {
        if lower { "b" } else { "B" }
    }
}

/// Appends `n` copies of `mark` to `s`.
fn push_marks(s: &mut String, mark: &str, n: usize)
    ensures
        final(s)@ == old(s)@ + marks(mark@, n as nat),
{
    let mut k: usize = 0;
    while k < n
        invariant
            k <= n,
            s@ == old(s)@ + marks(mark@, k as nat),
        decreases n - k,
    {
        s.append(mark);
        proof {
            assert(old(s)@ + marks(mark@, (k + 1) as nat) =~= old(s)@ + marks(mark@, k as nat) + mark@);
        }
        k = k + 1;
    }
}

/// The label of table entry `i`.
pub fn note_name(i: usize) -> (r: String)
    requires
        i < NOTE_COUNT,
    ensures
        r@ == note_label(i as int),
{
    let pc = i % 12;
    let oct = i / 12;
    let mut s = String::new();
    if pc == 1 || pc == 3 || pc == 6 || pc == 8 || pc == 10 {
        s.append("^");
    }
    s.append(letter_str(pc, oct >= 6));
    if oct < 5 {
        push_marks(&mut s, ",", 5 - oct);
    } else if oct > 6 {
        push_marks(&mut s, "'", oct - 6);
    }
    proof {
        let accidental = if is_sharp(pc as int) { "^"@ } else { Seq::<char>::empty() };
        assert(s@ =~= accidental + letter_name(pc as int, oct >= 6) + octave_marks(oct as int));
    }
    s
}

/// Finds the index of the first edge above `frequency`; 121 if none is.
fn edge_above(frequency: u64) -> (k: usize)
    ensures
        k == first_edge_above(frequency as int, 0),
{
    let mut k: usize = 0;
    while k < 121 && EDGES[k] <= frequency
        invariant
            k <= 121,
            first_edge_above(frequency as int, k as int) == first_edge_above(frequency as int, 0),
        decreases 121 - k,
    {
        k = k + 1;
    }
    k
}

/// The note nearest to `frequency` (in millihertz, positive): the entry of
/// the chromatic table whose semitone holds it, or `OUT_OF_RANGE` outside the
/// table.
pub fn note_for_frequency(frequency: u64) -> (r: String)
    requires
        frequency > 0,
    ensures
        r@ == note_for(frequency as int),
{
    let k = edge_above(frequency);
    if k == 0 || k > NOTE_COUNT {
        OUT_OF_RANGE.to_string()
    } else {
        note_name(k - 1)
    }
}

proof fn lemma_edges_increase_from(i: int, a: int, b: int)
    requires
        0 <= i <= a < b <= 120,
        edges_increase_from(i),
    ensures
        EDGES@[a] < EDGES@[b],
    decreases 120 - i,
{
    if i < a {
        lemma_edges_increase_from(i + 1, a, b);
    } else if a + 1 < b {
        lemma_edges_increase_from(i + 1, a + 1, b);
    }
}

/// The edges of the table strictly increase.
pub proof fn lemma_edges_increase(a: int, b: int)
    requires
        0 <= a < b <= 120,
    ensures
        EDGES@[a] < EDGES@[b],
{
    // Unfolded ten edges at a time, from the top down.
    assert(edges_increase_from(120));
    assert(edges_increase_from(110)) by {
        reveal_with_fuel(edges_increase_from, 11);
    }
    assert(edges_increase_from(100)) by {
        reveal_with_fuel(edges_increase_from, 11);
    }
    assert(edges_increase_from(90)) by {
        reveal_with_fuel(edges_increase_from, 11);
    }
    assert(edges_increase_from(80)) by {
        reveal_with_fuel(edges_increase_from, 11);
    }
    assert(edges_increase_from(70)) by {
        reveal_with_fuel(edges_increase_from, 11);
    }
    assert(edges_increase_from(60)) by {
        reveal_with_fuel(edges_increase_from, 11);
    }
    assert(edges_increase_from(50)) by {
        reveal_with_fuel(edges_increase_from, 11);
    }
    assert(edges_increase_from(40)) by {
        reveal_with_fuel(edges_increase_from, 11);
    }
    assert(edges_increase_from(30)) by {
        reveal_with_fuel(edges_increase_from, 11);
    }
    assert(edges_increase_from(20)) by {
        reveal_with_fuel(edges_increase_from, 11);
    }
    assert(edges_increase_from(10)) by {
        reveal_with_fuel(edges_increase_from, 11);
    }
    assert(edges_increase_from(0)) by {
        reveal_with_fuel(edges_increase_from, 11);
    }
    lemma_edges_increase_from(0, a, b);
}

proof fn lemma_first_edge_above(f: int, i: int)
    requires
        0 <= i <= 121,
    ensures
        i <= first_edge_above(f, i) <= 121,
        forall|j: int| i <= j < first_edge_above(f, i) ==> EDGES@[j] <= f,
        first_edge_above(f, i) < 121 ==> EDGES@[first_edge_above(f, i)] > f,
    decreases 121 - i,
{
    if i < 121 && EDGES@[i] <= f {
        lemma_first_edge_above(f, i + 1);
    }
}

/// Law: a frequency inside semitone `k` of the table gets the label of entry `k`.
pub proof fn lemma_note_in_semitone(f: int, k: int)
    requires
        in_semitone(f, k),
    ensures
        note_index(f) == Some(k),
        note_for(f) == note_label(k),
{
    lemma_first_edge_above(f, 0);
    let c = first_edge_above(f, 0);
    if c < k {
        lemma_edges_increase(c, k);
    } else if c > k + 1 {
        assert(EDGES@[k + 1] <= f);
    }
}

/// Law: a frequency outside the table's range gets the out-of-range label.
pub proof fn lemma_note_out_of_range(f: int)
    requires
        f < EDGES@[0] || f >= EDGES@[120],
    ensures
        note_index(f) == None::<int>,
        note_for(f) == OUT_OF_RANGE@,
{
    lemma_first_edge_above(f, 0);
    let c = first_edge_above(f, 0);
    if f >= EDGES@[120] && c < 120 {
        lemma_edges_increase(c, 120);
    }
}

/// Law: the reference tone, 440 Hz, gets the reference entry of the table, "A".
pub proof fn lemma_reference_tone()
    ensures
        note_index(REF_FREQ as int) == Some(REF_INDEX as int),
        note_for(REF_FREQ as int) == "A"@,
{
    lemma_note_in_semitone(REF_FREQ as int, REF_INDEX as int);
    assert(note_label(69) =~= "A"@);
}

} // verus!
