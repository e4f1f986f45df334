//! The seven-segment glyph table.
//!
//! Segments are labelled in the usual way and always listed in the order
//! a, b, c, d, e, f, g:
//!
//! ```text
//!  aa
//! f  b
//!  gg
//! e  c
//!  dd
//! ```

use vstd::prelude::*;
use vstd::set_lib::{lemma_int_range, lemma_set_disjoint_lens, set_int_range};

verus! {

/// The digit that a glyph shows, if it is one of the known glyphs.
///
/// Each digit has its standard glyph. A glyph with every segment off is read
/// as a blanked zero, so the digit 0 has two glyphs.
pub open spec fn glyph_digit(
    a: bool,
    b: bool,
    c: bool,
    d: bool,
    e: bool,
    f: bool,
    g: bool,
) -> Option<int> {
    match (a, b, c, d, e, f, g) {
        (true, true, true, true, true, true, false) => Some(0int),
        (false, true, true, false, false, false, false) => Some(1int),
        (true, true, false, true, true, false, true) => Some(2int),
        (true, true, true, true, false, false, true) => Some(3int),
        (false, true, true, false, false, true, true) => Some(4int),
        (true, false, true, true, false, true, true) => Some(5int),
        (true, false, true, true, true, true, true) => Some(6int),
        (true, true, true, false, false, false, false) => Some(7int),
        (true, true, true, true, true, true, true) => Some(8int),
        (true, true, true, true, false, true, true) => Some(9int),
        (false, false, false, false, false, false, false) => Some(0int),
        _ => None,
    }
}

/// The digit that a run of segment states shows: the run must hold exactly
/// seven states and form a known glyph.
pub open spec fn segment_digit(segments: Seq<bool>) -> Option<int> {
    if segments.len() == 7 {
        glyph_digit(
            segments[0],
            segments[1],
            segments[2],
            segments[3],
            segments[4],
            segments[5],
            segments[6],
        )
    } else {
        None
    }
}

/// Looks a run of segment states up in the glyph table.
pub fn seven_segment_to_number(segments: &[bool]) -> (digit: Option<i32>)
    ensures
        match digit {
            Some(d) => segment_digit(segments@) == Some(d as int),
            None => segment_digit(segments@) is None,
        },
{
    if segments.len() != 7 {
        return None;
    }
    match (
        segments[0],
        segments[1],
        segments[2],
        segments[3],
        segments[4],
        segments[5],
        segments[6],
    ) {
        (true, true, true, true, true, true, false) => Some(0),
        (false, true, true, false, false, false, false) => Some(1),
        (true, true, false, true, true, false, true) => Some(2),
        (true, true, true, true, false, false, true) => Some(3),
        (false, true, true, false, false, true, true) => Some(4),
        (true, false, true, true, false, true, true) => Some(5),
        (true, false, true, true, true, true, true) => Some(6),
        (true, true, true, false, false, false, false) => Some(7),
        (true, true, true, true, true, true, true) => Some(8),
        (true, true, true, true, false, true, true) => Some(9),
        (false, false, false, false, false, false, false) => Some(0),
        _ => None,
    }
}

/// The glyph with the given number: segment a is lit where the number is
/// odd, segment b where its half is odd, and so on up to segment g. The
/// numbers from 0 to 127 name the 128 glyphs, each once.
pub open spec fn glyph(code: int) -> Seq<bool> {
    seq![
        code % 2 == 1,
        code / 2 % 2 == 1,
        code / 4 % 2 == 1,
        code / 8 % 2 == 1,
        code / 16 % 2 == 1,
        code / 32 % 2 == 1,
        code / 64 % 2 == 1,
    ]
}

/// The number of a glyph.
pub open spec fn glyph_code(segments: Seq<bool>) -> int {
    (if segments[0] { 1int } else { 0 })
    + (if segments[1] { 2int } else { 0 })
    + (if segments[2] { 4int } else { 0 })
    + (if segments[3] { 8int } else { 0 })
    + (if segments[4] { 16int } else { 0 })
    + (if segments[5] { 32int } else { 0 })
    + (if segments[6] { 64int } else { 0 })
}

/// Every run of seven segment states is the glyph of its number, which is
/// below 128.
pub proof fn lemma_glyph_of_code(segments: Seq<bool>)
    requires
        segments.len() == 7,
    ensures
        0 <= glyph_code(segments) < 128,
        glyph(glyph_code(segments)) == segments,
{
    assert(glyph(glyph_code(segments)) =~= segments);
}

/// Every number below 128 is the number of its glyph.
pub proof fn lemma_code_of_glyph(code: int)
    requires
        0 <= code < 128,
    ensures
        glyph(code).len() == 7,
        glyph_code(glyph(code)) == code,
{
}

/// The glyphs that show some digit, by number.
pub open spec fn known_glyphs() -> Set<int> {
    Set::new(|code: int| 0 <= code < 128 && segment_digit(glyph(code)) is Some)
}

/// The glyphs that show no digit, by number.
pub open spec fn unknown_glyphs() -> Set<int> {
    Set::new(|code: int| 0 <= code < 128 && segment_digit(glyph(code)) is None)
}

/// The glyphs that show the given digit, by number.
pub open spec fn glyphs_of(digit: int) -> Set<int> {
    Set::new(|code: int| 0 <= code < 128 && segment_digit(glyph(code)) == Some(digit))
}

/// The digit that each glyph shows, by number: eleven glyphs show a digit,
/// the others none.
pub proof fn lemma_glyph_numbers(code: int)
    requires
        0 <= code < 128,
    ensures
        segment_digit(glyph(code)) == if code == 63 || code == 0 {
            Some(0int)
        } else if code == 6 {
            Some(1int)
        } else if code == 91 {
            Some(2int)
        } else if code == 79 {
            Some(3int)
        } else if code == 102 {
            Some(4int)
        } else if code == 109 {
            Some(5int)
        } else if code == 125 {
            Some(6int)
        } else if code == 7 {
            Some(7int)
        } else if code == 127 {
            Some(8int)
        } else if code == 111 {
            Some(9int)
        } else {
            None
        },
{
}

/// Of the 128 glyphs exactly 11 show a digit and 117 show none. The digit 0
/// has two glyphs, each of the digits 1 to 9 has one, and a glyph shows no
/// other number.
pub proof fn lemma_glyph_table()
    ensures
        known_glyphs().finite(),
        known_glyphs().len() == 11,
        unknown_glyphs().finite(),
        unknown_glyphs().len() == 117,
        glyphs_of(0).len() == 2,
        forall|digit: int| 1 <= digit <= 9 ==> (#[trigger] glyphs_of(digit)).len() == 1,
        forall|digit: int| !(0 <= digit <= 9) ==> #[trigger] glyphs_of(digit) == Set::<int>::empty(),
{
    assert forall|code: int| 0 <= code < 128 implies segment_digit(glyph(code)) == if code == 63
        || code == 0 {
        Some(0int)
    } else if code == 6 {
        Some(1int)
    } else if code == 91 {
        Some(2int)
    } else if code == 79 {
        Some(3int)
    } else if code == 102 {
        Some(4int)
    } else if code == 109 {
        Some(5int)
    } else if code == 125 {
        Some(6int)
    } else if code == 7 {
        Some(7int)
    } else if code == 127 {
        Some(8int)
    } else if code == 111 {
        Some(9int)
    } else {
        None
    } by {
        lemma_glyph_numbers(code);
    }
    assert(known_glyphs() =~= set![0int, 6, 7, 63, 79, 91, 102, 109, 111, 125, 127]);
    assert(glyphs_of(0) =~= set![0int, 63]);
    assert(glyphs_of(1) =~= set![6int]);
    assert(glyphs_of(2) =~= set![91int]);
    assert(glyphs_of(3) =~= set![79int]);
    assert(glyphs_of(4) =~= set![102int]);
    assert(glyphs_of(5) =~= set![109int]);
    assert(glyphs_of(6) =~= set![125int]);
    assert(glyphs_of(7) =~= set![7int]);
    assert(glyphs_of(8) =~= set![127int]);
    assert(glyphs_of(9) =~= set![111int]);
    assert forall|digit: int| !(0 <= digit <= 9) implies #[trigger] glyphs_of(digit) == Set::<
        int,
    >::empty() by {
        assert(glyphs_of(digit) =~= Set::<int>::empty());
    }
    lemma_int_range(0, 128);
    assert(known_glyphs() + unknown_glyphs() =~= set_int_range(0, 128));
    assert(unknown_glyphs().subset_of(set_int_range(0, 128)));
    vstd::set_lib::lemma_len_subset(unknown_glyphs(), set_int_range(0, 128));
    lemma_set_disjoint_lens(known_glyphs(), unknown_glyphs());
}

} // verus!
