//! Decoding the luminance samples of a marker into a value.
//!
//! A lamp is lit where its sample is above the threshold. A row of digits is
//! read seven samples at a time; where the threshold of the configuration
//! gives no known glyph for one of the cells, thresholds near it are tried in
//! turn.

use crate::config::{MarkerType, MAX_DIGITS};
use crate::segments::{segment_digit, seven_segment_to_number};
use crate::units::FULL_SCALE;
use vstd::prelude::*;

verus! {

/// What a marker was read as.
#[derive(Clone, Copy, Debug, PartialEq, Eq, Structural)]
pub enum DecodedValue {
    /// A lamp: lit or not.
    Boolean(bool),
    /// A row of digits.
    Integer(i64),
    /// The marker could not be read.
    Absent,
}

/// The samples of one cell.
pub const CELL: usize = 7;

/// The first adjustment of the threshold: a hundredth of full scale.
pub const FIRST_STEP: i64 = 26_112_000;

/// No search probes more thresholds than this.
pub const MAX_PROBES: usize = 13;

/// Which samples are above the threshold.
pub open spec fn binarize(samples: Seq<i64>, threshold: int) -> Seq<bool> {
    Seq::new(samples.len(), |i: int| samples[i] > threshold)
}

/// Where the last cell of a sample set begins. A set whose length is no
/// multiple of seven ends in a cell that is cut short.
pub open spec fn last_cell_start(len: nat) -> int {
    7 * ((len - 1) / 7)
}

/// The number that the samples show at one threshold, if every cell shows a
/// known glyph: the cells are decimal digits, the first cell the most
/// significant. No samples show the number 0.
pub open spec fn display_value(samples: Seq<i64>, threshold: int) -> Option<int>
    decreases samples.len(),
{
    if samples.len() == 0 {
        Some(0int)
    } else {
        let start = last_cell_start(samples.len());
        match (
            display_value(samples.take(start), threshold),
            segment_digit(binarize(samples.skip(start), threshold)),
        ) {
            (Some(high), Some(digit)) => Some(10 * high + digit),
            _ => None,
        }
    }
}

/// The samples of the cell with the given index, counted from 0.
pub open spec fn cell_samples(samples: Seq<i64>, cell: int) -> Seq<i64> {
    samples.subrange(7 * cell, 7 * cell + 7)
}

/// The samples show a number exactly where they fill whole cells and every
/// cell shows a known glyph.
pub proof fn lemma_display_value_cells(samples: Seq<i64>, threshold: int)
    ensures
        display_value(samples, threshold) is Some <==> samples.len() % 7 == 0 && forall|cell: int|
            0 <= cell < samples.len() / 7 ==> segment_digit(
                binarize(#[trigger] cell_samples(samples, cell), threshold),
            ) is Some,
    decreases samples.len(),
{
    if samples.len() > 0 {
        let start = last_cell_start(samples.len());
        let before = samples.take(start);
        lemma_display_value_cells(before, threshold);
        if samples.len() % 7 == 0 {
            let last = samples.len() / 7 - 1;
            assert(start == 7 * last);
            assert(samples.skip(start) == cell_samples(samples, last));
            assert forall|cell: int| 0 <= cell < last implies cell_samples(before, cell)
                == #[trigger] cell_samples(samples, cell) by {}
            if display_value(samples, threshold) is Some {
                assert forall|cell: int| 0 <= cell < samples.len() / 7 implies segment_digit(
                    binarize(#[trigger] cell_samples(samples, cell), threshold),
                ) is Some by {
                    if cell < last {
                        assert(cell_samples(before, cell) == cell_samples(samples, cell));
                    }
                }
            } else if display_value(before, threshold) is None {
                let bad = choose|cell: int|
                    0 <= cell < before.len() / 7 && !(segment_digit(
                        binarize(#[trigger] cell_samples(before, cell), threshold),
                    ) is Some);
                assert(cell_samples(before, bad) == cell_samples(samples, bad));
            }
        } else {
            assert(samples.skip(start).len() < 7);
        }
    }
}

/// Ten to the power `n`.
pub open spec fn pow10(n: nat) -> nat
    decreases n,
{
    if n == 0 {
        1
    } else {
        10 * pow10((n - 1) as nat)
    }
}

/// A number that is read has as many digits as there are cells.
pub proof fn lemma_display_value_bound(samples: Seq<i64>, threshold: int)
    ensures
        display_value(samples, threshold) matches Some(v) ==> samples.len() % 7 == 0 && 0 <= v
            < pow10(samples.len() / 7),
    decreases samples.len(),
{
    if samples.len() > 0 {
        let start = last_cell_start(samples.len());
        lemma_display_value_bound(samples.take(start), threshold);
        if display_value(samples, threshold) is Some {
            assert(samples.skip(start).len() == 7);
            assert(samples.take(start).len() / 7 == samples.len() / 7 - 1);
        }
    }
}

/// Where the samples show a number, so do the cells before any cell
/// boundary.
pub proof fn lemma_display_value_prefix(samples: Seq<i64>, threshold: int, boundary: int)
    requires
        0 <= boundary <= samples.len(),
        boundary % 7 == 0,
        display_value(samples, threshold) is Some,
    ensures
        display_value(samples.take(boundary), threshold) is Some,
    decreases samples.len(),
{
    if boundary == samples.len() {
        assert(samples.take(boundary) == samples);
    } else {
        let start = last_cell_start(samples.len());
        assert(boundary <= start);
        lemma_display_value_prefix(samples.take(start), threshold, boundary);
        assert(samples.take(start).take(boundary) == samples.take(boundary));
    }
}

/// Taking one more cell: the number read so far moves up one decimal place
/// and the digit of the cell is added.
pub proof fn lemma_display_value_step(samples: Seq<i64>, threshold: int, start: int)
    requires
        0 <= start,
        start % 7 == 0,
        start + 7 <= samples.len(),
    ensures
        display_value(samples.take(start + 7), threshold) == match (
            display_value(samples.take(start), threshold),
            segment_digit(binarize(samples.subrange(start, start + 7), threshold)),
        ) {
            (Some(high), Some(digit)) => Some(10 * high + digit),
            _ => None,
        },
{
    let upto = samples.take(start + 7);
    assert(last_cell_start(upto.len()) == start);
    assert(upto.take(start) == samples.take(start));
    assert(upto.skip(start) == samples.subrange(start, start + 7));
}

/// Powers of ten up to the eighteenth fit in an `i64`.
pub proof fn lemma_pow10_bounds(n: nat)
    requires
        n <= MAX_DIGITS,
    ensures
        pow10(n) <= 1_000_000_000_000_000_000,
    decreases MAX_DIGITS - n,
{
    if n < MAX_DIGITS {
        lemma_pow10_bounds(n + 1);
    } else {
        reveal_with_fuel(pow10, 19);
    }
}

/// Reads the cell that begins at `start`.
fn read_cell(samples: &[i64], start: usize, threshold: i64) -> (digit: Option<i32>)
    requires
        start + 7 <= samples.len(),
    ensures
        match digit {
            Some(d) => segment_digit(
                binarize(samples@.subrange(start as int, start + 7), threshold as int),
            ) == Some(d as int) && 0 <= d <= 9,
            None => segment_digit(
                binarize(samples@.subrange(start as int, start + 7), threshold as int),
            ) is None,
        },
{
    let bits: [bool; 7] = [
        samples[start] > threshold,
        samples[start + 1] > threshold,
        samples[start + 2] > threshold,
        samples[start + 3] > threshold,
        samples[start + 4] > threshold,
        samples[start + 5] > threshold,
        samples[start + 6] > threshold,
    ];
    assert(binarize(samples@.subrange(start as int, start + 7), threshold as int) == bits@);
    seven_segment_to_number(bits.as_slice())
}

/// Reads the samples at one threshold. There may be samples for at most
/// [`MAX_DIGITS`] cells, so that the number fits.
pub fn read_digits(samples: &[i64], threshold: i64) -> (number: Option<i64>)
    requires
        samples.len() <= CELL * MAX_DIGITS,
    ensures
        match number {
            Some(n) => display_value(samples@, threshold as int) == Some(n as int),
            None => display_value(samples@, threshold as int) is None,
        },
{
    let mut number: i64 = 0;
    let mut start: usize = 0;
    while start < samples.len()
        invariant
            samples.len() <= 126,
            start <= samples.len(),
            start % 7 == 0,
            0 <= number < pow10((start / 7) as nat),
            display_value(samples@.take(start as int), threshold as int) == Some(number as int),
        decreases samples.len() - start,
    {
        if samples.len() - start < CELL {
            proof {
                lemma_display_value_bound(samples@, threshold as int);
            }
            return None;
        }
        let digit = read_cell(samples, start, threshold);
        proof {
            lemma_display_value_step(samples@, threshold as int, start as int);
            lemma_pow10_bounds((start / 7 + 1) as nat);
        }
        match digit {
            None => {
                proof {
                    if display_value(samples@, threshold as int) is Some {
                        lemma_display_value_prefix(samples@, threshold as int, start + 7);
                    }
                }
                return None;
            },
            Some(d) => {
                number = number * 10 + d as i64;
                start = start + CELL;
            },
        }
    }
    assert(samples@.take(start as int) == samples@);
    Some(number)
}

/// The size of the `k`-th adjustment of the threshold: each is one and a
/// half times the one before it.
pub open spec fn step_size(k: nat) -> int
    decreases k,
{
    if k == 0 {
        FIRST_STEP as int
    } else {
        step_size((k - 1) as nat) * 3 / 2
    }
}

/// The `k`-th adjustment of the threshold: upwards for an even `k`,
/// downwards for an odd one.
pub open spec fn step(k: nat) -> int {
    if k % 2 == 0 {
        step_size(k)
    } else {
        -step_size(k)
    }
}

/// The threshold lies between nothing and full scale.
pub open spec fn in_range(threshold: int) -> bool {
    0 <= threshold <= FULL_SCALE
}

/// The sizes of the steps. Up to the twelfth each is exactly the first one
/// times a power of three halves; the twelfth is the first that is larger
/// than the whole range.
pub proof fn lemma_step_sizes()
    ensures
        step_size(0) == 26_112_000,
        step_size(1) == 39_168_000,
        step_size(2) == 58_752_000,
        step_size(3) == 88_128_000,
        step_size(4) == 132_192_000,
        step_size(5) == 198_288_000,
        step_size(6) == 297_432_000,
        step_size(7) == 446_148_000,
        step_size(8) == 669_222_000,
        step_size(9) == 1_003_833_000,
        step_size(10) == 1_505_749_500,
        step_size(11) == 2_258_624_250,
        step_size(12) == 3_387_936_375,
        4096 * step_size(12) == 531441 * FIRST_STEP,
        step_size(11) <= FULL_SCALE < step_size(12),
{
    reveal_with_fuel(step_size, 13);
}

/// From the twelfth on, a step is larger than the whole range.
pub proof fn lemma_step_leaves_range(k: nat)
    requires
        k >= 12,
    ensures
        step_size(k) > FULL_SCALE,
    decreases k,
{
    if k == 12 {
        lemma_step_sizes();
    } else {
        lemma_step_leaves_range((k - 1) as nat);
    }
}

/// How the search ends when its probe number `k`, counted from 0, is made at
/// `threshold`: the number that was read, if any, and the number of probes
/// made in all.
///
/// A probe that reads a number ends the search. Otherwise the threshold is
/// adjusted by the `k`-th step; the search goes on while the threshold stays
/// in range and ends without a number once it leaves the range.
pub open spec fn search_from(samples: Seq<i64>, threshold: int, k: nat) -> (Option<int>, nat)
    decreases MAX_PROBES - k,
    when k == 0 || in_range(threshold)
    via search_from_decreases
{
    match display_value(samples, threshold) {
        Some(number) => (Some(number), k + 1),
        None => {
            let next = threshold + step(k);
            if in_range(next) {
                search_from(samples, next, k + 1)
            } else {
                (None, k + 1)
            }
        },
    }
}

#[via_fn]
proof fn search_from_decreases(samples: Seq<i64>, threshold: int, k: nat) {
    if k >= 12 {
        lemma_step_leaves_range(k);
    }
}

/// The search probes at least one threshold and at most [`MAX_PROBES`],
/// whatever the samples and wherever it starts.
pub proof fn lemma_search_bounded(samples: Seq<i64>, threshold: int)
    ensures
        1 <= search_from(samples, threshold, 0).1 <= MAX_PROBES,
{
    lemma_search_from_bounded(samples, threshold, 0);
}

/// A search that has come to probe `k` ends after more than `k` probes and
/// at most [`MAX_PROBES`].
pub proof fn lemma_search_from_bounded(samples: Seq<i64>, threshold: int, k: nat)
    requires
        k == 0 || in_range(threshold),
        k < MAX_PROBES,
    ensures
        k < search_from(samples, threshold, k).1 <= MAX_PROBES,
    decreases MAX_PROBES - k,
{
    if display_value(samples, threshold) is None {
        let next = threshold + step(k);
        if in_range(next) {
            if k >= 12 {
                lemma_step_leaves_range(k);
            }
            lemma_search_from_bounded(samples, next, k + 1);
        }
    }
}

/// The threshold of probe number `k`, counted from 0, of a search that
/// starts at `start`: the start and the first `k` steps.
pub open spec fn probe(start: int, k: nat) -> int
    decreases k,
{
    if k == 0 {
        start
    } else {
        probe(start, (k - 1) as nat) + step((k - 1) as nat)
    }
}

/// What a search does, probe by probe. Every probe before the last one read
/// no number, and every probe after the first was made in range. The search
/// ends with what its last probe read; where that is no number, the next
/// threshold would have been out of range.
pub proof fn lemma_search_probes(samples: Seq<i64>, start: int)
    ensures
        ({
            let (number, probes) = search_from(samples, start, 0);
            &&& 1 <= probes <= MAX_PROBES
            &&& forall|j: nat|
                j + 1 < probes ==> display_value(samples, #[trigger] probe(start, j)) is None
            &&& forall|j: nat| 1 <= j < probes ==> in_range(#[trigger] probe(start, j))
            &&& number == display_value(samples, probe(start, (probes - 1) as nat))
            &&& number is None ==> !in_range(probe(start, probes))
        }),
{
    lemma_search_probes_from(samples, start, 0);
}

/// What a search does from probe number `k` on, given the probes before it.
proof fn lemma_search_probes_from(samples: Seq<i64>, start: int, k: nat)
    requires
        k < MAX_PROBES,
        forall|j: nat| j < k ==> display_value(samples, #[trigger] probe(start, j)) is None,
        forall|j: nat| 1 <= j <= k ==> in_range(#[trigger] probe(start, j)),
    ensures
        ({
            let (number, probes) = search_from(samples, probe(start, k), k);
            &&& k < probes <= MAX_PROBES
            &&& forall|j: nat|
                j + 1 < probes ==> display_value(samples, #[trigger] probe(start, j)) is None
            &&& forall|j: nat| 1 <= j < probes ==> in_range(#[trigger] probe(start, j))
            &&& number == display_value(samples, probe(start, (probes - 1) as nat))
            &&& number is None ==> !in_range(probe(start, probes))
        }),
    decreases MAX_PROBES - k,
{
    let at = probe(start, k);
    assert(k == 0 || in_range(at));
    if display_value(samples, at) is None {
        let next = at + step(k);
        assert(next == probe(start, k + 1));
        if in_range(next) {
            if k >= 12 {
                lemma_step_leaves_range(k);
            }
            lemma_search_probes_from(samples, start, k + 1);
        }
    }
}

/// The number that a search over at most [`MAX_DIGITS`] cells ends with is
/// not negative and fits in an `i64`, so `reading` keeps it as it is.
pub proof fn lemma_search_value_fits(samples: Seq<i64>, start: int)
    requires
        samples.len() <= CELL * MAX_DIGITS,
    ensures
        search_from(samples, start, 0).0 matches Some(number) ==> 0 <= number
            < 1_000_000_000_000_000_000 && reading(Some(number)) == DecodedValue::Integer(
            number as i64,
        ) && (number as i64) as int == number,
{
    lemma_search_probes(samples, start);
    let (number, probes) = search_from(samples, start, 0);
    if number is Some {
        lemma_display_value_bound(samples, probe(start, (probes - 1) as nat));
        lemma_pow10_bounds(samples.len() / 7);
    }
}

/// Equal samples searched from the same threshold end alike, after the same
/// number of probes.
pub proof fn lemma_search_deterministic(first: Seq<i64>, second: Seq<i64>, threshold: int)
    requires
        first.len() == second.len(),
        forall|i: int| 0 <= i < first.len() ==> first[i] == second[i],
    ensures
        search_from(first, threshold, 0) == search_from(second, threshold, 0),
{
    assert(first =~= second);
}

/// The value that a search ends with.
pub open spec fn reading(number: Option<int>) -> DecodedValue {
    match number {
        Some(n) => DecodedValue::Integer(n as i64),
        None => DecodedValue::Absent,
    }
}

/// How a search ended.
#[derive(Clone, Copy, Debug, PartialEq, Eq, Structural)]
pub struct Search {
    /// The number that was read, or `Absent`.
    pub value: DecodedValue,
    /// The number of thresholds that were probed.
    pub probes: usize,
}

/// Reads a row of digits, searching for a threshold at which every cell
/// shows a known glyph.
///
/// The first probe is made at `threshold`. After a probe that reads no
/// number the threshold moves by a hundredth of full scale, then back past
/// the start by one and a half times as much, and so on, each step
/// in the other direction and half as large again. The first probe that
/// reads a number ends the search with it; the search ends with `Absent` as
/// soon as the threshold has left the range from nothing to full scale.
///
/// There may be samples for at most [`MAX_DIGITS`] cells, so that the number
/// fits.
pub fn adaptive_search(samples: &[i64], threshold: i64) -> (found: Search)
    requires
        samples.len() <= CELL * MAX_DIGITS,
    ensures
        found.value == reading(search_from(samples@, threshold as int, 0).0),
        found.probes == search_from(samples@, threshold as int, 0).1,
        1 <= found.probes <= MAX_PROBES,
        found.value matches DecodedValue::Integer(n) ==> search_from(
            samples@,
            threshold as int,
            0,
        ).0 == Some(n as int),
{
    let mut at: i64 = threshold;
    let mut size: i64 = FIRST_STEP;
    let mut k: usize = 0;
    proof {
        lemma_search_bounded(samples@, threshold as int);
    }
    loop
        invariant
            samples.len() <= CELL * MAX_DIGITS,
            k < MAX_PROBES,
            k == 0 || in_range(at as int),
            size == step_size(k as nat),
            search_from(samples@, at as int, k as nat) == search_from(
                samples@,
                threshold as int,
                0,
            ),
            1 <= search_from(samples@, threshold as int, 0).1 <= MAX_PROBES,
        decreases MAX_PROBES - k,
    {
        if let Some(number) = read_digits(samples, at) {
            return Search { value: DecodedValue::Integer(number), probes: k + 1 };
        }
        proof {
            lemma_step_sizes();
            if k >= 12 {
                lemma_step_leaves_range(k as nat);
            } else {
                lemma_step_size_fits(k as nat);
            }
        }
        let next: i128 = if k % 2 == 0 {
            at as i128 + size as i128
        } else {
            at as i128 - size as i128
        };
        if next < 0 || next > FULL_SCALE as i128 {
            return Search { value: DecodedValue::Absent, probes: k + 1 };
        }
        at = next as i64;
        size = size * 3 / 2;
        k = k + 1;
    }
}

/// Up to the twelfth, a step and the one after it fit in 32 bits.
pub proof fn lemma_step_size_fits(k: nat)
    requires
        k <= 12,
    ensures
        0 < step_size(k) <= 3_387_936_375,
    decreases 12 - k,
{
    lemma_step_sizes();
    if k < 12 {
        lemma_step_size_fits(k + 1);
    }
}

impl MarkerType {
    /// The value that the samples of a marker of this shape decode to.
    ///
    /// A lamp is lit where its first sample is above the threshold; with no
    /// sample it is absent. A row of digits is read by the search.
    pub open spec fn decoded(self, samples: Seq<i64>, threshold: int) -> DecodedValue {
        match self {
            MarkerType::Point { .. } => if samples.len() == 0 {
                DecodedValue::Absent
            } else {
                DecodedValue::Boolean(samples[0] > threshold)
            },
            MarkerType::SevenSegment { .. } => reading(search_from(samples, threshold, 0).0),
        }
    }

    /// Decodes the samples of the marker, which stand in the order of its
    /// sample points. A row may come with samples for at most
    /// [`MAX_DIGITS`] cells.
    pub fn value(&self, samples: &[i64], threshold: i64) -> (value: DecodedValue)
        requires
            self is SevenSegment ==> samples.len() <= CELL * MAX_DIGITS,
        ensures
            value == self.decoded(samples@, threshold as int),
            value matches DecodedValue::Integer(n) ==> search_from(samples@, threshold as int, 0).0
                == Some(n as int),
    {
        match self {
            MarkerType::Point { .. } => {
                if samples.len() == 0 {
                    DecodedValue::Absent
                } else {
                    DecodedValue::Boolean(samples[0] > threshold)
                }
            },
            MarkerType::SevenSegment { .. } => adaptive_search(samples, threshold).value,
        }
    }
}

/// Raising one sample of a lamp never turns a lit lamp dark.
pub proof fn lemma_point_monotonic(
    shape: MarkerType,
    samples: Seq<i64>,
    index: int,
    raised: i64,
    threshold: int,
)
    requires
        shape is Point,
        0 <= index < samples.len(),
        samples[index] <= raised,
    ensures
        shape.decoded(samples, threshold) == DecodedValue::Boolean(true) ==> shape.decoded(
            samples.update(index, raised),
            threshold,
        ) == DecodedValue::Boolean(true),
{
}

} // verus!
