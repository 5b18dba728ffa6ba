//! The scan axis of a Bruker RAW buffer: where the header records the origin
//! and the step of the two-theta scan.
//!
//! The header is searched near every place that records the number of points.
//! A pair of adjacent double-precision values is accepted when it describes a
//! physically possible scan, and the accepted pairs are scored. Sums and
//! products of angles are formed exactly, in units of 2^-72 degree.
use crate::bytes::{in_bounds, le_u32, le_u64, read_f64_le, read_u32_le};
use crate::ieee::{
    f64_abs, f64_finite, f64_is_finite, f64_key, f64_magnitude, f64_negative, f64_units,
    f64_units_of_magnitude, lemma_f64_units_compare, pow2_u64, F64_SIGN,
};
use vstd::arithmetic::div_mod::{lemma_fundamental_div_mod, lemma_mod_bound};
use vstd::arithmetic::power2::{
    lemma2_to64, lemma2_to64_rest, lemma_pow2_adds, lemma_pow2_pos, lemma_pow2_strictly_increases,
    pow2,
};
use vstd::prelude::*;

verus! {

/// Pattern of the nearest double to 1e-6: a step must exceed it.
pub const STEP_ABOVE: u64 = 0x3eb0_c6f7_a0b5_ed8d;

/// Pattern of 10.0, the largest step.
pub const STEP_MAX: u64 = 0x4024_0000_0000_0000;

/// Pattern of 180.0: a scan starts at -180 degrees or above, and an origin from
/// 0 to 180 degrees earns a bonus.
pub const DEGREES_180: u64 = 0x4066_8000_0000_0000;

/// Pattern of 360.0, where a scan ends at the latest.
pub const DEGREES_360: u64 = 0x4076_8000_0000_0000;

/// Pattern of the nearest double to 1e-4, the smallest step that earns a bonus.
pub const FINE_STEP_MIN: u64 = 0x3f1a_36e2_eb1c_432d;

/// Pattern of 0.5, the largest step that earns a bonus.
pub const FINE_STEP_MAX: u64 = 0x3fe0_0000_0000_0000;

/// One degree in units of 2^-72 degree.
pub const DEGREE: u128 = 0x1_00_0000_0000_0000_0000;

/// Bonus, in degrees, for an origin from 0 to 180 degrees.
pub const ORIGIN_BONUS: u128 = 50;

/// Bonus, in degrees, for a step from 1e-4 to 0.5 degree.
pub const STEP_BONUS: u128 = 25;

/// Longest span, in degrees, that counts towards the score.
pub const SPAN_CAP: u128 = 360;

/// A step lies above 1e-6 and does not exceed 10 degrees.
pub open spec fn step_in_range(step: u64) -> bool {
    STEP_ABOVE < step <= STEP_MAX
}

/// The value of a double-precision magnitude of at least 2^-20, in units of
/// 2^-72: every such value is a whole number of these units.
pub open spec fn f64_fixed(magnitude: int) -> int {
    let e = magnitude / 0x10_0000_0000_0000;
    let f = magnitude % 0x10_0000_0000_0000;
    (0x10_0000_0000_0000 + f) * pow2((e - 1003) as nat)
}

/// The value of a finite double-precision pattern in units of 2^-72, rounded
/// up to a whole number of units where it is not one.
pub open spec fn f64_fixed_ceiling(bits: u64) -> int {
    let magnitude = f64_magnitude(bits);
    let e = magnitude / 0x10_0000_0000_0000;
    let f = magnitude % 0x10_0000_0000_0000;
    if e >= 1003 {
        if f64_negative(bits) {
            -f64_fixed(magnitude)
        } else {
            f64_fixed(magnitude)
        }
    } else {
        let m = if e == 0 {
            f
        } else {
            0x10_0000_0000_0000 + f
        };
        let d = pow2(
            (1003 - if e == 0 {
                1
            } else {
                e
            }) as nat,
        ) as int;
        if f64_negative(bits) {
            -(m / d)
        } else {
            (m + d - 1) / d
        }
    }
}

/// Number of steps from the first point of a scan to the last.
pub open spec fn steps_of(count: u32) -> int {
    if count > 1 {
        count - 1
    } else {
        0
    }
}

/// The span of a scan, `step * (count - 1)`, in units of 2^-72 degree.
pub open spec fn span_fixed(step: u64, count: u32) -> int {
    f64_fixed(step as int) * steps_of(count)
}

/// A pair of origin and step describes a possible scan of `count` points: both
/// are finite, the step lies above 1e-6 and is at most 10, the origin is at
/// least -180, and the last point, `start + step * (count - 1)`, is at most
/// 360. With a whole number of units on the right, the origin may be rounded up
/// to one without changing the comparison.
pub open spec fn start_step_valid(start: u64, step: u64, count: u32) -> bool {
    &&& f64_is_finite(start)
    &&& step_in_range(step)
    &&& f64_key(start) >= -DEGREES_180
    &&& f64_fixed_ceiling(start) + span_fixed(step, count) <= SPAN_CAP * DEGREE
}

/// The origin lies from 0 to 180 degrees.
pub open spec fn origin_preferred(start: u64) -> bool {
    0 <= f64_key(start) <= DEGREES_180
}

/// The step lies from 1e-4 to 0.5 degree.
pub open spec fn step_preferred(step: u64) -> bool {
    FINE_STEP_MIN <= step <= FINE_STEP_MAX
}

/// The score of a valid pair, in units of 2^-72: the span, capped at 360
/// degrees, plus 50 degrees for a preferred origin, plus 25 for a preferred
/// step.
pub open spec fn axis_score(start: u64, step: u64, count: u32) -> int {
    let span = span_fixed(step, count);
    let capped = if span < SPAN_CAP * DEGREE {
        span
    } else {
        SPAN_CAP * DEGREE
    };
    capped + if origin_preferred(start) {
        ORIGIN_BONUS * DEGREE
    } else {
        0
    } + if step_preferred(step) {
        STEP_BONUS * DEGREE
    } else {
        0
    }
}

/// The value of a step in units of 2^-72.
fn step_fixed(step: u64) -> (r: u128)
    requires
        step_in_range(step),
    ensures
        r == f64_fixed(step as int),
        0 < r < 0x2000_0000_0000_0000_0000,
{
    let e: u64 = step / 0x10_0000_0000_0000;
    let f: u64 = step % 0x10_0000_0000_0000;
    let shift: u32 = (e - 1003) as u32;
    let p: u64 = pow2_u64(shift);
    proof {
        lemma2_to64();
        lemma_pow2_strictly_increases(shift as nat, 24);
        assert((0x10_0000_0000_0000 + f) * p < 0x20_0000_0000_0000 * 0x100_0000)
            by (nonlinear_arith)
            requires
                0 <= f < 0x10_0000_0000_0000,
                1 <= p < 0x100_0000,
        ;
        assert((0x10_0000_0000_0000 + f) * p > 0) by (nonlinear_arith)
            requires
                0 <= f,
                1 <= p,
        ;
    }
    (0x10_0000_0000_0000 + f) as u128 * (p as u128)
}

/// The span of a scan in units of 2^-72 degree.
fn span_fixed_of(step: u64, count: u32) -> (r: u128)
    requires
        step_in_range(step),
    ensures
        r == span_fixed(step, count),
        r < 0x2000_0000_0000_0000_0000_0000_0000,
{
    let unit: u128 = step_fixed(step);
    let steps: u128 = if count > 1 {
        (count - 1) as u128
    } else {
        0
    };
    assert(unit * steps < 0x2000_0000_0000_0000_0000 * 0x1_0000_0000) by (nonlinear_arith)
        requires
            0 <= unit < 0x2000_0000_0000_0000_0000,
            0 <= steps < 0x1_0000_0000,
    ;
    unit * steps
}

/// The value of an origin in units of 2^-72 degree, rounded up.
fn origin_fixed_ceiling(start: u64) -> (r: i128)
    requires
        f64_magnitude(start) <= DEGREES_360,
    ensures
        r == f64_fixed_ceiling(start),
        -0x200_0000_0000_0000_0000_0000 < r < 0x200_0000_0000_0000_0000_0000,
{
    let negative: bool = start >= F64_SIGN;
    let magnitude: u64 = f64_abs(start);
    let e: u64 = magnitude / 0x10_0000_0000_0000;
    let f: u64 = magnitude % 0x10_0000_0000_0000;
    proof {
        lemma2_to64();
        lemma2_to64_rest();
    }
    if e >= 1003 {
        let shift: u32 = (e - 1003) as u32;
        let p: u64 = pow2_u64(shift);
        proof {
            lemma_pow2_strictly_increases(shift as nat, 29);
            assert((0x10_0000_0000_0000 + f) * p < 0x20_0000_0000_0000 * 0x2000_0000)
                by (nonlinear_arith)
                requires
                    0 <= f < 0x10_0000_0000_0000,
                    1 <= p < 0x2000_0000,
            ;
        }
        let units: i128 = ((0x10_0000_0000_0000 + f) as u128 * (p as u128)) as i128;
        if negative {
            -units
        } else {
            units
        }
    } else {
        let m: u64 = if e == 0 {
            f
        } else {
            0x10_0000_0000_0000 + f
        };
        let shift: u64 = 1003 - if e == 0 {
            1
        } else {
            e
        };
        if shift >= 53 {
            proof {
                if shift > 53 {
                    lemma_pow2_strictly_increases(53, shift as nat);
                }
                let d = pow2(shift as nat) as int;
                assert(d >= 0x20_0000_0000_0000);
                assert(m as int / d == 0) by (nonlinear_arith)
                    requires
                        0 <= m as int,
                        (m as int) < d,
                ;
                if m > 0 {
                    assert((m as int + d - 1) / d == 1) by (nonlinear_arith)
                        requires
                            0 < m as int,
                            (m as int) < d,
                    ;
                } else {
                    assert((m as int + d - 1) / d == 0) by (nonlinear_arith)
                        requires
                            m as int == 0,
                            d > 0,
                    ;
                }
            }
            if negative || m == 0 {
                0
            } else {
                1
            }
        } else {
            let d: u64 = pow2_u64(shift as u32);
            proof {
                lemma_pow2_strictly_increases(shift as nat, 53);
                assert(0 <= (m as int) / (d as int) <= m as int) by (nonlinear_arith)
                    requires
                        0 <= m as int,
                        1 <= d as int,
                ;
                assert(0 <= (m as int + d as int - 1) / (d as int) <= m as int + d as int - 1)
                    by (nonlinear_arith)
                    requires
                        0 <= m as int,
                        1 <= d as int,
                ;
            }
            if negative {
                -((m / d) as i128)
            } else {
                ((m + d - 1) / d) as i128
            }
        }
    }
}

/// Tells whether a pair of origin and step describes a possible scan of
/// `count` points.
pub fn bruker_start_step_valid(start: u64, step: u64, count: u32) -> (r: bool)
    ensures
        r == start_step_valid(start, step, count),
{
    if !f64_finite(start) || step <= STEP_ABOVE || step > STEP_MAX {
        return false;
    }
    let negative: bool = start >= F64_SIGN;
    let magnitude: u64 = f64_abs(start);
    if negative && magnitude > DEGREES_180 {
        return false;
    }
    let span: u128 = span_fixed_of(step, count);
    if magnitude > DEGREES_360 {
        proof {
            lemma_origin_beyond_end(start);
        }
        return false;
    }
    let origin: i128 = origin_fixed_ceiling(start);
    origin + span as i128 <= (SPAN_CAP * DEGREE) as i128
}

/// An origin above 360 degrees is more than 360 degrees in units of 2^-72.
proof fn lemma_origin_beyond_end(start: u64)
    requires
        f64_is_finite(start),
        !f64_negative(start),
        f64_magnitude(start) > DEGREES_360,
    ensures
        f64_fixed_ceiling(start) > SPAN_CAP * DEGREE,
{
    let magnitude = f64_magnitude(start);
    let e = magnitude / 0x10_0000_0000_0000;
    let f = magnitude % 0x10_0000_0000_0000;
    lemma2_to64();
    assert(e >= 1031);
    assert(f64_fixed_ceiling(start) == (0x10_0000_0000_0000 + f) * pow2((e - 1003) as nat));
    assert(SPAN_CAP * DEGREE == 0x168_00_0000_0000_0000_0000);
    if e == 1031 {
        assert(f > 0x6_8000_0000_0000);
        assert(pow2(28) == 0x1000_0000);
        assert((0x10_0000_0000_0000 + f) * 0x1000_0000 > 0x168_00_0000_0000_0000_0000);
    } else {
        if e > 1032 {
            lemma_pow2_strictly_increases(29, (e - 1003) as nat);
        }
        assert((0x10_0000_0000_0000 + f) * pow2((e - 1003) as nat) >= 0x10_0000_0000_0000
            * 0x2000_0000) by (nonlinear_arith)
            requires
                f >= 0,
                pow2((e - 1003) as nat) >= 0x2000_0000,
        ;
    }
}

/// Scores a valid pair of origin and step.
pub fn score_bruker_start_step(start: u64, step: u64, count: u32) -> (r: u128)
    requires
        step_in_range(step),
    ensures
        r == axis_score(start, step, count),
{
    let span: u128 = span_fixed_of(step, count);
    let mut score: u128 = if span < SPAN_CAP * DEGREE {
        span
    } else {
        SPAN_CAP * DEGREE
    };
    if start <= DEGREES_180 || start == F64_SIGN {
        score = score + ORIGIN_BONUS * DEGREE;
    }
    if FINE_STEP_MIN <= step && step <= FINE_STEP_MAX {
        score = score + STEP_BONUS * DEGREE;
    }
    score
}

/// `offset` is a place where the header may record the number of points: a
/// word equal to `count` that starts at or before `search_end`. Nothing is
/// searched when `search_end` is below 4.
pub open spec fn is_count_offset(buf: Seq<u8>, count: u32, search_end: int, offset: int) -> bool {
    &&& search_end >= 4
    &&& offset <= search_end
    &&& in_bounds(buf.len() as int, offset, 4)
    &&& le_u32(buf, offset) == count
}

/// The count offsets below `n`, in ascending order.
pub open spec fn count_offsets_below(buf: Seq<u8>, count: u32, search_end: int, n: int) -> Seq<
    usize,
>
    decreases n,
{
    if n <= 0 {
        Seq::empty()
    } else if is_count_offset(buf, count, search_end, n - 1) {
        count_offsets_below(buf, count, search_end, n - 1).push((n - 1) as usize)
    } else {
        count_offsets_below(buf, count, search_end, n - 1)
    }
}

/// All count offsets of a buffer, in ascending order.
pub open spec fn count_offsets(buf: Seq<u8>, count: u32, search_end: int) -> Seq<usize> {
    count_offsets_below(buf, count, search_end, buf.len() as int)
}

/// Collects the offsets at or before `search_end` whose word equals `count`.
pub fn find_bruker_count_offsets(buf: &[u8], count: u32, search_end: usize) -> (r: Vec<usize>)
    ensures
        r@ == count_offsets(buf@, count, search_end as int),
{
    let len: usize = buf.len();
    let mut offsets: Vec<usize> = Vec::new();
    let mut offset: usize = 0;
    while offset < len
        invariant
            len == buf@.len(),
            offset <= len,
            offsets@ == count_offsets_below(buf@, count, search_end as int, offset as int),
        decreases len - offset,
    {
        if search_end >= 4 && offset <= search_end {
            match read_u32_le(buf, offset) {
                Some(v) => {
                    if v == count {
                        offsets.push(offset);
                    }
                },
                None => {},
            }
        }
        offset = offset + 1;
    }
    offsets
}

/// The list of count offsets holds every count offset below `n`, and nothing
/// else.
pub proof fn lemma_count_offsets_complete(buf: Seq<u8>, count: u32, search_end: int, n: int)
    requires
        0 <= n <= usize::MAX,
    ensures
        forall|offset: usize|
            offset < n && is_count_offset(buf, count, search_end, offset as int)
                ==> count_offsets_below(buf, count, search_end, n).contains(offset),
        forall|i: int|
            0 <= i < count_offsets_below(buf, count, search_end, n).len() ==> {
                &&& #[trigger] count_offsets_below(buf, count, search_end, n)[i] < n
                &&& is_count_offset(
                    buf,
                    count,
                    search_end,
                    count_offsets_below(buf, count, search_end, n)[i] as int,
                )
            },
    decreases n,
{
    if n > 0 {
        lemma_count_offsets_complete(buf, count, search_end, n - 1);
        let before = count_offsets_below(buf, count, search_end, n - 1);
        let all = count_offsets_below(buf, count, search_end, n);
        assert forall|offset: usize|
            offset < n && is_count_offset(buf, count, search_end, offset as int) implies all.contains(
            offset,
        ) by {
            if offset == n - 1 {
                assert(all[all.len() - 1] == offset);
            } else {
                assert(before.contains(offset));
                let i = choose|i: int| 0 <= i < before.len() && before[i] == offset;
                assert(all[i] == offset);
            }
        }
        assert forall|i: int| 0 <= i < all.len() implies {
            &&& #[trigger] all[i] < n
            &&& is_count_offset(buf, count, search_end, all[i] as int)
        } by {
            if i < before.len() {
                assert(all[i] == before[i]);
            }
        }
    }
}

/// A pair of origin and step with its score.
#[derive(Debug, Clone, Copy, PartialEq, Eq, Structural)]
pub struct AxisCandidate {
    /// Pattern of the origin of the scan.
    pub start: u64,
    /// Pattern of the step of the scan.
    pub step: u64,
    /// Score in units of 2^-72 degree.
    pub score: u128,
}

/// The scored pair stored at `position`, origin first and step eight bytes
/// later, if both lie inside the buffer and describe a possible scan.
pub open spec fn candidate_at(buf: Seq<u8>, count: u32, position: int) -> Option<AxisCandidate> {
    let start = le_u64(buf, position) as u64;
    let step = le_u64(buf, position + 8) as u64;
    if in_bounds(buf.len() as int, position, 16) && start_step_valid(start, step, count) {
        Some(AxisCandidate { start, step, score: axis_score(start, step, count) as u128 })
    } else {
        None
    }
}

/// The better of the best pair so far and a pair just found: the new one only
/// if it scores strictly higher, so that the first found wins a tie.
pub open spec fn better(best: Option<AxisCandidate>, found: Option<AxisCandidate>) -> Option<
    AxisCandidate,
> {
    match (best, found) {
        (_, None) => best,
        (None, Some(c)) => Some(c),
        (Some(b), Some(c)) => if c.score > b.score {
            Some(c)
        } else {
            Some(b)
        },
    }
}

/// The best pair after the positions from `from` up to `to` have been looked
/// at in ascending order, starting from `best`.
pub open spec fn best_in_window(
    buf: Seq<u8>,
    count: u32,
    best: Option<AxisCandidate>,
    from: int,
    to: int,
) -> Option<AxisCandidate>
    decreases to - from,
{
    if to <= from {
        best
    } else {
        better(best_in_window(buf, count, best, from, to - 1), candidate_at(buf, count, to - 1))
    }
}

/// First position of the window searched before an anchor.
pub open spec fn window_start(anchor: int) -> int {
    if anchor >= 64 {
        anchor - 64
    } else {
        0
    }
}

/// The best pair after one anchor has been searched: first the position 16
/// bytes before it, then the 64 positions before it in ascending order.
pub open spec fn best_at_anchor(
    buf: Seq<u8>,
    count: u32,
    best: Option<AxisCandidate>,
    anchor: int,
) -> Option<AxisCandidate> {
    let exact = if anchor >= 16 {
        better(best, candidate_at(buf, count, anchor - 16))
    } else {
        best
    };
    best_in_window(buf, count, exact, window_start(anchor), anchor)
}

/// The best pair after the first `n` anchors have been searched in order.
pub open spec fn best_over_anchors(
    buf: Seq<u8>,
    count: u32,
    anchors: Seq<usize>,
    n: int,
) -> Option<AxisCandidate>
    decreases n,
{
    if n <= 0 {
        None
    } else {
        best_at_anchor(buf, count, best_over_anchors(buf, count, anchors, n - 1), anchors[n - 1] as int)
    }
}

/// Reads and scores the pair at `position`.
fn read_candidate(buf: &[u8], count: u32, position: usize) -> (r: Option<AxisCandidate>)
    ensures
        r == candidate_at(buf@, count, position as int),
{
    if position > buf.len() || buf.len() - position < 16 {
        return None;
    }
    let start: u64 = match read_f64_le(buf, position) {
        Some(v) => v,
        None => return None,
    };
    let step: u64 = match read_f64_le(buf, position + 8) {
        Some(v) => v,
        None => return None,
    };
    if bruker_start_step_valid(start, step, count) {
        let score: u128 = score_bruker_start_step(start, step, count);
        Some(AxisCandidate { start, step, score })
    } else {
        None
    }
}

/// Keeps the better of two candidates, the first on a tie.
fn keep_better(best: Option<AxisCandidate>, found: Option<AxisCandidate>) -> (r: Option<
    AxisCandidate,
>)
    ensures
        r == better(best, found),
{
    match (best, found) {
        (_, None) => best,
        (None, Some(c)) => Some(c),
        (Some(b), Some(c)) => if c.score > b.score {
            Some(c)
        } else {
            Some(b)
        },
    }
}

/// Searches the neighbourhood of every count offset for the pair of origin and
/// step that scores highest; of equal scores the first found is kept.
pub fn find_bruker_start_step(buf: &[u8], count_offsets: &Vec<usize>, count: u32) -> (r: Option<
    AxisCandidate,
>)
    ensures
        r == best_over_anchors(buf@, count, count_offsets@, count_offsets@.len() as int),
{
    let mut best: Option<AxisCandidate> = None;
    let mut i: usize = 0;
    while i < count_offsets.len()
        invariant
            i <= count_offsets@.len(),
            best == best_over_anchors(buf@, count, count_offsets@, i as int),
        decreases count_offsets@.len() - i,
    {
        let anchor: usize = count_offsets[i];
        if anchor >= 16 {
            best = keep_better(best, read_candidate(buf, count, anchor - 16));
        }
        let from: usize = if anchor >= 64 {
            anchor - 64
        } else {
            0
        };
        let ghost exact = best;
        let mut position: usize = from;
        while position < anchor
            invariant
                from <= position <= anchor,
                from == window_start(anchor as int),
                best == best_in_window(buf@, count, exact, from as int, position as int),
            decreases anchor - position,
        {
            best = keep_better(best, read_candidate(buf, count, position));
            position = position + 1;
        }
        i = i + 1;
    }
    best
}

/// `position` is looked at when `anchor` is searched.
pub open spec fn searched_at(anchor: int, position: int) -> bool {
    (anchor >= 16 && position == anchor - 16) || (window_start(anchor) <= position < anchor)
}

/// `position` is looked at when the first `n` anchors are searched.
pub open spec fn searched(anchors: Seq<usize>, n: int, position: int) -> bool {
    exists|i: int| 0 <= i < n && i < anchors.len() && searched_at(#[trigger] anchors[i] as int, position)
}

/// `best` scores at least as high as `found`.
pub open spec fn at_least(best: Option<AxisCandidate>, found: Option<AxisCandidate>) -> bool {
    found matches Some(c) ==> best matches Some(b) && b.score >= c.score
}

/// The best pair of a window scores at least as high as the pair it started
/// from and as every pair of the window, and it is one of them.
pub proof fn lemma_best_in_window(
    buf: Seq<u8>,
    count: u32,
    best: Option<AxisCandidate>,
    from: int,
    to: int,
)
    ensures
        at_least(best_in_window(buf, count, best, from, to), best),
        forall|p: int|
            from <= p < to ==> at_least(
                best_in_window(buf, count, best, from, to),
                #[trigger] candidate_at(buf, count, p),
            ),
        best_in_window(buf, count, best, from, to) == best || exists|p: int|
            from <= p < to && best_in_window(buf, count, best, from, to) == #[trigger] candidate_at(
                buf,
                count,
                p,
            ),
    decreases to - from,
{
    if to > from {
        lemma_best_in_window(buf, count, best, from, to - 1);
        let before = best_in_window(buf, count, best, from, to - 1);
        let after = best_in_window(buf, count, best, from, to);
        assert(after == better(before, candidate_at(buf, count, to - 1)));
        if after != best {
            if after == before {
                let p = choose|p: int|
                    from <= p < to - 1 && before == #[trigger] candidate_at(buf, count, p);
                assert(after == candidate_at(buf, count, p));
            } else {
                assert(after == candidate_at(buf, count, to - 1));
            }
        }
    }
}

/// The pair that the search selects scores at least as high as every valid
/// pair that is looked at, and it is one of them.
pub proof fn lemma_best_is_highest(buf: Seq<u8>, count: u32, anchors: Seq<usize>, n: int)
    requires
        0 <= n <= anchors.len(),
    ensures
        forall|p: int|
            searched(anchors, n, p) ==> at_least(
                best_over_anchors(buf, count, anchors, n),
                #[trigger] candidate_at(buf, count, p),
            ),
        best_over_anchors(buf, count, anchors, n) is Some ==> exists|p: int|
            searched(anchors, n, p) && best_over_anchors(buf, count, anchors, n)
                == #[trigger] candidate_at(buf, count, p),
    decreases n,
{
    if n > 0 {
        lemma_best_is_highest(buf, count, anchors, n - 1);
        let before = best_over_anchors(buf, count, anchors, n - 1);
        let anchor = anchors[n - 1] as int;
        let exact = if anchor >= 16 {
            better(before, candidate_at(buf, count, anchor - 16))
        } else {
            before
        };
        let after = best_over_anchors(buf, count, anchors, n);
        assert(after == best_in_window(buf, count, exact, window_start(anchor), anchor));
        lemma_best_in_window(buf, count, exact, window_start(anchor), anchor);
        assert forall|p: int| searched(anchors, n, p) implies at_least(
            after,
            #[trigger] candidate_at(buf, count, p),
        ) by {
            let i = choose|i: int|
                0 <= i < n && i < anchors.len() && searched_at(#[trigger] anchors[i] as int, p);
            if i < n - 1 {
                assert(searched(anchors, n - 1, p));
            }
        }
        if after is Some {
            if after == exact {
                if exact == before {
                    let p = choose|p: int|
                        searched(anchors, n - 1, p) && before == #[trigger] candidate_at(
                            buf,
                            count,
                            p,
                        );
                    let i = choose|i: int|
                        0 <= i < n - 1 && i < anchors.len() && searched_at(
                            #[trigger] anchors[i] as int,
                            p,
                        );
                    assert(searched_at(anchors[i] as int, p));
                    assert(searched(anchors, n, p));
                } else {
                    assert(searched_at(anchors[n - 1] as int, anchor - 16));
                    assert(searched(anchors, n, anchor - 16));
                    assert(after == candidate_at(buf, count, anchor - 16));
                }
            } else {
                let p = choose|p: int|
                    window_start(anchor) <= p < anchor && after == #[trigger] candidate_at(
                        buf,
                        count,
                        p,
                    );
                assert(searched_at(anchors[n - 1] as int, p));
                assert(searched(anchors, n, p));
            }
        }
    }
}

/// For whole numbers `x`, `k` and a positive `d`: `x <= k * d` exactly when
/// `x / d`, rounded up, is at most `k`.
proof fn lemma_ceiling_division(x: int, d: int, k: int)
    requires
        x >= 0,
        d > 0,
    ensures
        (x <= k * d) <==> ((x + d - 1) / d <= k),
        (-x <= k * d) <==> (-(x / d) <= k),
{
    let q = x / d;
    let r = x % d;
    lemma_fundamental_div_mod(x, d);
    lemma_mod_bound(x, d);
    let q2 = (x + d - 1) / d;
    let r2 = (x + d - 1) % d;
    lemma_fundamental_div_mod(x + d - 1, d);
    lemma_mod_bound(x + d - 1, d);
    assert((x <= k * d) <==> (q2 <= k)) by (nonlinear_arith)
        requires
            x + d - 1 == d * q2 + r2,
            0 <= r2 < d,
            d > 0,
    ;
    assert((-x <= k * d) <==> (-q <= k)) by (nonlinear_arith)
        requires
            x == d * q + r,
            0 <= r < d,
            d > 0,
    ;
}

/// The fixed-point comparisons are exact. A step in range is a whole number of
/// units of 2^-72, so the span is formed without rounding; and the last point
/// of a scan, `start + step * (count - 1)`, is at most 360 as a number exactly
/// when the origin, rounded up to units of 2^-72, plus the span is at most 360
/// degrees in these units.
pub proof fn lemma_fixed_point_is_exact(start: u64, step: u64, count: u32)
    requires
        f64_is_finite(start),
        step_in_range(step),
    ensures
        f64_units(step) == f64_fixed(step as int) * pow2(1002),
        f64_units(step) * steps_of(count) == span_fixed(step, count) * pow2(1002),
        (f64_fixed_ceiling(start) + span_fixed(step, count) <= SPAN_CAP * DEGREE) <==> (f64_units(
            start,
        ) + f64_units(step) * steps_of(count) <= 360 * pow2(1074)),
{
    let unit = pow2(1002) as int;
    lemma_pow2_pos(1002);
    lemma2_to64();
    lemma_pow2_adds(64, 8);
    lemma_pow2_adds(72, 1002);
    assert(DEGREE == pow2(72));
    let limit = SPAN_CAP * DEGREE;
    assert(360 * pow2(1074) == limit * unit) by (nonlinear_arith)
        requires
            pow2(1074) == DEGREE * unit,
            limit == 360 * DEGREE,
    ;
    // The step.
    let es = step as int / 0x10_0000_0000_0000;
    let fs = step as int % 0x10_0000_0000_0000;
    assert(1003 <= es <= 1026);
    lemma_pow2_adds((es - 1003) as nat, 1002);
    let ms = 0x10_0000_0000_0000 + fs;
    assert(ms * pow2((es - 1) as nat) == (ms * pow2((es - 1003) as nat)) * unit)
        by (nonlinear_arith)
        requires
            pow2((es - 1) as nat) == pow2((es - 1003) as nat) * unit,
    ;
    let span = span_fixed(step, count);
    let steps = steps_of(count);
    assert(f64_units(step) * steps == span * unit) by (nonlinear_arith)
        requires
            f64_units(step) == f64_fixed(step as int) * unit,
            span == f64_fixed(step as int) * steps,
    ;
    // The origin.
    let magnitude = f64_magnitude(start);
    let e = magnitude / 0x10_0000_0000_0000;
    let f = magnitude % 0x10_0000_0000_0000;
    let ceiling = f64_fixed_ceiling(start);
    if e >= 1003 {
        lemma_pow2_adds((e - 1003) as nat, 1002);
        let m = 0x10_0000_0000_0000 + f;
        assert(m * pow2((e - 1) as nat) == (m * pow2((e - 1003) as nat)) * unit)
            by (nonlinear_arith)
            requires
                pow2((e - 1) as nat) == pow2((e - 1003) as nat) * unit,
        ;
        assert(f64_units(start) == ceiling * unit) by (nonlinear_arith)
            requires
                f64_units(start) == if f64_negative(start) {
                    -(f64_fixed(magnitude) * unit)
                } else {
                    f64_fixed(magnitude) * unit
                },
                ceiling == if f64_negative(start) {
                    -f64_fixed(magnitude)
                } else {
                    f64_fixed(magnitude)
                },
        ;
        assert((ceiling + span <= limit) <==> (ceiling * unit + span * unit <= limit * unit))
            by (nonlinear_arith)
            requires
                unit > 0,
        ;
    } else {
        let exponent = if e == 0 {
            1
        } else {
            e
        };
        let m = if e == 0 {
            f
        } else {
            0x10_0000_0000_0000 + f
        };
        let q = pow2((exponent - 1) as nat) as int;
        let d = pow2((1003 - exponent) as nat) as int;
        lemma_pow2_pos((exponent - 1) as nat);
        lemma_pow2_pos((1003 - exponent) as nat);
        lemma_pow2_adds((exponent - 1) as nat, (1003 - exponent) as nat);
        assert(unit == q * d);
        let k = limit - span;
        lemma_ceiling_division(m, d, k);
        if f64_negative(start) {
            assert(f64_units(start) == -(m * q)) by (nonlinear_arith)
                requires
                    f64_units(start) == -(if e == 0 {
                        f
                    } else {
                        (0x10_0000_0000_0000 + f) * q
                    }),
                    e == 0 ==> q == 1,
                    m == if e == 0 {
                        f
                    } else {
                        0x10_0000_0000_0000 + f
                    },
            ;
            assert(ceiling == -(m / d));
            assert((-(m * q) + span * (q * d) <= limit * (q * d)) <==> (-m <= k * d))
                by (nonlinear_arith)
                requires
                    q > 0,
                    k == limit - span,
            ;
        } else {
            assert(f64_units(start) == m * q) by (nonlinear_arith)
                requires
                    f64_units(start) == if e == 0 {
                        f
                    } else {
                        (0x10_0000_0000_0000 + f) * q
                    },
                    e == 0 ==> q == 1,
                    m == if e == 0 {
                        f
                    } else {
                        0x10_0000_0000_0000 + f
                    },
            ;
            assert(ceiling == (m + d - 1) / d);
            assert((m * q + span * (q * d) <= limit * (q * d)) <==> (m <= k * d))
                by (nonlinear_arith)
                requires
                    q > 0,
                    k == limit - span,
            ;
        }
    }
}

/// The values of the bounds, in units of 2^-1074: the patterns of 0.5, 10, 180
/// and 360 stand for these numbers exactly; the pattern `STEP_ABOVE` is the
/// largest double that is not above 1e-6, and the pattern `FINE_STEP_MIN` the
/// smallest that is not below 1e-4.
pub proof fn lemma_bound_values()
    ensures
        f64_units_of_magnitude(STEP_MAX as int) == 10 * pow2(1074),
        f64_units_of_magnitude(DEGREES_180 as int) == 180 * pow2(1074),
        f64_units_of_magnitude(DEGREES_360 as int) == 360 * pow2(1074),
        f64_units_of_magnitude(FINE_STEP_MAX as int) * 2 == pow2(1074),
        f64_units_of_magnitude(STEP_ABOVE as int) * 1_000_000 <= pow2(1074),
        f64_units_of_magnitude(STEP_ABOVE + 1) * 1_000_000 > pow2(1074),
        f64_units_of_magnitude(FINE_STEP_MIN as int) * 10_000 >= pow2(1074),
        f64_units_of_magnitude(FINE_STEP_MIN - 1) * 10_000 < pow2(1074),
{
    lemma2_to64();
    lemma2_to64_rest();
    lemma_pow2_adds(64, 8);
    lemma_pow2_adds(64, 2);
    let one = pow2(1074) as int;
    lemma_pow2_adds(49, 1025);
    lemma_pow2_pos(1025);
    assert(0x14_0000_0000_0000 * pow2(1025) == 10 * (0x2_0000_0000_0000 * pow2(1025)))
        by (nonlinear_arith);
    lemma_pow2_adds(45, 1029);
    assert(0x16_8000_0000_0000 * pow2(1029) == 180 * (0x2000_0000_0000 * pow2(1029)))
        by (nonlinear_arith);
    lemma_pow2_adds(44, 1030);
    assert(0x16_8000_0000_0000 * pow2(1030) == 360 * (0x1000_0000_0000 * pow2(1030)))
        by (nonlinear_arith);
    lemma_pow2_adds(53, 1021);
    assert((0x10_0000_0000_0000 * pow2(1021)) * 2 == 0x20_0000_0000_0000 * pow2(1021))
        by (nonlinear_arith);
    lemma_pow2_adds(72, 1002);
    lemma_pow2_pos(1002);
    let p = pow2(1002) as int;
    assert(pow2(72) == 0x1_00_0000_0000_0000_0000);
    assert((0x10_c6f7_a0b5_ed8d * p) * 1_000_000 <= 0x1_00_0000_0000_0000_0000 * p)
        by (nonlinear_arith)
        requires
            p > 0,
    ;
    assert((0x10_c6f7_a0b5_ed8e * p) * 1_000_000 > 0x1_00_0000_0000_0000_0000 * p)
        by (nonlinear_arith)
        requires
            p > 0,
    ;
    lemma_pow2_adds(66, 1008);
    lemma_pow2_pos(1008);
    let q = pow2(1008) as int;
    assert(pow2(66) == 0x4_0000_0000_0000_0000);
    assert((0x1a_36e2_eb1c_432d * q) * 10_000 >= 0x4_0000_0000_0000_0000 * q)
        by (nonlinear_arith)
        requires
            q > 0,
    ;
    assert((0x1a_36e2_eb1c_432c * q) * 10_000 < 0x4_0000_0000_0000_0000 * q)
        by (nonlinear_arith)
        requires
            q > 0,
    ;
}

/// A pair of origin and step describes a possible scan, said of the numbers
/// that the patterns stand for, with one degree as `2^1074` units: both are
/// finite, the step is above 1e-6 and at most 10, the origin is at least
/// -180, and the last point is at most 360.
pub open spec fn scan_possible(start: u64, step: u64, count: u32) -> bool {
    &&& f64_is_finite(start)
    &&& f64_is_finite(step)
    &&& f64_units(step) * 1_000_000 > pow2(1074)
    &&& f64_units(step) <= 10 * pow2(1074)
    &&& f64_units(start) >= -180 * pow2(1074)
    &&& f64_units(start) + f64_units(step) * steps_of(count) <= 360 * pow2(1074)
}

/// A step is in range exactly when its value is above 1e-6 and at most 10.
pub proof fn lemma_step_range_is_exact(step: u64)
    ensures
        step_in_range(step) <==> (f64_is_finite(step) && f64_units(step) * 1_000_000 > pow2(1074)
            && f64_units(step) <= 10 * pow2(1074)),
        step_preferred(step) <==> (f64_is_finite(step) && f64_units(step) * 10_000 >= pow2(1074)
            && f64_units(step) * 2 <= pow2(1074)),
{
    lemma_bound_values();
    lemma_pow2_pos(1074);
    if f64_is_finite(step) {
        let magnitude = f64_magnitude(step);
        lemma_f64_units_compare(magnitude, STEP_MAX as int);
        lemma_f64_units_compare(magnitude, STEP_ABOVE as int);
        lemma_f64_units_compare(magnitude, STEP_ABOVE + 1);
        lemma_f64_units_compare(magnitude, FINE_STEP_MAX as int);
        lemma_f64_units_compare(magnitude, FINE_STEP_MIN as int);
        lemma_f64_units_compare(magnitude, FINE_STEP_MIN - 1);
    }
}

/// The bounds on the origin are those of its value: at least -180 degrees, and
/// from 0 to 180 degrees for the bonus.
pub proof fn lemma_origin_range_is_exact(start: u64)
    requires
        f64_is_finite(start),
    ensures
        f64_key(start) >= -DEGREES_180 <==> f64_units(start) >= -180 * pow2(1074),
        origin_preferred(start) <==> 0 <= f64_units(start) <= 180 * pow2(1074),
{
    lemma_bound_values();
    lemma_pow2_pos(1074);
    lemma_f64_units_compare(f64_magnitude(start), DEGREES_180 as int);
}

/// Validity is decided exactly: the bit patterns and fixed-point numbers of
/// `start_step_valid` say of the values what `scan_possible` says.
pub proof fn lemma_validity_is_exact(start: u64, step: u64, count: u32)
    ensures
        start_step_valid(start, step, count) <==> scan_possible(start, step, count),
{
    lemma_step_range_is_exact(step);
    if f64_is_finite(start) {
        lemma_origin_range_is_exact(start);
        if step_in_range(step) {
            lemma_fixed_point_is_exact(start, step, count);
        }
    }
}

/// The score said of the numbers that the patterns stand for, in units of
/// 2^-1074: the span `step * (count - 1)`, capped at 360 degrees, plus 50
/// degrees for an origin from 0 to 180 degrees, plus 25 degrees for a step
/// from 1e-4 to 0.5.
pub open spec fn exact_score(start: u64, step: u64, count: u32) -> int {
    let degree = pow2(1074) as int;
    let span = f64_units(step) * steps_of(count);
    (if span < 360 * degree {
        span
    } else {
        360 * degree
    }) + (if 0 <= f64_units(start) <= 180 * degree {
        50 * degree
    } else {
        0
    }) + (if f64_units(step) * 10_000 >= degree && f64_units(step) * 2 <= degree {
        25 * degree
    } else {
        0
    })
}

/// The score is formed exactly: the fixed-point number of `axis_score` is the
/// score of the values.
pub proof fn lemma_score_is_exact(start: u64, step: u64, count: u32)
    requires
        f64_is_finite(start),
        step_in_range(step),
    ensures
        axis_score(start, step, count) * pow2(1002) == exact_score(start, step, count),
{
    lemma_fixed_point_is_exact(start, step, count);
    lemma_step_range_is_exact(step);
    lemma_origin_range_is_exact(start);
    lemma2_to64();
    lemma_pow2_adds(64, 8);
    lemma_pow2_adds(72, 1002);
    lemma_pow2_pos(1002);
    let unit = pow2(1002) as int;
    let span = span_fixed(step, count);
    let degree = DEGREE as int;
    assert(pow2(1074) == degree * unit);
    let capped = if span < SPAN_CAP * DEGREE {
        span
    } else {
        SPAN_CAP * DEGREE
    };
    assert((span < 360 * degree) <==> (span * unit < 360 * (degree * unit))) by (nonlinear_arith)
        requires
            unit > 0,
    ;
    let origin = if origin_preferred(start) {
        ORIGIN_BONUS * DEGREE
    } else {
        0
    };
    let fine = if step_preferred(step) {
        STEP_BONUS * DEGREE
    } else {
        0
    };
    assert((capped + origin + fine) * unit == capped * unit + origin * unit + fine * unit)
        by (nonlinear_arith);
    assert((360 * degree) * unit == 360 * (degree * unit)) by (nonlinear_arith);
    assert((50 * degree) * unit == 50 * (degree * unit)) by (nonlinear_arith);
    assert((25 * degree) * unit == 25 * (degree * unit)) by (nonlinear_arith);
}

/// The score of a pair with a step in range fits the 128 bits in which it is
/// held.
pub proof fn lemma_score_fits(start: u64, step: u64, count: u32)
    requires
        step_in_range(step),
    ensures
        0 <= axis_score(start, step, count) <= 435 * DEGREE,
        axis_score(start, step, count) as u128 == axis_score(start, step, count),
{
    let e = step as int / 0x10_0000_0000_0000;
    let f = step as int % 0x10_0000_0000_0000;
    lemma_pow2_pos((e - 1003) as nat);
    assert((0x10_0000_0000_0000 + f) * pow2((e - 1003) as nat) >= 0) by (nonlinear_arith)
        requires
            f >= 0,
            pow2((e - 1003) as nat) > 0,
    ;
    assert(f64_fixed(step as int) * steps_of(count) >= 0) by (nonlinear_arith)
        requires
            f64_fixed(step as int) >= 0,
            steps_of(count) >= 0,
    ;
}

} // verus!
