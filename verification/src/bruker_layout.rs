//! Where the intensity block of a Bruker RAW buffer lies.
//!
//! The format is undocumented, so the block is inferred: two hypotheses about
//! its layout are anchored at the end of the buffer, and a candidate is kept
//! only if a sample of its values looks like measured intensities.
use crate::bytes::{in_bounds, le_u32, read_f32_le, read_u32_le};
use crate::ieee::{
    f32_abs, f32_gap_below_millionth, f32_gap_is_below_millionth, f32_is_finite, f32_key,
    f32_magnitude, f32_order_key, f32_units, f32_units_of_magnitude, lemma_f32_key_order,
    lemma_f32_units_compare,
};
use vstd::arithmetic::power2::{
    lemma2_to64, lemma2_to64_rest, lemma_pow2_adds, lemma_pow2_pos, pow2,
};
use vstd::prelude::*;

verus! {

/// A fixed-stride block of single-precision intensities inside a buffer.
#[derive(Debug, Clone, Copy, PartialEq, Eq, Structural)]
pub struct BrukerDataLayout {
    /// Number of intensities.
    pub count: u32,
    /// Offset of the first record.
    pub data_offset: usize,
    /// Distance in bytes from one record to the next.
    pub stride: usize,
    /// Offset of the intensity inside its record.
    pub value_offset: usize,
}

/// At most this many values of a block are sampled.
pub const MAX_SAMPLES: u32 = 64;

/// Pattern of 1e9, the largest magnitude an intensity may have.
pub const INTENSITY_LIMIT: u32 = 0x4e6e_6b28;

/// Pattern of the smallest single-precision value that is not below 1e-30.
pub const NEAR_ZERO_LIMIT: u32 = 0x0da2_4260;

/// Pattern that a status word of value one has when read as an intensity.
pub const MARKER: u32 = 1;

/// Number of values sampled from a block of `count` values.
pub open spec fn sample_count(count: int) -> int {
    if count < 64 {
        count
    } else {
        64
    }
}

/// Index of the `s`-th sample: the samples are spread evenly from the first
/// value of the block to the last.
pub open spec fn sample_index(count: int, s: int) -> int {
    let n = sample_count(count);
    if n <= 1 {
        s * (count - 1)
    } else {
        s * (count - 1) / (n - 1)
    }
}

/// Offset of the `i`-th intensity of a layout.
pub open spec fn intensity_offset(layout: BrukerDataLayout, i: int) -> int {
    layout.data_offset + i * layout.stride + layout.value_offset
}

/// Pattern of the `i`-th intensity of a layout.
pub open spec fn intensity_bits(buf: Seq<u8>, layout: BrukerDataLayout, i: int) -> u32 {
    le_u32(buf, intensity_offset(layout, i)) as u32
}

/// The `s`-th sample lies inside the buffer.
pub open spec fn sample_readable(buf: Seq<u8>, layout: BrukerDataLayout, s: int) -> bool {
    in_bounds(buf.len() as int, intensity_offset(layout, sample_index(layout.count as int, s)), 4)
}

/// Pattern of the `s`-th sample.
pub open spec fn sample_bits(buf: Seq<u8>, layout: BrukerDataLayout, s: int) -> u32 {
    intensity_bits(buf, layout, sample_index(layout.count as int, s))
}

/// A finite value of magnitude at most 1e9.
pub open spec fn intensity_like(bits: u32) -> bool {
    f32_magnitude(bits) <= INTENSITY_LIMIT
}

/// Number of marker words among the first `n` samples.
pub open spec fn marker_count(buf: Seq<u8>, layout: BrukerDataLayout, n: int) -> int
    decreases n,
{
    if n <= 0 {
        0
    } else {
        marker_count(buf, layout, n - 1) + if sample_bits(buf, layout, n - 1) == MARKER {
            1int
        } else {
            0int
        }
    }
}

/// Number of values of magnitude below 1e-30 among the first `n` samples.
pub open spec fn near_zero_count(buf: Seq<u8>, layout: BrukerDataLayout, n: int) -> int
    decreases n,
{
    if n <= 0 {
        0
    } else {
        near_zero_count(buf, layout, n - 1) + if f32_magnitude(sample_bits(buf, layout, n - 1))
            < NEAR_ZERO_LIMIT {
            1int
        } else {
            0int
        }
    }
}

/// Order key of the largest of the first `n` samples, `n` at least one.
pub open spec fn max_sample_key(buf: Seq<u8>, layout: BrukerDataLayout, n: int) -> int
    decreases n,
{
    let last = f32_key(sample_bits(buf, layout, n - 1));
    if n <= 1 {
        f32_key(sample_bits(buf, layout, 0))
    } else if max_sample_key(buf, layout, n - 1) >= last {
        max_sample_key(buf, layout, n - 1)
    } else {
        last
    }
}

/// Order key of the smallest of the first `n` samples, `n` at least one.
pub open spec fn min_sample_key(buf: Seq<u8>, layout: BrukerDataLayout, n: int) -> int
    decreases n,
{
    let last = f32_key(sample_bits(buf, layout, n - 1));
    if n <= 1 {
        f32_key(sample_bits(buf, layout, 0))
    } else if min_sample_key(buf, layout, n - 1) <= last {
        min_sample_key(buf, layout, n - 1)
    } else {
        last
    }
}

/// The `s`-th sample lies inside the buffer and looks like an intensity.
pub open spec fn sample_intensity_like(buf: Seq<u8>, layout: BrukerDataLayout, s: int) -> bool {
    sample_readable(buf, layout, s) && intensity_like(sample_bits(buf, layout, s))
}

/// Every one of the first `n` samples lies inside the buffer and looks like an
/// intensity.
pub open spec fn samples_intensity_like(buf: Seq<u8>, layout: BrukerDataLayout, n: int) -> bool {
    forall|s: int| 0 <= s < n ==> #[trigger] sample_intensity_like(buf, layout, s)
}

/// The plausibility filter: the sampled values of the block are finite and of
/// magnitude at most 1e9, at most a quarter of them are marker words, at most a
/// third are below 1e-30 in magnitude, and they span a range of at least one
/// millionth.
pub open spec fn plausible(buf: Seq<u8>, layout: BrukerDataLayout) -> bool {
    let n = sample_count(layout.count as int);
    &&& layout.count > 0
    &&& samples_intensity_like(buf, layout, n)
    &&& marker_count(buf, layout, n) * 4 <= n
    &&& near_zero_count(buf, layout, n) * 3 <= n
    &&& !f32_gap_below_millionth(max_sample_key(buf, layout, n), min_sample_key(buf, layout, n))
}

/// Every intensity of the layout lies inside the buffer.
pub open spec fn layout_within(buf: Seq<u8>, layout: BrukerDataLayout) -> bool {
    forall|i: int|
        0 <= i < layout.count ==> in_bounds(
            buf.len() as int,
            #[trigger] intensity_offset(layout, i),
            4,
        )
}

/// Reads the pattern of the `i`-th intensity of a layout, or `None` when it
/// does not lie inside the buffer.
pub fn read_intensity(buf: &[u8], layout: BrukerDataLayout, i: u32) -> (r: Option<u32>)
    ensures
        r is Some <==> in_bounds(buf@.len() as int, intensity_offset(layout, i as int), 4),
        r matches Some(v) ==> v == intensity_bits(buf@, layout, i as int),
{
    assert(i as int * layout.stride as int <= 0xffff_ffff * 0xffff_ffff_ffff_ffff)
        by (nonlinear_arith)
        requires
            0 <= i as int <= 0xffff_ffff,
            0 <= layout.stride as int <= 0xffff_ffff_ffff_ffff,
    ;
    let step: u128 = (i as u128) * (layout.stride as u128);
    let offset: u128 = layout.data_offset as u128 + step + layout.value_offset as u128;
    if offset > buf.len() as u128 {
        return None;
    }
    read_f32_le(buf, offset as usize)
}

/// Tells whether the sampled values of a candidate block look like measured
/// intensities.
pub fn bruker_data_layout_plausible(buf: &[u8], layout: BrukerDataLayout) -> (r: bool)
    ensures
        r == plausible(buf@, layout),
{
    let count: u32 = layout.count;
    if count == 0 {
        return false;
    }
    let samples: u32 = if count < MAX_SAMPLES {
        count
    } else {
        MAX_SAMPLES
    };
    let divisor: u64 = if samples <= 1 {
        1
    } else {
        (samples - 1) as u64
    };
    let mut marker_like: u32 = 0;
    let mut near_zero: u32 = 0;
    let mut min_key: i64 = 0;
    let mut max_key: i64 = 0;
    let mut s: u32 = 0;
    while s < samples
        invariant
            count == layout.count,
            count > 0,
            samples == sample_count(count as int),
            divisor == if samples <= 1 {
                1int
            } else {
                samples - 1
            },
            0 <= s <= samples,
            samples_intensity_like(buf@, layout, s as int),
            marker_like == marker_count(buf@, layout, s as int),
            near_zero == near_zero_count(buf@, layout, s as int),
            marker_like <= s,
            near_zero <= s,
            s > 0 ==> max_key == max_sample_key(buf@, layout, s as int),
            s > 0 ==> min_key == min_sample_key(buf@, layout, s as int),
            -INTENSITY_LIMIT <= min_key <= max_key <= INTENSITY_LIMIT,
        decreases samples - s,
    {
        assert(0 <= s as int * (count - 1) <= 64 * 0xffff_ffff) by (nonlinear_arith)
            requires
                0 <= s as int <= 64,
                0 <= count - 1 <= 0xffff_ffff,
        ;
        let index: u64 = (s as u64) * ((count - 1) as u64) / divisor;
        assert(index == sample_index(count as int, s as int));
        assert(index <= s as int * (count - 1)) by (nonlinear_arith)
            requires
                index == (s as int * (count - 1)) / (divisor as int),
                divisor >= 1,
                s as int * (count - 1) >= 0,
        ;
        assert(s as int * (count - 1) <= (samples - 1) * (count - 1)) by (nonlinear_arith)
            requires
                s < samples,
                count >= 1,
        ;
        assert(index <= count - 1) by (nonlinear_arith)
            requires
                index == (s as int * (count - 1)) / (divisor as int),
                s as int * (count - 1) <= (samples - 1) * (count - 1),
                divisor == if samples <= 1 {
                    1int
                } else {
                    samples - 1
                },
                samples >= 1,
                count >= 1,
                s < samples,
        ;
        let bits: u32 = match read_intensity(buf, layout, index as u32) {
            Some(v) => v,
            None => {
                assert(!sample_intensity_like(buf@, layout, s as int));
                return false;
            },
        };
        assert(bits == sample_bits(buf@, layout, s as int));
        let magnitude: u32 = f32_abs(bits);
        if magnitude > INTENSITY_LIMIT {
            assert(!sample_intensity_like(buf@, layout, s as int));
            return false;
        }
        if bits == MARKER {
            marker_like = marker_like + 1;
        }
        if magnitude < NEAR_ZERO_LIMIT {
            near_zero = near_zero + 1;
        }
        assert(sample_intensity_like(buf@, layout, s as int));
        let key: i64 = f32_order_key(bits);
        if s == 0 {
            min_key = key;
            max_key = key;
        } else {
            if key < min_key {
                min_key = key;
            }
            if key > max_key {
                max_key = key;
            }
        }
        s = s + 1;
    }
    if marker_like * 4 > samples {
        return false;
    }
    if near_zero * 3 > samples {
        return false;
    }
    !f32_gap_is_below_millionth(max_key, min_key)
}

/// A block in which more than a quarter of the sampled values are marker words
/// is never plausible, whatever else the buffer holds.
pub proof fn lemma_marker_stream_rejected(buf: Seq<u8>, layout: BrukerDataLayout)
    requires
        marker_count(buf, layout, sample_count(layout.count as int)) * 4 > sample_count(
            layout.count as int,
        ),
    ensures
        !plausible(buf, layout),
{
}

/// Smallest and largest count that a count field of the plain hypothesis may
/// announce.
pub const MIN_PLAIN_COUNT: u32 = 10;

pub const MAX_PLAIN_COUNT: u32 = 5_000_000;

/// Fewest records that the interleaved hypothesis accepts.
pub const MIN_RUN: usize = 32;

/// Largest status flag of an interleaved record.
pub const FLAG_MAX: u32 = 3;

/// The plain layout: `count` contiguous values that end where the buffer ends.
pub open spec fn plain_layout(len: int, count: u32) -> BrukerDataLayout {
    BrukerDataLayout { count, data_offset: (len - 4 * count) as usize, stride: 4, value_offset: 0 }
}

/// The word at `offset` announces `count` values, a block of that many values
/// fits as the tail of the buffer strictly after `offset`, and the block is
/// plausible.
pub open spec fn plain_count_at(buf: Seq<u8>, offset: int, count: u32) -> bool {
    &&& in_bounds(buf.len() as int, offset, 4)
    &&& le_u32(buf, offset) == count
    &&& MIN_PLAIN_COUNT <= count <= MAX_PLAIN_COUNT
    &&& 4 * count <= buf.len()
    &&& offset < buf.len() - 4 * count
    &&& plausible(buf, plain_layout(buf.len() as int, count))
}

/// `count` is announced at some offset, and no offset announces more.
pub open spec fn is_largest_plain_count(buf: Seq<u8>, count: u32) -> bool {
    &&& exists|offset: int| plain_count_at(buf, offset, count)
    &&& forall|offset: int, other: u32| #[trigger]
        plain_count_at(buf, offset, other) ==> other <= count
}

/// The block that the plain hypothesis selects: the one of the largest count
/// that any offset announces, or `None` when no offset qualifies.
pub open spec fn plain_block(buf: Seq<u8>) -> Option<BrukerDataLayout> {
    if exists|count: u32| is_largest_plain_count(buf, count) {
        Some(plain_layout(buf.len() as int, choose|count: u32| is_largest_plain_count(buf, count)))
    } else {
        None
    }
}

/// At most one count is the largest announced.
pub proof fn lemma_largest_plain_count_unique(buf: Seq<u8>, a: u32, b: u32)
    requires
        is_largest_plain_count(buf, a),
        is_largest_plain_count(buf, b),
    ensures
        a == b,
{
    let offset_a = choose|offset: int| plain_count_at(buf, offset, a);
    let offset_b = choose|offset: int| plain_count_at(buf, offset, b);
    assert(plain_count_at(buf, offset_a, a));
    assert(plain_count_at(buf, offset_b, b));
}

/// Finds the block of the plain hypothesis: contiguous single-precision values
/// at the tail of the buffer, their number announced by a count field before
/// them.
pub fn find_bruker_plain_f32_tail_block(buf: &[u8]) -> (r: Option<BrukerDataLayout>)
    ensures
        r == plain_block(buf@),
        r matches Some(layout) ==> layout_within(buf@, layout),
{
    let len: usize = buf.len();
    let mut best: Option<BrukerDataLayout> = None;
    let mut offset: usize = 0;
    while offset < len && len - offset >= 4
        invariant
            len == buf@.len(),
            offset <= len,
            best matches Some(layout) ==> layout == plain_layout(len as int, layout.count) && (
            exists|at: int| plain_count_at(buf@, at, layout.count)),
            best matches Some(layout) ==> layout_within(buf@, layout),
            forall|at: int, other: u32|
                at < offset && #[trigger] plain_count_at(buf@, at, other) ==> (best matches Some(
                    layout,
                ) && other <= layout.count),
        decreases len - offset,
    {
        let count: u32 = match read_u32_le(buf, offset) {
            Some(v) => v,
            None => 0,
        };
        let beaten: bool = match best {
            Some(layout) => count > layout.count,
            None => true,
        };
        if beaten && count >= MIN_PLAIN_COUNT && count <= MAX_PLAIN_COUNT {
            let data_len: u64 = (count as u64) * 4;
            if data_len <= len as u64 && (offset as u64) < len as u64 - data_len {
                let layout = BrukerDataLayout {
                    count,
                    data_offset: (len as u64 - data_len) as usize,
                    stride: 4,
                    value_offset: 0,
                };
                if bruker_data_layout_plausible(buf, layout) {
                    assert(plain_count_at(buf@, offset as int, count));
                    assert forall|i: int| 0 <= i < layout.count implies in_bounds(
                        buf@.len() as int,
                        #[trigger] intensity_offset(layout, i),
                        4,
                    ) by {
                        assert(intensity_offset(layout, i) == len - 4 * count + i * 4);
                    }
                    best = Some(layout);
                }
            }
        }
        offset = offset + 1;
    }
    proof {
        match best {
            Some(layout) => {
                assert(is_largest_plain_count(buf@, layout.count));
                let chosen = choose|count: u32| is_largest_plain_count(buf@, count);
                lemma_largest_plain_count_unique(buf@, layout.count, chosen);
            },
            None => {
                assert forall|count: u32| !is_largest_plain_count(buf@, count) by {
                    if is_largest_plain_count(buf@, count) {
                        let at = choose|at: int| plain_count_at(buf@, at, count);
                        assert(plain_count_at(buf@, at, count));
                    }
                }
            },
        }
    }
    best
}

/// The `r`-th record counted back from the end of the buffer lies inside it,
/// its status flag is at most 3 and its value is finite and of magnitude at
/// most 1e9. The value sits `value_offset` bytes into the record, the flag in
/// the other half.
pub open spec fn tail_record_ok(buf: Seq<u8>, value_offset: int, r: int) -> bool {
    let record = buf.len() - (r + 1) * 8;
    &&& record >= 0
    &&& le_u32(buf, record + (4 - value_offset)) <= FLAG_MAX
    &&& intensity_like(le_u32(buf, record + value_offset) as u32)
}

/// The last `n` records are all acceptable and the one before them is not.
pub open spec fn is_tail_run(buf: Seq<u8>, value_offset: int, n: int) -> bool {
    &&& 0 <= n
    &&& forall|r: int| 0 <= r < n ==> #[trigger] tail_record_ok(buf, value_offset, r)
    &&& !tail_record_ok(buf, value_offset, n)
}

/// Number of acceptable records at the end of the buffer.
pub open spec fn tail_run(buf: Seq<u8>, value_offset: int) -> int {
    choose|n: int| is_tail_run(buf, value_offset, n)
}

/// The run of acceptable records has one length only.
pub proof fn lemma_tail_run_unique(buf: Seq<u8>, value_offset: int, n: int)
    requires
        is_tail_run(buf, value_offset, n),
    ensures
        tail_run(buf, value_offset) == n,
{
    let m = tail_run(buf, value_offset);
    assert(is_tail_run(buf, value_offset, m));
    if m < n {
        assert(tail_record_ok(buf, value_offset, m));
    } else if n < m {
        assert(tail_record_ok(buf, value_offset, n));
    }
}

/// The interleaved layout: `run` records of eight bytes that end where the
/// buffer ends.
pub open spec fn interleaved_layout(len: int, run: int, value_offset: int) -> BrukerDataLayout {
    BrukerDataLayout {
        count: run as u32,
        data_offset: (len - 8 * run) as usize,
        stride: 8,
        value_offset: value_offset as usize,
    }
}

/// The candidate of the interleaved hypothesis for one ordering of value and
/// flag: the run of acceptable records, if it has at least 32 of them, its
/// length fits 32 bits, and the block is plausible.
pub open spec fn interleaved_candidate(buf: Seq<u8>, value_offset: int) -> Option<
    BrukerDataLayout,
> {
    let run = tail_run(buf, value_offset);
    let layout = interleaved_layout(buf.len() as int, run, value_offset);
    if MIN_RUN <= run <= u32::MAX && plausible(buf, layout) {
        Some(layout)
    } else {
        None
    }
}

/// Of two candidates the one with more values, the first one on a tie.
pub open spec fn longer_block(
    first: Option<BrukerDataLayout>,
    second: Option<BrukerDataLayout>,
) -> Option<BrukerDataLayout> {
    match (first, second) {
        (Some(a), Some(b)) => if b.count > a.count {
            Some(b)
        } else {
            Some(a)
        },
        (Some(a), None) => Some(a),
        (None, b) => b,
    }
}

/// The block that the interleaved hypothesis selects: the longer of the runs
/// of the two orderings, value before flag on a tie.
pub open spec fn interleaved_block(buf: Seq<u8>) -> Option<BrukerDataLayout> {
    longer_block(interleaved_candidate(buf, 0), interleaved_candidate(buf, 4))
}

/// Counts the acceptable records at the end of the buffer, walking backwards
/// until one is not acceptable.
pub fn tail_run_length(buf: &[u8], value_offset: usize) -> (run: usize)
    requires
        value_offset == 0 || value_offset == 4,
    ensures
        run == tail_run(buf@, value_offset as int),
        is_tail_run(buf@, value_offset as int, run as int),
        run * 8 <= buf@.len(),
{
    let len: usize = buf.len();
    let flag_offset: usize = 4 - value_offset;
    let mut run: usize = 0;
    let mut broken: bool = false;
    while !broken && len - run * 8 >= 8
        invariant
            len == buf@.len(),
            flag_offset == 4 - value_offset,
            value_offset == 0 || value_offset == 4,
            run * 8 <= len,
            forall|r: int| 0 <= r < run ==> #[trigger] tail_record_ok(buf@, value_offset as int, r),
            broken ==> !tail_record_ok(buf@, value_offset as int, run as int),
        decreases len - run * 8 + (if broken { 0int } else { 1int }),
    {
        let record: usize = len - (run + 1) * 8;
        let flag: u32 = match read_u32_le(buf, record + flag_offset) {
            Some(v) => v,
            None => 0,
        };
        let bits: u32 = match read_f32_le(buf, record + value_offset) {
            Some(v) => v,
            None => 0,
        };
        if flag > FLAG_MAX || f32_abs(bits) > INTENSITY_LIMIT {
            broken = true;
        } else {
            assert(tail_record_ok(buf@, value_offset as int, run as int));
            run = run + 1;
        }
    }
    proof {
        lemma_tail_run_unique(buf@, value_offset as int, run as int);
    }
    run
}

/// The candidate of the interleaved hypothesis for one ordering.
fn interleaved_candidate_of(buf: &[u8], value_offset: usize) -> (r: Option<BrukerDataLayout>)
    requires
        value_offset == 0 || value_offset == 4,
    ensures
        r == interleaved_candidate(buf@, value_offset as int),
        r matches Some(layout) ==> layout_within(buf@, layout),
{
    let run: usize = tail_run_length(buf, value_offset);
    if run < MIN_RUN || run > u32::MAX as usize {
        return None;
    }
    let layout = BrukerDataLayout {
        count: run as u32,
        data_offset: buf.len() - run * 8,
        stride: 8,
        value_offset,
    };
    if bruker_data_layout_plausible(buf, layout) {
        Some(layout)
    } else {
        None
    }
}

/// Finds the block of the interleaved hypothesis: records of a value and a
/// status flag at the tail of the buffer, in either order.
pub fn find_bruker_interleaved_tail_block(buf: &[u8]) -> (r: Option<BrukerDataLayout>)
    ensures
        r == interleaved_block(buf@),
        r matches Some(layout) ==> layout_within(buf@, layout),
{
    let first = interleaved_candidate_of(buf, 0);
    let second = interleaved_candidate_of(buf, 4);
    match (first, second) {
        (Some(a), Some(b)) => if b.count > a.count {
            Some(b)
        } else {
            Some(a)
        },
        (Some(a), None) => Some(a),
        (None, b) => b,
    }
}

/// The candidate layouts of a buffer, in the order in which their metadata is
/// searched: the interleaved block, then the plain block.
pub open spec fn candidate_layouts(buf: Seq<u8>) -> Seq<BrukerDataLayout> {
    let interleaved = match interleaved_block(buf) {
        Some(layout) => seq![layout],
        None => Seq::empty(),
    };
    match plain_block(buf) {
        Some(layout) => interleaved.push(layout),
        None => interleaved,
    }
}

/// Finds the candidate layouts of a buffer under both hypotheses.
pub fn find_bruker_data_layout(buf: &[u8]) -> (r: Vec<BrukerDataLayout>)
    ensures
        r@ == candidate_layouts(buf@),
        forall|i: int| 0 <= i < r@.len() ==> layout_within(buf@, #[trigger] r@[i]),
{
    let mut found: Vec<BrukerDataLayout> = Vec::new();
    if let Some(layout) = find_bruker_interleaved_tail_block(buf) {
        found.push(layout);
    }
    if let Some(layout) = find_bruker_plain_f32_tail_block(buf) {
        found.push(layout);
    }
    found
}

/// Every candidate layout has passed the plausibility filter.
pub proof fn lemma_candidates_plausible(buf: Seq<u8>, i: int)
    requires
        0 <= i < candidate_layouts(buf).len(),
    ensures
        plausible(buf, candidate_layouts(buf)[i]),
{
    if plain_block(buf) is Some {
        let count = choose|count: u32| is_largest_plain_count(buf, count);
        let at = choose|at: int| plain_count_at(buf, at, count);
        assert(plain_count_at(buf, at, count));
    }
}

/// The largest and the smallest sample key bound the key, and so the value, of
/// every sample: the range that the filter looks at is the range of the
/// sampled values.
pub proof fn lemma_sample_range(buf: Seq<u8>, layout: BrukerDataLayout, n: int, s: int)
    requires
        0 <= s < n,
        samples_intensity_like(buf, layout, n),
    ensures
        min_sample_key(buf, layout, n) <= f32_key(sample_bits(buf, layout, s)) <= max_sample_key(
            buf,
            layout,
            n,
        ),
        f32_units(min_sample_key(buf, layout, n)) <= f32_units(
            f32_key(sample_bits(buf, layout, s)),
        ) <= f32_units(max_sample_key(buf, layout, n)),
        -INTENSITY_LIMIT <= min_sample_key(buf, layout, n),
        max_sample_key(buf, layout, n) <= INTENSITY_LIMIT,
    decreases n,
{
    assert(sample_intensity_like(buf, layout, n - 1));
    assert(sample_intensity_like(buf, layout, 0));
    assert(sample_intensity_like(buf, layout, s));
    if n > 1 {
        if s < n - 1 {
            lemma_sample_range(buf, layout, n - 1, s);
        } else {
            lemma_sample_range(buf, layout, n - 1, 0);
        }
    }
    lemma_f32_key_order(
        min_sample_key(buf, layout, n),
        f32_key(sample_bits(buf, layout, s)),
    );
    lemma_f32_key_order(
        f32_key(sample_bits(buf, layout, s)),
        max_sample_key(buf, layout, n),
    );
}

/// The bounds of the filter are those of the values, with one as `2^149`
/// units: a pattern is like an intensity exactly when it is finite and of
/// magnitude at most 1e9, and it is below `NEAR_ZERO_LIMIT` exactly when its
/// magnitude is below 1e-30.
pub proof fn lemma_intensity_bounds_are_exact(bits: u32)
    ensures
        intensity_like(bits) <==> (f32_is_finite(bits) && f32_units_of_magnitude(
            f32_magnitude(bits),
        ) <= 1_000_000_000 * pow2(149)),
        f32_is_finite(bits) ==> (f32_magnitude(bits) < NEAR_ZERO_LIMIT <==> f32_units_of_magnitude(
            f32_magnitude(bits),
        ) * 1_000_000_000_000_000_000_000_000_000_000 < pow2(149)),
{
    lemma2_to64();
    lemma2_to64_rest();
    lemma_pow2_adds(6, 149);
    lemma_pow2_pos(149);
    assert(0xee_6b28 * pow2(155) == 1_000_000_000 * pow2(149)) by (nonlinear_arith)
        requires
            pow2(155) == 64 * pow2(149),
    ;
    lemma_pow2_adds(64, 59);
    lemma_pow2_adds(123, 26);
    lemma_pow2_pos(26);
    let p = pow2(26) as int;
    assert(pow2(123) == 0x800_0000_0000_0000_0000_0000_0000_0000);
    assert((0xa2_4260 * p) * 1_000_000_000_000_000_000_000_000_000_000
        >= 0x800_0000_0000_0000_0000_0000_0000_0000 * p) by (nonlinear_arith)
        requires
            p > 0,
    ;
    assert((0xa2_425f * p) * 1_000_000_000_000_000_000_000_000_000_000
        < 0x800_0000_0000_0000_0000_0000_0000_0000 * p) by (nonlinear_arith)
        requires
            p > 0,
    ;
    if f32_is_finite(bits) {
        let magnitude = f32_magnitude(bits);
        lemma_f32_units_compare(magnitude, INTENSITY_LIMIT as int);
        lemma_f32_units_compare(magnitude, NEAR_ZERO_LIMIT as int);
        lemma_f32_units_compare(magnitude, NEAR_ZERO_LIMIT - 1);
    }
}

} // verus!
