//! The decoder of Bruker RAW buffers.
//!
//! Every candidate layout of the intensity block is searched for a pair of
//! origin and step, and the best-scoring pair decides both the layout and the
//! scan axis.
use crate::bruker_axis::{
    axis_score, best_over_anchors, candidate_at, count_offsets, find_bruker_count_offsets,
    find_bruker_start_step, lemma_best_is_highest, lemma_score_fits, searched, start_step_valid,
    step_in_range, AxisCandidate,
};
use crate::bruker_layout::{
    candidate_layouts, find_bruker_data_layout, intensity_bits, intensity_offset, layout_within,
    lemma_candidates_plausible, marker_count, plausible, read_intensity, sample_count,
    BrukerDataLayout,
};
use crate::bytes::in_bounds;
use crate::error::{parse_error, GeddesError};
use crate::ieee::{f32_widen, f32_widened};
use crate::pattern::{Axis, AxisModel, ParsedPattern, PatternModel};
use vstd::prelude::*;

verus! {

/// A layout of the intensity block together with the scan axis found for it.
#[derive(Debug, Clone, Copy, PartialEq, Eq, Structural)]
pub struct BrukerSelection {
    pub layout: BrukerDataLayout,
    pub axis: AxisCandidate,
}

/// The buffer has at least 32 bytes and begins with the letters `RAW`.
pub open spec fn header_supported(buf: Seq<u8>) -> bool {
    buf.len() >= 32 && buf[0] == 0x52 && buf[1] == 0x41 && buf[2] == 0x57
}

/// The best pair of origin and step near the count offsets of one layout.
pub open spec fn axis_for_layout(buf: Seq<u8>, layout: BrukerDataLayout) -> Option<AxisCandidate> {
    let anchors = count_offsets(buf, layout.count, layout.data_offset as int);
    best_over_anchors(buf, layout.count, anchors, anchors.len() as int)
}

/// The better of the selection so far and the pair found for a further layout:
/// the new one only if it scores strictly higher.
pub open spec fn better_selection(
    best: Option<BrukerSelection>,
    layout: BrukerDataLayout,
    found: Option<AxisCandidate>,
) -> Option<BrukerSelection> {
    match (best, found) {
        (_, None) => best,
        (None, Some(axis)) => Some(BrukerSelection { layout, axis }),
        (Some(b), Some(axis)) => if axis.score > b.axis.score {
            Some(BrukerSelection { layout, axis })
        } else {
            Some(b)
        },
    }
}

/// The selection after the first `n` layouts have been searched in order.
pub open spec fn selection_over(buf: Seq<u8>, layouts: Seq<BrukerDataLayout>, n: int) -> Option<
    BrukerSelection,
>
    decreases n,
{
    if n <= 0 {
        None
    } else {
        better_selection(
            selection_over(buf, layouts, n - 1),
            layouts[n - 1],
            axis_for_layout(buf, layouts[n - 1]),
        )
    }
}

/// The layout and scan axis that a buffer is decoded with: the highest-scoring
/// pair over all candidate layouts, the first found among equals.
pub open spec fn bruker_selection(buf: Seq<u8>) -> Option<BrukerSelection> {
    selection_over(buf, candidate_layouts(buf), candidate_layouts(buf).len() as int)
}

/// The intensities that a layout denotes, widened to double precision.
pub open spec fn intensities(buf: Seq<u8>, layout: BrukerDataLayout) -> Seq<u64> {
    Seq::new(layout.count as nat, |i: int| f32_widened(intensity_bits(buf, layout, i)))
}

/// What decoding a buffer results in.
pub open spec fn bruker_decoded(buf: Seq<u8>, r: Result<ParsedPattern, GeddesError>) -> bool {
    if !header_supported(buf) {
        r matches Err(e) && e.is_parse("Unsupported Bruker RAW header"@)
    } else if candidate_layouts(buf).len() == 0 {
        r matches Err(e) && e.is_parse("Failed to locate Bruker RAW data block"@)
    } else {
        match bruker_selection(buf) {
            None => r matches Err(e) && e.is_parse("Bruker RAW scan metadata not found"@),
            Some(selection) => r matches Ok(pattern) && pattern@ == (PatternModel {
                x: AxisModel::Linear { start: selection.axis.start, step: selection.axis.step },
                y: intensities(buf, selection.layout),
                e: None,
            }),
        }
    }
}

/// Searches the candidate layouts in order for the best pair of origin and
/// step.
pub fn select_bruker_axis(buf: &[u8], layouts: &Vec<BrukerDataLayout>) -> (r: Option<
    BrukerSelection,
>)
    ensures
        r == selection_over(buf@, layouts@, layouts@.len() as int),
        r matches Some(selection) ==> exists|i: int|
            0 <= i < layouts@.len() && layouts@[i] == selection.layout,
{
    let mut best: Option<BrukerSelection> = None;
    let mut i: usize = 0;
    while i < layouts.len()
        invariant
            i <= layouts@.len(),
            best == selection_over(buf@, layouts@, i as int),
            best matches Some(selection) ==> exists|j: int|
                0 <= j < i && layouts@[j] == selection.layout,
        decreases layouts@.len() - i,
    {
        let layout: BrukerDataLayout = layouts[i];
        let anchors: Vec<usize> = find_bruker_count_offsets(buf, layout.count, layout.data_offset);
        let found: Option<AxisCandidate> = find_bruker_start_step(buf, &anchors, layout.count);
        let ghost before = best;
        best =
        match (best, found) {
            (_, None) => best,
            (None, Some(axis)) => Some(BrukerSelection { layout, axis }),
            (Some(b), Some(axis)) => if axis.score > b.axis.score {
                Some(BrukerSelection { layout, axis })
            } else {
                Some(b)
            },
        };
        proof {
            if let Some(selection) = best {
                if selection.layout == layout {
                    assert(layouts@[i as int] == selection.layout);
                } else {
                    let j = choose|j: int| 0 <= j < i && layouts@[j] == before->0.layout;
                    assert(layouts@[j] == selection.layout);
                }
            }
        }
        i = i + 1;
    }
    best
}

/// Reads all intensities of a layout that lies inside the buffer, and widens
/// them to double precision.
pub fn read_intensities(buf: &[u8], layout: BrukerDataLayout) -> (r: Vec<u64>)
    requires
        layout_within(buf@, layout),
    ensures
        r@ == intensities(buf@, layout),
{
    let mut values: Vec<u64> = Vec::new();
    let mut i: u32 = 0;
    while i < layout.count
        invariant
            i <= layout.count,
            layout_within(buf@, layout),
            values@.len() == i,
            forall|j: int|
                0 <= j < i ==> values@[j] == f32_widened(intensity_bits(buf@, layout, j)),
        decreases layout.count - i,
    {
        assert(in_bounds(buf@.len() as int, intensity_offset(layout, i as int), 4));
        let bits: u32 = match read_intensity(buf, layout, i) {
            Some(v) => v,
            None => 0,
        };
        values.push(f32_widen(bits));
        i = i + 1;
    }
    assert(values@ =~= intensities(buf@, layout));
    values
}

/// Decodes a Bruker RAW buffer: locates the intensity block and the scan
/// axis, and returns the intensities, widened to double precision, with the
/// axis `start + step * i`.
pub fn parse_bruker_raw(buf: &[u8]) -> (r: Result<ParsedPattern, GeddesError>)
    ensures
        bruker_decoded(buf@, r),
        r matches Ok(pattern) ==> pattern.well_formed(),
{
    if buf.len() < 32 || buf[0] != 0x52 || buf[1] != 0x41 || buf[2] != 0x57 {
        return Err(parse_error("Unsupported Bruker RAW header"));
    }
    let layouts: Vec<BrukerDataLayout> = find_bruker_data_layout(buf);
    if layouts.len() == 0 {
        return Err(parse_error("Failed to locate Bruker RAW data block"));
    }
    match select_bruker_axis(buf, &layouts) {
        None => Err(parse_error("Bruker RAW scan metadata not found")),
        Some(selection) => {
            let values: Vec<u64> = read_intensities(buf, selection.layout);
            Ok(
                ParsedPattern {
                    x: Axis::Linear { start: selection.axis.start, step: selection.axis.step },
                    y: values,
                    e: None,
                },
            )
        },
    }
}

/// Decoding is a function of the buffer: two decodes of one buffer select the
/// same layout and the same scan axis, and so agree on every number.
pub proof fn lemma_bruker_deterministic(
    buf: Seq<u8>,
    first: Result<ParsedPattern, GeddesError>,
    second: Result<ParsedPattern, GeddesError>,
)
    requires
        bruker_decoded(buf, first),
        bruker_decoded(buf, second),
    ensures
        first is Ok <==> second is Ok,
        first matches Err(a) ==> second matches Err(b) && a.detail() == b.detail(),
        first matches Ok(p) ==> second matches Ok(q) && p@ == q@,
{
}

/// The layout of a selection is one of the layouts that were searched.
pub proof fn lemma_selection_among_layouts(buf: Seq<u8>, layouts: Seq<BrukerDataLayout>, n: int)
    requires
        0 <= n <= layouts.len(),
        selection_over(buf, layouts, n) is Some,
    ensures
        exists|i: int| 0 <= i < n && #[trigger] layouts[i] == selection_over(buf, layouts, n)->0.layout,
    decreases n,
{
    if n > 0 {
        let after = selection_over(buf, layouts, n)->0;
        if selection_over(buf, layouts, n - 1) == Some(after) {
            lemma_selection_among_layouts(buf, layouts, n - 1);
            let i = choose|i: int|
                0 <= i < n - 1 && #[trigger] layouts[i] == selection_over(
                    buf,
                    layouts,
                    n - 1,
                )->0.layout;
            assert(layouts[i] == after.layout);
        } else {
            assert(layouts[n - 1] == after.layout);
        }
    }
}

/// Whatever count fields a buffer holds, the block that it is decoded with
/// has passed the plausibility filter: at most a quarter of its sampled values
/// are marker words.
pub proof fn lemma_decoded_block_plausible(buf: Seq<u8>)
    requires
        bruker_selection(buf) is Some,
    ensures
        plausible(buf, bruker_selection(buf)->0.layout),
        marker_count(
            buf,
            bruker_selection(buf)->0.layout,
            sample_count(bruker_selection(buf)->0.layout.count as int),
        ) * 4 <= sample_count(bruker_selection(buf)->0.layout.count as int),
{
    let layouts = candidate_layouts(buf);
    lemma_selection_among_layouts(buf, layouts, layouts.len() as int);
    let i = choose|i: int|
        0 <= i < layouts.len() && #[trigger] layouts[i] == bruker_selection(buf)->0.layout;
    lemma_candidates_plausible(buf, i);
}

/// A selection pairs one of the layouts that were searched with the best pair
/// found for that layout.
pub proof fn lemma_selection_found(buf: Seq<u8>, layouts: Seq<BrukerDataLayout>, n: int)
    requires
        0 <= n <= layouts.len(),
        selection_over(buf, layouts, n) is Some,
    ensures
        axis_for_layout(buf, selection_over(buf, layouts, n)->0.layout) == Some(
            selection_over(buf, layouts, n)->0.axis,
        ),
    decreases n,
{
    if n > 0 {
        let after = selection_over(buf, layouts, n)->0;
        if selection_over(buf, layouts, n - 1) == Some(after) {
            lemma_selection_found(buf, layouts, n - 1);
        }
    }
}

/// The scan axis that a buffer is decoded with is a possible scan of as many
/// points as the block has intensities. Its step is above 1e-6, so the
/// positions `start + step * i` rise with `i`.
pub proof fn lemma_decoded_axis_valid(buf: Seq<u8>)
    requires
        bruker_selection(buf) is Some,
    ensures
        start_step_valid(
            bruker_selection(buf)->0.axis.start,
            bruker_selection(buf)->0.axis.step,
            bruker_selection(buf)->0.layout.count,
        ),
        step_in_range(bruker_selection(buf)->0.axis.step),
        bruker_selection(buf)->0.axis.score == axis_score(
            bruker_selection(buf)->0.axis.start,
            bruker_selection(buf)->0.axis.step,
            bruker_selection(buf)->0.layout.count,
        ),
{
    let layouts = candidate_layouts(buf);
    let selection = bruker_selection(buf)->0;
    lemma_selection_found(buf, layouts, layouts.len() as int);
    let layout = selection.layout;
    let anchors = count_offsets(buf, layout.count, layout.data_offset as int);
    lemma_best_is_highest(buf, layout.count, anchors, anchors.len() as int);
    let p = choose|p: int|
        searched(anchors, anchors.len() as int, p) && best_over_anchors(
            buf,
            layout.count,
            anchors,
            anchors.len() as int,
        ) == #[trigger] candidate_at(buf, layout.count, p);
    assert(candidate_at(buf, layout.count, p) == Some(selection.axis));
    lemma_score_fits(selection.axis.start, selection.axis.step, layout.count);
}

} // verus!
