use vstd::prelude::*;

use crate::analysis::{Boundary, Whitespace};
use crate::data::{
    find_override, override_at, spec_is_available_from, spec_projection_from, spec_suppresses, spec_target,
    spec_to_whitespace, ClusterData, LayoutData, LayoutItemKind, LineBreakOverrideDisposition,
    ProjectedSourceBoundary, RunData, SourceSoftWrapBoundary,
};
use crate::inline_box::{
    participation_width, spec_line_break_participation, InlineBoxBreakAffinity, InlineBoxLineBreakParticipation,
    LogicalInlineEdge, LogicalInlineEdgeSourceProjection,
};
use crate::style::{OverflowWrap, TextWrapMode, WhiteSpaceCollapse};
use crate::units::{clamp_i64, sat_add, sat_sub};

verus! {

/// The min-content and max-content widths of a paragraph.
#[derive(Clone, Copy, Debug, PartialEq, Eq, Structural)]
pub struct ContentWidths {
    /// The widest unbreakable segment.
    pub min: i64,
    /// The widest line between mandatory breaks.
    pub max: i64,
}

/// What measuring the intrinsic widths tracks while it scans the items.
#[derive(Clone, Copy, Debug, PartialEq, Eq, Structural)]
pub struct ContentWidthScan {
    pub min_width: i64,
    pub max_width: i64,
    /// Advance since the last soft-wrap opportunity.
    pub running_min: i64,
    /// Advance since the last mandatory break.
    pub running_max: i64,
    /// The wrap mode of the last cluster.
    pub text_wrap_mode: TextWrapMode,
    /// The cluster whose whitespace may hang at a break.
    pub prev_cluster: Option<ClusterData>,
    pub projected_source_boundary: Option<ProjectedSourceBoundary>,
}

pub open spec fn larger(a: i64, b: i64) -> i64 {
    if a > b { a } else { b }
}

/// The advance of `cluster` that hangs at a break after it: a space or
/// no-break space that does not keep its advance under `break-spaces`.
pub open spec fn hanging_whitespace(d: LayoutData, cluster: Option<ClusterData>) -> i64 {
    match cluster {
        Some(c) => if (spec_to_whitespace(c.info.source_char) == Whitespace::Space || spec_to_whitespace(
            c.info.source_char,
        ) == Whitespace::NoBreakSpace) && c.style_index < d.styles@.len()
            && d.styles@[c.style_index as int].white_space_collapse != WhiteSpaceCollapse::BreakSpaces {
            c.advance
        } else {
            0
        },
        None => 0,
    }
}

/// `st` with the segment since the last opportunity closed: its advance,
/// less the whitespace hanging there, counts toward the minimum width.
pub open spec fn close_min_segment(d: LayoutData, st: ContentWidthScan) -> ContentWidthScan {
    ContentWidthScan {
        min_width: larger(st.min_width, clamp_i64(st.running_min - hanging_whitespace(d, st.prev_cluster))),
        running_min: 0,
        ..st
    }
}

/// `st` with the segment since the last opportunity counted toward the
/// minimum width, as if it ended here, while it goes on.
pub open spec fn note_min_segment(d: LayoutData, st: ContentWidthScan) -> ContentWidthScan {
    ContentWidthScan {
        min_width: larger(st.min_width, clamp_i64(st.running_min - hanging_whitespace(d, st.prev_cluster))),
        ..st
    }
}

/// Whether a soft wrap or mandatory break precedes `c` (of `run`) when the
/// scan is in state `st`.
pub open spec fn breaks_before_cluster(d: LayoutData, st: ContentWidthScan, run: RunData, c: ClusterData) -> bool {
    let byte = (run.text_start + c.text_offset) as usize;
    let disposition = override_at(d.line_break_overrides@, byte);
    let style = d.styles@[c.style_index as int];
    let suppressed = match st.projected_source_boundary {
        Some(p) => spec_suppresses(p, byte),
        None => false,
    };
    let resolved = disposition == Some(LineBreakOverrideDisposition::ResolvedCollapsedSourceOpportunity)
        || disposition == Some(LineBreakOverrideDisposition::ResolvedRetainedSourceOpportunity);
    let style_resolved = disposition != Some(LineBreakOverrideDisposition::Suppress) && (disposition == Some(
        LineBreakOverrideDisposition::NormalOpportunity,
    ) || disposition == Some(LineBreakOverrideDisposition::UnprioritizedOpportunity) || c.info.boundary
        == Boundary::Line || style.overflow_wrap == OverflowWrap::Anywhere);
    c.info.boundary == Boundary::Mandatory || (!suppressed && (resolved || (st.text_wrap_mode == TextWrapMode::Wrap
        && style_resolved)))
}

/// The scan after cluster `c` of a text item of `run`.
pub open spec fn scan_cluster(d: LayoutData, st: ContentWidthScan, run: RunData, c: ClusterData, rtl: bool) -> ContentWidthScan {
    let byte = (run.text_start + c.text_offset) as usize;
    let mandatory = c.info.boundary == Boundary::Mandatory;
    let st1 = ContentWidthScan {
        text_wrap_mode: d.styles@[c.style_index as int].text_wrap_mode,
        projected_source_boundary: match st.projected_source_boundary {
            Some(p) => if spec_target(p) <= byte { None } else { st.projected_source_boundary },
            None => None,
        },
        ..st
    };
    let st2 = if breaks_before_cluster(d, st, run, c) {
        let closed = close_min_segment(d, st1);
        if mandatory {
            ContentWidthScan {
                max_width: larger(st1.max_width, clamp_i64(st1.running_max - hanging_whitespace(d, st1.prev_cluster))),
                running_max: 0,
                ..closed
            }
        } else {
            closed
        }
    } else {
        st1
    };
    ContentWidthScan {
        running_min: clamp_i64(st2.running_min + c.advance),
        running_max: clamp_i64(st2.running_max + c.advance),
        prev_cluster: if rtl { st2.prev_cluster } else { Some(c) },
        ..st2
    }
}

/// The scan after the clusters `[lo, hi)` of a text item of `run`.
pub open spec fn scan_clusters(d: LayoutData, st: ContentWidthScan, run: RunData, lo: int, hi: int, rtl: bool) -> ContentWidthScan
    decreases hi - lo,
{
    if hi <= lo {
        st
    } else {
        scan_cluster(d, scan_clusters(d, st, run, lo, hi - 1, rtl), run, d.clusters@[hi - 1], rtl)
    }
}

/// The scan after the inline box of item `i`.
pub open spec fn scan_box(d: LayoutData, st: ContentWidthScan, i: int) -> ContentWidthScan {
    let b = d.inline_boxes@[d.items@[i].index as int];
    let width = participation_width(b.spec_participation());
    let st0 = ContentWidthScan { running_max: clamp_i64(st.running_max + width), ..st };
    match spec_line_break_participation(b.spec_participation()) {
        InlineBoxLineBreakParticipation::Atomic(affinity) => {
            let can_wrap = st0.text_wrap_mode == TextWrapMode::Wrap;
            let before = can_wrap && (affinity == InlineBoxBreakAffinity::Independent || affinity
                == InlineBoxBreakAffinity::ToNext);
            let after = can_wrap && (affinity == InlineBoxBreakAffinity::Independent || affinity
                == InlineBoxBreakAffinity::ToPrevious);
            let st1 = if before { close_min_segment(d, st0) } else { st0 };
            let st2 = ContentWidthScan { running_min: clamp_i64(st1.running_min + width), ..st1 };
            let st3 = if after {
                ContentWidthScan { min_width: larger(st2.min_width, st2.running_min), running_min: 0, ..st2 }
            } else {
                st2
            };
            ContentWidthScan { prev_cluster: None, ..st3 }
        },
        InlineBoxLineBreakParticipation::LogicalOwnerEdge(edge) => {
            let source_projection = match edge {
                LogicalInlineEdge::Start => if width == 0 {
                    LogicalInlineEdgeSourceProjection::Absent
                } else {
                    LogicalInlineEdgeSourceProjection::BeforeGeometry
                },
                LogicalInlineEdge::End(_) => LogicalInlineEdgeSourceProjection::AfterGeometry,
            };
            let following = match edge {
                LogicalInlineEdge::Start => crate::inline_box::FollowingSourceSpace::RetainedAdvance,
                LogicalInlineEdge::End(f) => f,
            };
            let boundary = d.scan_boundary(i + 1, d.next_cluster_start(i + 1), b.spec_index(), edge);
            let projection = spec_projection_from(boundary, b.spec_index(), following);
            let project = projection is Some && source_projection != LogicalInlineEdgeSourceProjection::Absent && (
            source_projection == LogicalInlineEdgeSourceProjection::AfterGeometry || match st0.projected_source_boundary {
                Some(q) => spec_target(q) != spec_target(projection->0),
                None => true,
            }) && spec_is_available_from(boundary, st0.text_wrap_mode);
            let st1 = if source_projection == LogicalInlineEdgeSourceProjection::BeforeGeometry && project {
                ContentWidthScan { projected_source_boundary: projection, ..close_min_segment(d, st0) }
            } else {
                st0
            };
            let st2 = ContentWidthScan { running_min: clamp_i64(st1.running_min + width), ..st1 };
            if source_projection == LogicalInlineEdgeSourceProjection::AfterGeometry && project {
                ContentWidthScan {
                    min_width: larger(st2.min_width, st2.running_min),
                    running_min: 0,
                    projected_source_boundary: projection,
                    ..st2
                }
            } else {
                st2
            }
        },
        InlineBoxLineBreakParticipation::TransparentAnchor => st0,
    }
}

/// The scan after item `i`: its clusters or its box, then the maximum
/// width of the line so far.
pub open spec fn scan_item(d: LayoutData, st: ContentWidthScan, i: int) -> ContentWidthScan {
    let item = d.items@[i];
    let st1 = match item.kind {
        LayoutItemKind::TextRun => {
            let rtl = d.base_level % 2 == 1;
            let st0 = if rtl {
                ContentWidthScan {
                    prev_cluster: if item.cluster_start < item.cluster_end {
                        Some(d.clusters@[item.cluster_start as int])
                    } else {
                        None
                    },
                    ..st
                }
            } else {
                st
            };
            let scanned = scan_clusters(
                d,
                st0,
                d.runs@[item.index as int],
                item.cluster_start as int,
                item.cluster_end as int,
                rtl,
            );
            note_min_segment(d, scanned)
        },
        LayoutItemKind::InlineBox => scan_box(d, st, i),
    };
    ContentWidthScan {
        max_width: larger(st1.max_width, clamp_i64(st1.running_max - hanging_whitespace(d, st1.prev_cluster))),
        ..st1
    }
}

/// The scan after the first `k` items.
pub open spec fn scan_items(d: LayoutData, k: int) -> ContentWidthScan
    decreases k,
{
    if k <= 0 {
        ContentWidthScan {
            min_width: 0,
            max_width: 0,
            running_min: 0,
            running_max: 0,
            text_wrap_mode: TextWrapMode::Wrap,
            prev_cluster: None,
            projected_source_boundary: None,
        }
    } else {
        scan_item(d, scan_items(d, k - 1), k - 1)
    }
}

/// The min-content and max-content widths of `d`: the minimum is the
/// widest advance between soft-wrap opportunities, the maximum the widest
/// advance between mandatory breaks, each less the whitespace that would
/// hang at its end.
pub open spec fn content_widths(d: LayoutData) -> ContentWidths {
    let st = scan_items(d, d.items@.len() as int);
    ContentWidths {
        min: larger(st.min_width, clamp_i64(st.running_min - hanging_whitespace(d, st.prev_cluster))),
        max: st.max_width,
    }
}

/// What the paragraph measures, item by item, in order: each cluster of a
/// text item, with its advance and whether a mandatory break comes before
/// it, and each inline box, with its width and no break.
pub open spec fn item_units(d: LayoutData, i: int) -> Seq<(int, bool)> {
    let item = d.items@[i];
    if item.kind == LayoutItemKind::TextRun {
        Seq::new((item.cluster_end - item.cluster_start) as nat, |j: int| cluster_unit(d.clusters@[item.cluster_start + j]))
    } else {
        seq![(participation_width(d.inline_boxes@[item.index as int].spec_participation()) as int, false)]
    }
}

/// A cluster as a unit: its advance, and whether a mandatory break comes
/// before it.
pub open spec fn cluster_unit(c: ClusterData) -> (int, bool) {
    (c.advance as int, c.info.boundary == Boundary::Mandatory)
}

/// The units of the first `k` items.
pub open spec fn paragraph_units(d: LayoutData, k: int) -> Seq<(int, bool)>
    decreases k,
{
    if k <= 0 {
        seq![]
    } else {
        paragraph_units(d, k - 1) + item_units(d, k - 1)
    }
}

/// The total advance of units `[a, b)`.
pub open spec fn units_sum(u: Seq<(int, bool)>, a: int, b: int) -> int
    decreases b - a,
{
    if b <= a {
        0
    } else {
        units_sum(u, a, b - 1) + u[b - 1].0
    }
}

/// The position of the last unit before `pos` that starts a line after a
/// mandatory break, or 0.
pub open spec fn line_start_before(u: Seq<(int, bool)>, pos: int) -> int
    decreases pos,
{
    if pos <= 0 {
        0
    } else if u[pos - 1].1 {
        pos - 1
    } else {
        line_start_before(u, pos - 1)
    }
}

/// Every stretch of `u` that no mandatory break interrupts advances at most
/// `bound`; advances are not negative and their total fits in an `i64`.
pub open spec fn lines_within(u: Seq<(int, bool)>, bound: int) -> bool {
    &&& forall|j: int| 0 <= j < u.len() ==> (#[trigger] u[j]).0 >= 0
    &&& units_sum(u, 0, u.len() as int) <= i64::MAX
    &&& forall|a: int, b: int|
        0 <= a <= b <= u.len() && (forall|j: int| a < j < b ==> !(#[trigger] u[j]).1) ==> #[trigger] units_sum(u, a, b)
            <= bound
}

proof fn lemma_units_sum_split(u: Seq<(int, bool)>, a: int, b: int, c: int)
    requires
        a <= b <= c,
    ensures
        units_sum(u, a, c) == units_sum(u, a, b) + units_sum(u, b, c),
    decreases c - b,
{
    if c > b {
        lemma_units_sum_split(u, a, b, c - 1);
    }
}

proof fn lemma_units_sum_nonneg(u: Seq<(int, bool)>, a: int, b: int)
    requires
        0 <= a,
        b <= u.len(),
        forall|j: int| 0 <= j < u.len() ==> (#[trigger] u[j]).0 >= 0,
    ensures
        units_sum(u, a, b) >= 0,
    decreases b - a,
{
    if b > a {
        lemma_units_sum_nonneg(u, a, b - 1);
    }
}

/// A stretch of non-negative units adds up to at most the total.
proof fn lemma_units_sum_at_most_total(u: Seq<(int, bool)>, a: int, b: int)
    requires
        0 <= a <= b <= u.len(),
        forall|j: int| 0 <= j < u.len() ==> (#[trigger] u[j]).0 >= 0,
    ensures
        0 <= units_sum(u, a, b) <= units_sum(u, 0, u.len() as int),
{
    lemma_units_sum_split(u, 0, a, b);
    lemma_units_sum_split(u, 0, b, u.len() as int);
    lemma_units_sum_nonneg(u, 0, a);
    lemma_units_sum_nonneg(u, a, b);
    lemma_units_sum_nonneg(u, b, u.len() as int);
}

proof fn lemma_line_start_before(u: Seq<(int, bool)>, pos: int)
    requires
        0 <= pos <= u.len(),
    ensures
        0 <= line_start_before(u, pos) <= pos,
        forall|j: int| line_start_before(u, pos) < j < pos ==> !(#[trigger] u[j]).1,
    decreases pos,
{
    if pos > 0 && !u[pos - 1].1 {
        lemma_line_start_before(u, pos - 1);
    }
}

/// What the maximum-width part of the scan keeps at unit position `pos`.
spec fn max_scan_inv(u: Seq<(int, bool)>, bound: int, st: ContentWidthScan, pos: int) -> bool {
    &&& 0 <= pos <= u.len()
    &&& st.running_max == units_sum(u, line_start_before(u, pos), pos)
    &&& st.max_width <= bound
    &&& st.prev_cluster matches Some(c) ==> c.advance >= 0
}

/// The running width since the last mandatory break lies within the bound.
proof fn lemma_running_within(u: Seq<(int, bool)>, bound: int, st: ContentWidthScan, pos: int)
    requires
        lines_within(u, bound),
        max_scan_inv(u, bound, st, pos),
    ensures
        0 <= st.running_max <= bound,
        st.running_max <= i64::MAX,
{
    lemma_line_start_before(u, pos);
    let a = line_start_before(u, pos);
    assert(units_sum(u, a, pos) <= bound);
    lemma_units_sum_at_most_total(u, a, pos);
}

/// Closing a line at `pos`, less any hanging whitespace, stays within the bound.
proof fn lemma_closed_line_within(d: LayoutData, u: Seq<(int, bool)>, bound: int, st: ContentWidthScan, pos: int)
    requires
        lines_within(u, bound),
        max_scan_inv(u, bound, st, pos),
    ensures
        larger(st.max_width, clamp_i64(st.running_max - hanging_whitespace(d, st.prev_cluster))) <= bound,
{
    lemma_running_within(u, bound, st, pos);
    assert(hanging_whitespace(d, st.prev_cluster) >= 0);
    assert(units_sum(u, 0, 0) == 0);
    assert(units_sum(u, 0, 0) <= bound);
}

/// One cluster step keeps the maximum-width invariant.
proof fn lemma_max_scan_cluster(
    d: LayoutData,
    u: Seq<(int, bool)>,
    bound: int,
    st: ContentWidthScan,
    pos: int,
    run: RunData,
    c: ClusterData,
    rtl: bool,
)
    requires
        lines_within(u, bound),
        max_scan_inv(u, bound, st, pos),
        pos < u.len(),
        u[pos] == cluster_unit(c),
    ensures
        max_scan_inv(u, bound, scan_cluster(d, st, run, c, rtl), pos + 1),
{
    lemma_running_within(u, bound, st, pos);
    lemma_closed_line_within(d, u, bound, st, pos);
    lemma_line_start_before(u, pos);
    lemma_line_start_before(u, pos + 1);
    let a0 = line_start_before(u, pos);
    let r = scan_cluster(d, st, run, c, rtl);
    assert(u[pos].0 >= 0);
    assert(units_sum(u, pos, pos) == 0);
    assert(units_sum(u, pos, pos + 1) == u[pos].0);
    if c.info.boundary == Boundary::Mandatory {
        assert(u[pos].1);
        assert(line_start_before(u, pos + 1) == pos);
        lemma_units_sum_at_most_total(u, pos, pos + 1);
        assert(r.running_max == units_sum(u, pos, pos + 1));
        assert(r.max_width <= bound);
    } else {
        assert(!u[pos].1);
        assert(line_start_before(u, pos + 1) == a0);
        assert(units_sum(u, a0, pos + 1) == units_sum(u, a0, pos) + u[pos].0);
        lemma_units_sum_at_most_total(u, a0, pos + 1);
        assert(r.running_max == units_sum(u, a0, pos + 1));
        assert(r.max_width == st.max_width);
    }
}

/// The cluster steps over `[lo, hi)` keep the invariant, one unit each.
proof fn lemma_max_scan_clusters(
    d: LayoutData,
    u: Seq<(int, bool)>,
    bound: int,
    st: ContentWidthScan,
    pos: int,
    run: RunData,
    lo: int,
    hi: int,
    rtl: bool,
)
    requires
        lines_within(u, bound),
        max_scan_inv(u, bound, st, pos),
        lo <= hi,
        pos + (hi - lo) <= u.len(),
        forall|q: int| pos <= q < pos + (hi - lo) ==> #[trigger] u[q] == cluster_unit(d.clusters@[lo + (q - pos)]),
    ensures
        max_scan_inv(u, bound, scan_clusters(d, st, run, lo, hi, rtl), pos + (hi - lo)),
    decreases hi - lo,
{
    if hi > lo {
        lemma_max_scan_clusters(d, u, bound, st, pos, run, lo, hi - 1, rtl);
        assert(u[pos + (hi - 1 - lo)] == cluster_unit(d.clusters@[lo + ((pos + (hi - 1 - lo)) - pos)]));
        lemma_max_scan_cluster(
            d,
            u,
            bound,
            scan_clusters(d, st, run, lo, hi - 1, rtl),
            pos + (hi - 1 - lo),
            run,
            d.clusters@[hi - 1],
            rtl,
        );
    }
}

/// An inline box step keeps the invariant, one unit.
proof fn lemma_max_scan_box(d: LayoutData, u: Seq<(int, bool)>, bound: int, st: ContentWidthScan, pos: int, i: int)
    requires
        0 <= i < d.items@.len(),
        d.items@[i].index < d.inline_boxes@.len(),
        lines_within(u, bound),
        max_scan_inv(u, bound, st, pos),
        pos < u.len(),
        u[pos] == (participation_width(d.inline_boxes@[d.items@[i].index as int].spec_participation()) as int, false),
    ensures
        max_scan_inv(u, bound, scan_box(d, st, i), pos + 1),
{
    lemma_running_within(u, bound, st, pos);
    lemma_line_start_before(u, pos);
    lemma_line_start_before(u, pos + 1);
    let a0 = line_start_before(u, pos);
    assert(u[pos].0 >= 0);
    assert(!u[pos].1);
    assert(line_start_before(u, pos + 1) == a0);
    assert(units_sum(u, a0, pos + 1) == units_sum(u, a0, pos) + u[pos].0);
    lemma_units_sum_at_most_total(u, a0, pos + 1);
    let r = scan_box(d, st, i);
    assert(r.running_max == units_sum(u, a0, pos + 1));
    assert(r.max_width == st.max_width);
}

/// The units of the first `k` items begin the units of all of them.
proof fn lemma_paragraph_units_prefix(d: LayoutData, k: int, n: int)
    requires
        0 <= k <= n,
    ensures
        paragraph_units(d, n).len() >= paragraph_units(d, k).len(),
        paragraph_units(d, n).subrange(0, paragraph_units(d, k).len() as int) == paragraph_units(d, k),
    decreases n - k,
{
    if k < n {
        lemma_paragraph_units_prefix(d, k, n - 1);
        let p = paragraph_units(d, n - 1);
        assert(paragraph_units(d, n).subrange(0, p.len() as int) =~= p);
        assert(paragraph_units(d, n).subrange(0, paragraph_units(d, k).len() as int) =~= p.subrange(
            0,
            paragraph_units(d, k).len() as int,
        ));
    } else {
        assert(paragraph_units(d, n).subrange(0, paragraph_units(d, n).len() as int) =~= paragraph_units(d, n));
    }
}

/// The scan of the first `k` items keeps the invariant at the end of their units.
proof fn lemma_max_scan_items(d: LayoutData, bound: int, k: int)
    requires
        d.wf(),
        0 <= k <= d.items@.len(),
        lines_within(paragraph_units(d, d.items@.len() as int), bound),
    ensures
        max_scan_inv(
            paragraph_units(d, d.items@.len() as int),
            bound,
            scan_items(d, k),
            paragraph_units(d, k).len() as int,
        ),
    decreases k,
{
    let n = d.items@.len() as int;
    let u = paragraph_units(d, n);
    lemma_paragraph_units_prefix(d, k, n);
    if k == 0 {
        assert(units_sum(u, 0, 0) == 0);
        assert(units_sum(u, 0, 0) <= bound);
    } else {
        lemma_max_scan_items(d, bound, k - 1);
        lemma_paragraph_units_prefix(d, k - 1, n);
        let st = scan_items(d, k - 1);
        let pos = paragraph_units(d, k - 1).len() as int;
        let i = k - 1;
        let item = d.items@[i];
        assert(d.item_wf(item));
        let iu = item_units(d, i);
        assert(paragraph_units(d, k) == paragraph_units(d, k - 1) + iu);
        assert forall|q: int| pos <= q < pos + iu.len() implies #[trigger] u[q] == iu[q - pos] by {
            assert(u.subrange(0, paragraph_units(d, k).len() as int)[q] == paragraph_units(d, k)[q]);
        }
        let st1 = match item.kind {
            LayoutItemKind::TextRun => {
                let rtl = d.base_level % 2 == 1;
                let st0 = if rtl {
                    ContentWidthScan {
                        prev_cluster: if item.cluster_start < item.cluster_end {
                            Some(d.clusters@[item.cluster_start as int])
                        } else {
                            None
                        },
                        ..st
                    }
                } else {
                    st
                };
                if rtl && item.cluster_start < item.cluster_end {
                    assert(u[pos] == iu[0]);
                }
                assert forall|q: int| pos <= q < pos + (item.cluster_end - item.cluster_start) implies #[trigger] u[q]
                    == cluster_unit(d.clusters@[item.cluster_start + (q - pos)]) by {
                    assert(u[q] == iu[q - pos]);
                }
                lemma_max_scan_clusters(
                    d,
                    u,
                    bound,
                    st0,
                    pos,
                    d.runs@[item.index as int],
                    item.cluster_start as int,
                    item.cluster_end as int,
                    rtl,
                );
                let scanned = scan_clusters(
                    d,
                    st0,
                    d.runs@[item.index as int],
                    item.cluster_start as int,
                    item.cluster_end as int,
                    rtl,
                );
                note_min_segment(d, scanned)
            },
            LayoutItemKind::InlineBox => {
                assert(u[pos] == iu[0]);
                lemma_max_scan_box(d, u, bound, st, pos, i);
                scan_box(d, st, i)
            },
        };
        let end = paragraph_units(d, k).len() as int;
        assert(max_scan_inv(u, bound, st1, end));
        lemma_closed_line_within(d, u, bound, st1, end);
    }
}

/// The max-content width never exceeds the widest line between mandatory
/// breaks: when no stretch of the paragraph's clusters and boxes that a
/// mandatory break does not interrupt advances more than `bound` (with
/// non-negative advances whose total fits an `i64`), the max-content width
/// is at most `bound`.
pub proof fn lemma_max_content_within_widest_line(d: LayoutData, bound: int)
    requires
        d.wf(),
        lines_within(paragraph_units(d, d.items@.len() as int), bound),
    ensures
        content_widths(d).max <= bound,
{
    lemma_max_scan_items(d, bound, d.items@.len() as int);
}

/// The units' advances are not negative and their total fits an `i64`.
pub open spec fn units_fit(u: Seq<(int, bool)>) -> bool {
    &&& forall|j: int| 0 <= j < u.len() ==> (#[trigger] u[j]).0 >= 0
    &&& units_sum(u, 0, u.len() as int) <= i64::MAX
}

/// No cluster of `d` is whitespace that could hang.
pub open spec fn no_hanging_clusters(d: LayoutData) -> bool {
    forall|c: int| 0 <= c < d.clusters@.len() ==> {
        let w = spec_to_whitespace((#[trigger] d.clusters@[c]).info.source_char);
        w != Whitespace::Space && w != Whitespace::NoBreakSpace
    }
}

/// What the maximum-width part of the scan has covered at unit `pos`:
/// every line closed by a mandatory break before `pos`.
spec fn max_cover_inv(u: Seq<(int, bool)>, st: ContentWidthScan, pos: int) -> bool {
    &&& 0 <= pos <= u.len()
    &&& st.running_max == units_sum(u, line_start_before(u, pos), pos)
    &&& forall|q: int| 0 <= q < pos && (#[trigger] u[q]).1 ==> st.max_width >= units_sum(u, line_start_before(u, q), q)
    &&& hanging_whitespace_zero(st.prev_cluster)
    &&& st.running_min <= st.running_max
    &&& st.min_width <= larger(st.max_width, st.running_max)
}

spec fn hanging_whitespace_zero(p: Option<ClusterData>) -> bool {
    p matches Some(c) ==> spec_to_whitespace(c.info.source_char) != Whitespace::Space && spec_to_whitespace(
        c.info.source_char,
    ) != Whitespace::NoBreakSpace
}

proof fn lemma_cover_cluster(
    d: LayoutData,
    u: Seq<(int, bool)>,
    st: ContentWidthScan,
    pos: int,
    run: RunData,
    c: ClusterData,
    rtl: bool,
)
    requires
        units_fit(u),
        max_cover_inv(u, st, pos),
        pos < u.len(),
        u[pos] == cluster_unit(c),
        hanging_whitespace_zero(Some(c)),
    ensures
        max_cover_inv(u, scan_cluster(d, st, run, c, rtl), pos + 1),
{
    lemma_line_start_before(u, pos);
    lemma_line_start_before(u, pos + 1);
    let a0 = line_start_before(u, pos);
    lemma_units_sum_at_most_total(u, a0, pos);
    let r = scan_cluster(d, st, run, c, rtl);
    assert(u[pos].0 >= 0);
    assert(units_sum(u, pos, pos) == 0);
    assert(units_sum(u, pos, pos + 1) == u[pos].0);
    assert(hanging_whitespace(d, st.prev_cluster) == 0);
    assert(r.max_width >= st.max_width);
    if c.info.boundary == Boundary::Mandatory {
        assert(u[pos].1);
        assert(line_start_before(u, pos + 1) == pos);
        lemma_units_sum_at_most_total(u, pos, pos + 1);
        assert(r.running_max == units_sum(u, pos, pos + 1));
        assert(r.max_width >= units_sum(u, a0, pos));
    } else {
        assert(!u[pos].1);
        assert(line_start_before(u, pos + 1) == a0);
        assert(units_sum(u, a0, pos + 1) == units_sum(u, a0, pos) + u[pos].0);
        lemma_units_sum_at_most_total(u, a0, pos + 1);
        assert(r.running_max == units_sum(u, a0, pos + 1));
    }
    assert forall|q: int| 0 <= q < pos + 1 && (#[trigger] u[q]).1 implies r.max_width >= units_sum(
        u,
        line_start_before(u, q),
        q,
    ) by {
        if q < pos {
            assert(st.max_width >= units_sum(u, line_start_before(u, q), q));
        }
    }
}

proof fn lemma_cover_clusters(
    d: LayoutData,
    u: Seq<(int, bool)>,
    st: ContentWidthScan,
    pos: int,
    run: RunData,
    lo: int,
    hi: int,
    rtl: bool,
)
    requires
        units_fit(u),
        no_hanging_clusters(d),
        max_cover_inv(u, st, pos),
        0 <= lo <= hi <= d.clusters@.len(),
        pos + (hi - lo) <= u.len(),
        forall|q: int| pos <= q < pos + (hi - lo) ==> #[trigger] u[q] == cluster_unit(d.clusters@[lo + (q - pos)]),
    ensures
        max_cover_inv(u, scan_clusters(d, st, run, lo, hi, rtl), pos + (hi - lo)),
    decreases hi - lo,
{
    if hi > lo {
        lemma_cover_clusters(d, u, st, pos, run, lo, hi - 1, rtl);
        assert(u[pos + (hi - 1 - lo)] == cluster_unit(d.clusters@[lo + ((pos + (hi - 1 - lo)) - pos)]));
        let c = d.clusters@[hi - 1];
        assert(hanging_whitespace_zero(Some(c)));
        lemma_cover_cluster(d, u, scan_clusters(d, st, run, lo, hi - 1, rtl), pos + (hi - 1 - lo), run, c, rtl);
    }
}

proof fn lemma_cover_box(d: LayoutData, u: Seq<(int, bool)>, st: ContentWidthScan, pos: int, i: int)
    requires
        0 <= i < d.items@.len(),
        d.items@[i].index < d.inline_boxes@.len(),
        units_fit(u),
        max_cover_inv(u, st, pos),
        pos < u.len(),
        u[pos] == (participation_width(d.inline_boxes@[d.items@[i].index as int].spec_participation()) as int, false),
    ensures
        max_cover_inv(u, scan_box(d, st, i), pos + 1),
{
    lemma_line_start_before(u, pos);
    lemma_line_start_before(u, pos + 1);
    let a0 = line_start_before(u, pos);
    assert(u[pos].0 >= 0);
    assert(!u[pos].1);
    assert(line_start_before(u, pos + 1) == a0);
    assert(units_sum(u, a0, pos + 1) == units_sum(u, a0, pos) + u[pos].0);
    lemma_units_sum_at_most_total(u, a0, pos + 1);
    let r = scan_box(d, st, i);
    let b = d.inline_boxes@[d.items@[i].index as int];
    let width = participation_width(b.spec_participation());
    assert(width >= 0);
    assert(hanging_whitespace(d, st.prev_cluster) == 0);
    lemma_units_sum_at_most_total(u, a0, pos);
    assert(st.running_max >= 0);
    let st0 = ContentWidthScan { running_max: clamp_i64(st.running_max + width), ..st };
    assert(st0.running_max == st.running_max + width);
    assert(r.running_max == st0.running_max);
    assert(r.running_min <= st0.running_max);
    assert(r.min_width <= larger(r.max_width, r.running_max));
    assert(r.running_max == units_sum(u, a0, pos + 1));
    assert(r.max_width == st.max_width);
    assert forall|q: int| 0 <= q < pos + 1 && (#[trigger] u[q]).1 implies r.max_width >= units_sum(
        u,
        line_start_before(u, q),
        q,
    ) by {
        if q < pos {
            assert(st.max_width >= units_sum(u, line_start_before(u, q), q));
        }
    }
}

/// After the first `k` items, every line closed so far and the current one
/// are covered by the maximum width.
proof fn lemma_cover_items(d: LayoutData, k: int)
    requires
        d.wf(),
        0 <= k <= d.items@.len(),
        units_fit(paragraph_units(d, d.items@.len() as int)),
        no_hanging_clusters(d),
    ensures
        max_cover_inv(paragraph_units(d, d.items@.len() as int), scan_items(d, k), paragraph_units(d, k).len() as int),
        scan_items(d, k).max_width >= scan_items(d, k).running_max,
    decreases k,
{
    let n = d.items@.len() as int;
    let u = paragraph_units(d, n);
    lemma_paragraph_units_prefix(d, k, n);
    if k == 0 {
        assert(units_sum(u, 0, 0) == 0);
    } else {
        lemma_cover_items(d, k - 1);
        lemma_paragraph_units_prefix(d, k - 1, n);
        let st = scan_items(d, k - 1);
        let pos = paragraph_units(d, k - 1).len() as int;
        let i = k - 1;
        let item = d.items@[i];
        assert(d.item_wf(item));
        let iu = item_units(d, i);
        assert(paragraph_units(d, k) == paragraph_units(d, k - 1) + iu);
        assert forall|q: int| pos <= q < pos + iu.len() implies #[trigger] u[q] == iu[q - pos] by {
            assert(u.subrange(0, paragraph_units(d, k).len() as int)[q] == paragraph_units(d, k)[q]);
        }
        let st1 = match item.kind {
            LayoutItemKind::TextRun => {
                let rtl = d.base_level % 2 == 1;
                let st0 = if rtl {
                    ContentWidthScan {
                        prev_cluster: if item.cluster_start < item.cluster_end {
                            Some(d.clusters@[item.cluster_start as int])
                        } else {
                            None
                        },
                        ..st
                    }
                } else {
                    st
                };
                if rtl && item.cluster_start < item.cluster_end {
                    assert(hanging_whitespace_zero(Some(d.clusters@[item.cluster_start as int])));
                }
                assert(max_cover_inv(u, st0, pos));
                assert forall|q: int| pos <= q < pos + (item.cluster_end - item.cluster_start) implies #[trigger] u[q]
                    == cluster_unit(d.clusters@[item.cluster_start + (q - pos)]) by {
                    assert(u[q] == iu[q - pos]);
                }
                lemma_cover_clusters(
                    d,
                    u,
                    st0,
                    pos,
                    d.runs@[item.index as int],
                    item.cluster_start as int,
                    item.cluster_end as int,
                    rtl,
                );
                let scanned = scan_clusters(
                    d,
                    st0,
                    d.runs@[item.index as int],
                    item.cluster_start as int,
                    item.cluster_end as int,
                    rtl,
                );
                note_min_segment(d, scanned)
            },
            LayoutItemKind::InlineBox => {
                assert(u[pos] == iu[0]);
                lemma_cover_box(d, u, st, pos, i);
                scan_box(d, st, i)
            },
        };
        let end = paragraph_units(d, k).len() as int;
        assert(max_cover_inv(u, st1, end));
        assert(hanging_whitespace(d, st1.prev_cluster) == 0);
        lemma_line_start_before(u, end);
        lemma_units_sum_at_most_total(u, line_start_before(u, end), end);
        let st2 = scan_items(d, k);
        assert(st2.max_width >= st1.max_width);
        assert forall|q: int| 0 <= q < end && (#[trigger] u[q]).1 implies st2.max_width >= units_sum(
            u,
            line_start_before(u, q),
            q,
        ) by {
            assert(st1.max_width >= units_sum(u, line_start_before(u, q), q));
        }
    }
}

/// A line that runs from `a` to `b` between mandatory breaks starts at `a`.
proof fn lemma_line_start_of_line(u: Seq<(int, bool)>, a: int, b: int)
    requires
        0 <= a <= b <= u.len(),
        a == 0 || u[a].1,
        forall|j: int| a < j < b ==> !(#[trigger] u[j]).1,
    ensures
        a < b ==> line_start_before(u, b) == a,
    decreases b - a,
{
    if b > a {
        if b - 1 > a {
            assert(!u[b - 1].1);
            lemma_line_start_of_line(u, a, b - 1);
        } else {
            if a > 0 {
                assert(u[a].1);
            } else if !u[0].1 {
                assert(line_start_before(u, 0) == 0);
            }
        }
    }
}

/// The max-content width is at least the advance of every line between
/// mandatory breaks, where no cluster is whitespace that could hang: the
/// units from `a` (the paragraph start or a mandatory break) up to `b` (the
/// paragraph end or the next mandatory break).
pub proof fn lemma_max_content_covers_every_line(d: LayoutData, a: int, b: int)
    requires
        d.wf(),
        units_fit(paragraph_units(d, d.items@.len() as int)),
        no_hanging_clusters(d),
        0 <= a <= b <= paragraph_units(d, d.items@.len() as int).len(),
        a == 0 || paragraph_units(d, d.items@.len() as int)[a].1,
        b == paragraph_units(d, d.items@.len() as int).len() || paragraph_units(d, d.items@.len() as int)[b].1,
        forall|j: int| a < j < b ==> !(#[trigger] paragraph_units(d, d.items@.len() as int)[j]).1,
    ensures
        content_widths(d).max >= units_sum(paragraph_units(d, d.items@.len() as int), a, b),
{
    let n = d.items@.len() as int;
    let u = paragraph_units(d, n);
    lemma_cover_items(d, n);
    lemma_line_start_of_line(u, a, b);
    if a == b {
        assert(units_sum(u, a, b) == 0);
        lemma_line_start_before(u, u.len() as int);
        lemma_units_sum_at_most_total(u, line_start_before(u, u.len() as int), u.len() as int);
    } else if b < u.len() {
        assert(u[b].1);
    }
}

/// Where no cluster is whitespace that could hang, the min-content width
/// never exceeds the max-content width: every segment between soft-wrap
/// opportunities lies within a line between mandatory breaks.
pub proof fn lemma_min_content_within_max_content(d: LayoutData)
    requires
        d.wf(),
        units_fit(paragraph_units(d, d.items@.len() as int)),
        no_hanging_clusters(d),
    ensures
        content_widths(d).min <= content_widths(d).max,
{
    let n = d.items@.len() as int;
    let u = paragraph_units(d, n);
    lemma_cover_items(d, n);
    let st = scan_items(d, n);
    assert(hanging_whitespace(d, st.prev_cluster) == 0);
    lemma_line_start_before(u, u.len() as int);
    lemma_units_sum_at_most_total(u, line_start_before(u, u.len() as int), u.len() as int);
}

fn hanging_whitespace_advance(d: &LayoutData, cluster: Option<ClusterData>) -> (r: i64)
    ensures
        r == hanging_whitespace(*d, cluster),
{
    match cluster {
        Some(c) => {
            if c.info.whitespace().is_space_or_nbsp() && (c.style_index as usize) < d.styles.len()
                && d.styles[c.style_index as usize].white_space_collapse != WhiteSpaceCollapse::BreakSpaces {
                c.advance
            } else {
                0
            }
        },
        None => 0,
    }
}

fn note_segment(d: &LayoutData, st: ContentWidthScan) -> (r: ContentWidthScan)
    ensures
        r == note_min_segment(*d, st),
{
    let trailing = hanging_whitespace_advance(d, st.prev_cluster);
    let candidate = sat_sub(st.running_min, trailing);
    ContentWidthScan { min_width: if candidate > st.min_width { candidate } else { st.min_width }, ..st }
}

fn close_segment(d: &LayoutData, st: ContentWidthScan) -> (r: ContentWidthScan)
    ensures
        r == close_min_segment(*d, st),
{
    let trailing = hanging_whitespace_advance(d, st.prev_cluster);
    let candidate = sat_sub(st.running_min, trailing);
    ContentWidthScan {
        min_width: if candidate > st.min_width { candidate } else { st.min_width },
        running_min: 0,
        ..st
    }
}

impl LayoutData {
    /// Scans cluster `c` of the text item of `run`.
    fn scan_content_cluster(&self, st: ContentWidthScan, run: &RunData, c: usize, rtl: bool) -> (r: ContentWidthScan)
        requires
            self.wf(),
            c < self.clusters@.len(),
            self.clusters@[c as int].style_index < self.styles@.len(),
            run.text_start + self.clusters@[c as int].text_offset <= usize::MAX,
        ensures
            r == scan_cluster(*self, st, *run, self.clusters@[c as int], rtl),
    {
        let cluster = self.clusters[c];
        let byte_index = run.text_start + cluster.text_offset as usize;
        let boundary = cluster.info.boundary();
        let boundary_override = find_override(&self.line_break_overrides, byte_index);
        let style = self.styles[cluster.style_index as usize];
        let mut st1 = st;
        st1.text_wrap_mode = style.text_wrap_mode;
        let source_boundary_was_projected = match st.projected_source_boundary {
            Some(p) => p.suppresses(byte_index),
            None => false,
        };
        if let Some(p) = st.projected_source_boundary {
            if p.target() <= byte_index {
                st1.projected_source_boundary = None;
            }
        }
        let resolved_source_opportunity = match boundary_override {
            Some(LineBreakOverrideDisposition::ResolvedCollapsedSourceOpportunity) => true,
            Some(LineBreakOverrideDisposition::ResolvedRetainedSourceOpportunity) => true,
            _ => false,
        };
        let style_resolved_opportunity = !matches!(boundary_override, Some(LineBreakOverrideDisposition::Suppress))
            && (matches!(
                boundary_override,
                Some(LineBreakOverrideDisposition::NormalOpportunity)
            ) || matches!(boundary_override, Some(LineBreakOverrideDisposition::UnprioritizedOpportunity))
                || boundary == Boundary::Line || style.overflow_wrap == OverflowWrap::Anywhere);
        let mandatory = boundary == Boundary::Mandatory;
        let mut st2 = st1;
        if mandatory || (!source_boundary_was_projected && (resolved_source_opportunity || (st.text_wrap_mode
            == TextWrapMode::Wrap && style_resolved_opportunity))) {
            let trailing = hanging_whitespace_advance(self, st1.prev_cluster);
            st2 = close_segment(self, st1);
            if mandatory {
                let candidate = sat_sub(st1.running_max, trailing);
                st2.max_width = if candidate > st1.max_width { candidate } else { st1.max_width };
                st2.running_max = 0;
            }
        }
        st2.running_min = sat_add(st2.running_min, cluster.advance);
        st2.running_max = sat_add(st2.running_max, cluster.advance);
        if !rtl {
            st2.prev_cluster = Some(cluster);
        }
        st2
    }

    /// Scans the inline box of item `i`.
    fn scan_content_box(&self, st: ContentWidthScan, i: usize) -> (r: ContentWidthScan)
        requires
            self.wf(),
            i < self.items@.len(),
            self.items@[i as int].kind == LayoutItemKind::InlineBox,
        ensures
            r == scan_box(*self, st, i as int),
    {
        assert(self.item_wf(self.items@[i as int]));
        let item = self.items[i];
        let ibox = self.inline_boxes[item.index];
        let width = ibox.width();
        let mut st0 = st;
        st0.running_max = sat_add(st.running_max, width);
        match ibox.line_break_participation() {
            InlineBoxLineBreakParticipation::Atomic(break_affinity) => {
                let can_wrap = st0.text_wrap_mode == TextWrapMode::Wrap;
                let mut st1 = st0;
                if can_wrap && break_affinity.allows_break_before() {
                    st1 = close_segment(self, st0);
                }
                st1.running_min = sat_add(st1.running_min, width);
                if can_wrap && break_affinity.allows_break_after() {
                    if st1.running_min > st1.min_width {
                        st1.min_width = st1.running_min;
                    }
                    st1.running_min = 0;
                }
                st1.prev_cluster = None;
                st1
            },
            InlineBoxLineBreakParticipation::LogicalOwnerEdge(edge) => {
                let source_projection = edge.source_projection(width);
                let boundary = self.source_soft_wrap_boundary_after(i, ibox.index(), edge);
                let projection = boundary.projection_from(ibox.index(), edge.following_source_space());
                let project = match projection {
                    Some(p) => source_projection != LogicalInlineEdgeSourceProjection::Absent && (source_projection
                        == LogicalInlineEdgeSourceProjection::AfterGeometry || match st0.projected_source_boundary {
                        Some(q) => q.target() != p.target(),
                        None => true,
                    }) && boundary.is_available_from(st0.text_wrap_mode),
                    None => false,
                };
                let mut st1 = st0;
                if source_projection == LogicalInlineEdgeSourceProjection::BeforeGeometry && project {
                    st1 = close_segment(self, st0);
                    st1.projected_source_boundary = projection;
                }
                st1.running_min = sat_add(st1.running_min, width);
                if source_projection == LogicalInlineEdgeSourceProjection::AfterGeometry && project {
                    if st1.running_min > st1.min_width {
                        st1.min_width = st1.running_min;
                    }
                    st1.running_min = 0;
                    st1.projected_source_boundary = projection;
                }
                st1
            },
            InlineBoxLineBreakParticipation::TransparentAnchor => st0,
        }
    }

    /// The min-content and max-content widths of the paragraph: the
    /// minimum is the widest advance between soft-wrap opportunities (the
    /// breaks line breaking may take, with the same wrap modes, overrides
    /// and logical-edge projections), the maximum the widest advance between
    /// mandatory breaks; each excludes the whitespace that would hang at its
    /// end. Mixed-direction text is measured in logical order.
    pub fn calculate_content_widths(&self) -> (r: ContentWidths)
        requires
            self.wf(),
        ensures
            r == content_widths(*self),
    {
        let base_level = self.base_level;
        let rtl = base_level & 1 == 1;
        assert(base_level & 1 == 1 <==> base_level % 2 == 1) by (bit_vector);
        let mut st = ContentWidthScan {
            min_width: 0,
            max_width: 0,
            running_min: 0,
            running_max: 0,
            text_wrap_mode: TextWrapMode::Wrap,
            prev_cluster: None,
            projected_source_boundary: None,
        };
        let n = self.items.len();
        let mut i: usize = 0;
        while i < n
            invariant
                self.wf(),
                n == self.items@.len(),
                i <= n,
                rtl == (self.base_level % 2 == 1),
                st == scan_items(*self, i as int),
            decreases n - i,
        {
            let item = self.items[i];
            assert(self.item_wf(self.items@[i as int]));
            let st1 = match item.kind {
                LayoutItemKind::TextRun => {
                    let run = self.runs[item.index];
                    let mut s = st;
                    if rtl {
                        s.prev_cluster = if item.cluster_start < item.cluster_end {
                            Some(self.clusters[item.cluster_start])
                        } else {
                            None
                        };
                    }
                    let ghost s0 = s;
                    let mut c = item.cluster_start;
                    while c < item.cluster_end
                        invariant
                            self.wf(),
                            item == self.items@[i as int],
                            run == self.runs@[item.index as int],
                            self.item_wf(item),
                            item.kind == LayoutItemKind::TextRun,
                            item.cluster_start <= c <= item.cluster_end,
                            s == scan_clusters(*self, s0, run, item.cluster_start as int, c as int, rtl),
                        decreases item.cluster_end - c,
                    {
                        s = self.scan_content_cluster(s, &run, c, rtl);
                        c = c + 1;
                    }
                    note_segment(self, s)
                },
                LayoutItemKind::InlineBox => self.scan_content_box(st, i),
            };
            let trailing = hanging_whitespace_advance(self, st1.prev_cluster);
            let candidate = sat_sub(st1.running_max, trailing);
            let mut st2 = st1;
            if candidate > st1.max_width {
                st2.max_width = candidate;
            }
            st = st2;
            i = i + 1;
        }
        let trailing = hanging_whitespace_advance(self, st.prev_cluster);
        let candidate = sat_sub(st.running_min, trailing);
        ContentWidths { min: if candidate > st.min_width { candidate } else { st.min_width }, max: st.max_width }
    }
}

} // verus!
