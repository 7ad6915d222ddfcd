use vstd::prelude::*;

use crate::analysis::{AuthoredBreakUnit, Boundary, Whitespace};
use crate::bidi::{iota, lemma_reorder_with_attachments_permutes, reorder_by_level_with_attachments, reorder_with_attachments_spec};
use crate::data::{ClusterData, Glyph, RunData, ProjectedSourceClusterParticipation, 
    BreakReason, DiscretionaryBreak, LayoutData, LayoutItemKind, LineBreakOverrideDisposition,
    LineData, LineItemData, NormalSoftWrapSelection, ProjectedSourceBoundary,
    SelectedSourceClusterAdvance, spec_to_whitespace, trailing_scan, is_content_cluster,
    leading_space_before_content,
};
use crate::inline_box::{InlineBox, InlineBoxBidiAttachment, InlineBoxBreakAffinity, InlineBoxLineBreakParticipation, LogicalInlineEdgeSourceProjection};
use crate::layout::Layout;
use crate::style::{TabSize, IndentOptions, IndentStart, OverflowWrap, SoftBreakPolicy, TextWrapMode, WordBreak};
use crate::units::{clamp_i64, sat_add, sat_sub};

verus! {

/// Evidence that an overflowing whitespace cluster carries a normal
/// soft-wrap opportunity.
#[derive(Clone, Copy, Debug, PartialEq, Eq, Structural)]
pub struct SoftWrapOpportunity;

/// How an overflowing whitespace cluster may be handled.
#[derive(Clone, Copy, Debug, PartialEq, Eq, Structural)]
pub enum OverflowingWhitespace {
    /// Collapsible space under wrapping: it may hang at the line end.
    CollapsibleSoftWrap(SoftWrapOpportunity),
    /// No-break space: spacing material that supplies no opportunity.
    NoBreakGlue,
    Other,
}

impl OverflowingWhitespace {
    /// Classifies an overflowing cluster: only a space under a wrapping
    /// style is a collapsible soft wrap; a no-break space is glue whatever
    /// the wrap mode.
    pub fn classify(whitespace: Whitespace, text_wrap_mode: TextWrapMode) -> (r: Self)
        ensures
            r == if whitespace == Whitespace::Space && text_wrap_mode == TextWrapMode::Wrap {
                OverflowingWhitespace::CollapsibleSoftWrap(SoftWrapOpportunity)
            } else if whitespace == Whitespace::NoBreakSpace {
                OverflowingWhitespace::NoBreakGlue
            } else {
                OverflowingWhitespace::Other
            },
    {
        match (whitespace, text_wrap_mode) {
            (Whitespace::Space, TextWrapMode::Wrap) => OverflowingWhitespace::CollapsibleSoftWrap(SoftWrapOpportunity),
            (Whitespace::NoBreakSpace, _) => OverflowingWhitespace::NoBreakGlue,
            _ => OverflowingWhitespace::Other,
        }
    }
}

pub open spec fn spec_indent_start_is_scope_line(start: IndentStart, each_line: bool) -> bool {
    match start {
        IndentStart::ElementStart => true,
        IndentStart::ContinuationAfterSoftWrap => false,
        IndentStart::ContinuationAfterExplicitBreak => each_line,
    }
}

/// Whether the first line of a layout starts a formatting-scope line: an
/// element start does, a continuation after a soft wrap does not, and a
/// continuation after an explicit break does when every such line is
/// indented.
pub fn indent_start_is_scope_line(start: IndentStart, each_line: bool) -> (r: bool)
    ensures
        r == spec_indent_start_is_scope_line(start, each_line),
{
    match start {
        IndentStart::ElementStart => true,
        IndentStart::ContinuationAfterSoftWrap => false,
        IndentStart::ContinuationAfterExplicitBreak => each_line,
    }
}

/// Whether the line after `previous_break` (`None` for the first line of
/// the layout) is indented: a scope line is one that starts the layout's
/// scope, or, with `each_line`, follows an explicit break; `hanging`
/// inverts the choice.
pub open spec fn spec_indent_applies(
    previous_break: Option<BreakReason>,
    start: IndentStart,
    options: IndentOptions,
) -> bool {
    let is_scope_line = match previous_break {
        None => spec_indent_start_is_scope_line(start, options.each_line),
        Some(reason) => options.each_line && reason == BreakReason::Explicit,
    };
    is_scope_line != options.hanging
}

/// Decides whether text-indent applies to the next line.
pub fn indent_applies(previous_break: Option<BreakReason>, start: IndentStart, options: IndentOptions) -> (r: bool)
    ensures
        r == spec_indent_applies(previous_break, start, options),
{
    let is_scope_line = match previous_break {
        None => indent_start_is_scope_line(start, options.each_line),
        Some(reason) => options.each_line && reason == BreakReason::Explicit,
    };
    is_scope_line != options.hanging
}


/// The state of the line currently being built.
#[derive(Clone, Copy, Debug, PartialEq, Eq, Structural)]
pub struct LineState {
    /// Advance of the content appended so far.
    pub x: i64,
    /// Advance used for line-fit decisions.
    pub fit_x: i64,
    pub item_start: usize,
    pub item_end: usize,
    pub cluster_start: usize,
    pub cluster_end: usize,
    pub num_spaces: usize,
    /// The wrap mode of the previous cluster (boundaries are seen one
    /// cluster late).
    pub text_wrap_mode: TextWrapMode,
    /// The soft-break policy of the previous cluster.
    pub soft_break_policy: SoftBreakPolicy,
    pub selected_source_cluster_advance: SelectedSourceClusterAdvance,
    /// Material charged only when the selected line ending is discretionary.
    pub discretionary_advance: i64,
    pub discretionary_break: bool,
}

impl LineState {
    pub open spec fn initial() -> Self {
        LineState {
            x: 0,
            fit_x: 0,
            item_start: 0,
            item_end: 0,
            cluster_start: 0,
            cluster_end: 0,
            num_spaces: 0,
            text_wrap_mode: TextWrapMode::Wrap,
            soft_break_policy: SoftBreakPolicy::Unicode(WordBreak::Normal),
            selected_source_cluster_advance: SelectedSourceClusterAdvance::Natural,
            discretionary_advance: 0,
            discretionary_break: false,
        }
    }

    pub fn new() -> (r: Self)
        ensures
            r == Self::initial(),
    {
        LineState {
            x: 0,
            fit_x: 0,
            item_start: 0,
            item_end: 0,
            cluster_start: 0,
            cluster_end: 0,
            num_spaces: 0,
            text_wrap_mode: TextWrapMode::Wrap,
            soft_break_policy: SoftBreakPolicy::Unicode(WordBreak::Normal),
            selected_source_cluster_advance: SelectedSourceClusterAdvance::Natural,
            discretionary_advance: 0,
            discretionary_break: false,
        }
    }
}

/// Iteration and line state saved at a break opportunity.
#[derive(Clone, Copy, Debug, PartialEq, Eq, Structural)]
pub struct BoundarySnapshot {
    pub item_idx: usize,
    pub run_idx: usize,
    pub cluster_idx: usize,
    pub state: LineState,
}

/// A registered advance that exists only when its conditional boundary is
/// selected.
#[derive(Clone, Copy, Debug, PartialEq, Eq, Structural)]
pub struct DiscretionaryAdvance(pub i64);

/// A recorded regular break candidate, with its provenance.
#[derive(Clone, Copy, Debug, PartialEq, Eq, Structural)]
pub enum RegularBreakCandidate {
    AuthoredDashPunctuation(BoundarySnapshot),
    InlineBoxEdge(BoundarySnapshot),
    ProjectedSource { snapshot: BoundarySnapshot, boundary: ProjectedSourceBoundary },
    Ordinary(BoundarySnapshot),
    ConditionalMaterial(BoundarySnapshot),
    Unprioritized(BoundarySnapshot),
}

impl RegularBreakCandidate {
    /// The saved state, and the projected boundary that the break takes.
    pub fn into_snapshot(self) -> (r: (BoundarySnapshot, Option<ProjectedSourceBoundary>))
        ensures
            r == match self {
                RegularBreakCandidate::AuthoredDashPunctuation(s) => (s, None),
                RegularBreakCandidate::InlineBoxEdge(s) => (s, None),
                RegularBreakCandidate::ProjectedSource { snapshot, boundary } => (snapshot, Some(boundary)),
                RegularBreakCandidate::Ordinary(s) => (s, None),
                RegularBreakCandidate::ConditionalMaterial(s) => (s, None),
                RegularBreakCandidate::Unprioritized(s) => (s, None),
            },
    {
        match self {
            RegularBreakCandidate::AuthoredDashPunctuation(snapshot)
            | RegularBreakCandidate::InlineBoxEdge(snapshot)
            | RegularBreakCandidate::Ordinary(snapshot)
            | RegularBreakCandidate::ConditionalMaterial(snapshot)
            | RegularBreakCandidate::Unprioritized(snapshot) => (snapshot, None),
            RegularBreakCandidate::ProjectedSource { snapshot, boundary } => (snapshot, Some(boundary)),
        }
    }
}

/// The provenance of a regular break opportunity.
#[derive(Clone, Copy, Debug, PartialEq, Eq, Structural)]
pub enum RegularBreakKind {
    AuthoredDashPunctuation,
    InlineBoxEdge,
    ProjectedSource(ProjectedSourceBoundary),
    Ordinary,
    ConditionalMaterial(DiscretionaryAdvance),
    Unprioritized,
}

/// Whether the candidate line fits its measure.
#[derive(Clone, Copy, Debug, PartialEq, Eq, Structural)]
pub enum LineFit {
    Fits,
    TrailingCollapsibleSpaceOverflow(SoftWrapOpportunity),
    ContentOverflow,
}

/// A saved emergency break opportunity.
#[derive(Clone, Copy, Debug, PartialEq, Eq, Structural)]
pub struct EmergencyBreakOpportunity(pub BoundarySnapshot);

/// The iteration state of the line breaker.
#[derive(Clone, Copy, Debug, PartialEq, Eq, Structural)]
pub struct BreakerState {
    /// The number of line items committed (used to revert state).
    pub items: usize,
    /// The number of lines committed (used to revert state).
    pub lines: usize,
    pub item_idx: usize,
    pub run_idx: usize,
    pub cluster_idx: usize,
    pub line: LineState,
    pub prev_boundary: Option<RegularBreakCandidate>,
    pub emergency_boundary: Option<EmergencyBreakOpportunity>,
    pub projected_source_boundary: Option<ProjectedSourceBoundary>,
    pub taken_projected_source_boundary: Option<ProjectedSourceBoundary>,
    pub last_appended_authored_unit: AuthoredBreakUnit,
    /// Consecutive committed lines ending at discretionary boundaries.
    pub consecutive_discretionary_lines: u32,
}

/// The candidate recorded for an opportunity of kind `kind` in state `st`:
/// the current line, charged with any conditional material.
pub open spec fn candidate_of(st: BreakerState, kind: RegularBreakKind) -> RegularBreakCandidate {
    let line = match kind {
        RegularBreakKind::ConditionalMaterial(DiscretionaryAdvance(a)) => LineState {
            x: crate::units::clamp_i64(st.line.x + a),
            fit_x: crate::units::clamp_i64(st.line.fit_x + a),
            discretionary_advance: a,
            discretionary_break: true,
            ..st.line
        },
        _ => st.line,
    };
    let snapshot = BoundarySnapshot { item_idx: st.item_idx, run_idx: st.run_idx, cluster_idx: st.cluster_idx, state: line };
    match kind {
        RegularBreakKind::AuthoredDashPunctuation => RegularBreakCandidate::AuthoredDashPunctuation(snapshot),
        RegularBreakKind::InlineBoxEdge => RegularBreakCandidate::InlineBoxEdge(snapshot),
        RegularBreakKind::ProjectedSource(b) => RegularBreakCandidate::ProjectedSource { snapshot, boundary: b },
        RegularBreakKind::Ordinary => RegularBreakCandidate::Ordinary(snapshot),
        RegularBreakKind::ConditionalMaterial(_) => RegularBreakCandidate::ConditionalMaterial(snapshot),
        RegularBreakKind::Unprioritized => RegularBreakCandidate::Unprioritized(snapshot),
    }
}

impl BreakerState {
    pub open spec fn initial() -> Self {
        BreakerState {
            items: 0,
            lines: 0,
            item_idx: 0,
            run_idx: 0,
            cluster_idx: 0,
            line: LineState::initial(),
            prev_boundary: None,
            emergency_boundary: None,
            projected_source_boundary: None,
            taken_projected_source_boundary: None,
            last_appended_authored_unit: AuthoredBreakUnit::Other,
            consecutive_discretionary_lines: 0,
        }
    }

    pub fn new() -> (r: Self)
        ensures
            r == Self::initial(),
    {
        BreakerState {
            items: 0,
            lines: 0,
            item_idx: 0,
            run_idx: 0,
            cluster_idx: 0,
            line: LineState::new(),
            prev_boundary: None,
            emergency_boundary: None,
            projected_source_boundary: None,
            taken_projected_source_boundary: None,
            last_appended_authored_unit: AuthoredBreakUnit::Other,
            consecutive_discretionary_lines: 0,
        }
    }

    /// Records a projected source boundary as a break candidate.
    pub fn mark_projected_source_boundary(&mut self, projection: ProjectedSourceBoundary)
        ensures
            *final(self) == (BreakerState {
                prev_boundary: Some(candidate_of(*old(self), RegularBreakKind::ProjectedSource(projection))),
                projected_source_boundary: Some(projection),
                ..*old(self)
            }),
    {
        self.mark_line_break_opportunity(RegularBreakKind::ProjectedSource(projection));
        self.projected_source_boundary = Some(projection);
    }

    /// Resumes iteration at a taken regular break.
    pub fn resume_after_regular_break(
        &mut self,
        item_idx: usize,
        run_idx: usize,
        cluster_idx: usize,
        projected_source_boundary: Option<ProjectedSourceBoundary>,
    )
        ensures
            *final(self) == (BreakerState {
                item_idx,
                run_idx,
                cluster_idx,
                taken_projected_source_boundary: projected_source_boundary,
                ..*old(self)
            }),
    {
        self.item_idx = item_idx;
        self.run_idx = run_idx;
        self.cluster_idx = cluster_idx;
        self.taken_projected_source_boundary = projected_source_boundary;
    }

    /// Adds the cluster(s) being evaluated to the current line.
    pub fn append_cluster_to_line(&mut self, next_x: i64, next_fit_x: i64, authored_break_unit: AuthoredBreakUnit)
        requires
            old(self).item_idx < usize::MAX,
            old(self).cluster_idx < usize::MAX,
        ensures
            *final(self) == (BreakerState {
                line: LineState {
                    item_end: (old(self).item_idx + 1) as usize,
                    cluster_end: (old(self).cluster_idx + 1) as usize,
                    x: next_x,
                    fit_x: next_fit_x,
                    ..old(self).line
                },
                last_appended_authored_unit: authored_break_unit,
                ..*old(self)
            }),
    {
        self.line.item_end = self.item_idx + 1;
        self.line.cluster_end = self.cluster_idx + 1;
        self.line.x = next_x;
        self.line.fit_x = next_fit_x;
        self.last_appended_authored_unit = authored_break_unit;
    }

    /// Adds an inline box to the current line.
    pub fn append_inline_box_to_line(&mut self, next_x: i64, next_fit_x: i64)
        requires
            old(self).line.item_end < usize::MAX,
        ensures
            *final(self) == (BreakerState {
                line: LineState {
                    item_end: (old(self).line.item_end + 1) as usize,
                    x: next_x,
                    fit_x: next_fit_x,
                    ..old(self).line
                },
                last_appended_authored_unit: AuthoredBreakUnit::Other,
                ..*old(self)
            }),
    {
        self.line.item_end = self.line.item_end + 1;
        self.line.x = next_x;
        self.line.fit_x = next_fit_x;
        self.last_appended_authored_unit = AuthoredBreakUnit::Other;
    }

    /// Saves the current state as the latest regular break candidate of
    /// provenance `kind`; a conditional-material break charges its advance.
    pub fn mark_line_break_opportunity(&mut self, kind: RegularBreakKind)
        ensures
            *final(self) == (BreakerState { prev_boundary: Some(candidate_of(*old(self), kind)), ..*old(self) }),
    {
        let mut state = self.line;
        if let RegularBreakKind::ConditionalMaterial(DiscretionaryAdvance(advance)) = kind {
            state.x = sat_add(state.x, advance);
            state.fit_x = sat_add(state.fit_x, advance);
            state.discretionary_advance = advance;
            state.discretionary_break = true;
        }
        let snapshot = BoundarySnapshot {
            item_idx: self.item_idx,
            run_idx: self.run_idx,
            cluster_idx: self.cluster_idx,
            state,
        };
        self.prev_boundary = Some(match kind {
            RegularBreakKind::AuthoredDashPunctuation => RegularBreakCandidate::AuthoredDashPunctuation(snapshot),
            RegularBreakKind::InlineBoxEdge => RegularBreakCandidate::InlineBoxEdge(snapshot),
            RegularBreakKind::ProjectedSource(boundary) => RegularBreakCandidate::ProjectedSource { snapshot, boundary },
            RegularBreakKind::Ordinary => RegularBreakCandidate::Ordinary(snapshot),
            RegularBreakKind::ConditionalMaterial(_) => RegularBreakCandidate::ConditionalMaterial(snapshot),
            RegularBreakKind::Unprioritized => RegularBreakCandidate::Unprioritized(snapshot),
        });
    }

    /// After an atomic box: an independent box is an ordinary opportunity, a
    /// box bound to what precedes it is an inline-box-edge opportunity, and
    /// a box bound to what follows offers none.
    pub fn mark_inline_box_break_after(&mut self, affinity: InlineBoxBreakAffinity)
        ensures
            *final(self) == match affinity {
                InlineBoxBreakAffinity::Independent => BreakerState {
                    prev_boundary: Some(candidate_of(*old(self), RegularBreakKind::Ordinary)),
                    ..*old(self)
                },
                InlineBoxBreakAffinity::ToPrevious => BreakerState {
                    prev_boundary: Some(candidate_of(*old(self), RegularBreakKind::InlineBoxEdge)),
                    ..*old(self)
                },
                _ => *old(self),
            },
    {
        match affinity {
            InlineBoxBreakAffinity::Independent => {
                self.mark_line_break_opportunity(RegularBreakKind::Ordinary);
            },
            InlineBoxBreakAffinity::ToPrevious => {
                self.mark_line_break_opportunity(RegularBreakKind::InlineBoxEdge);
            },
            InlineBoxBreakAffinity::ToNext | InlineBoxBreakAffinity::Both => {},
        }
    }

    /// Saves the current state as the emergency break candidate.
    pub fn mark_emergency_break_opportunity(&mut self)
        ensures
            *final(self) == (BreakerState {
                emergency_boundary: Some(EmergencyBreakOpportunity(BoundarySnapshot {
                    item_idx: old(self).item_idx,
                    run_idx: old(self).run_idx,
                    cluster_idx: old(self).cluster_idx,
                    state: old(self).line,
                })),
                ..*old(self)
            }),
    {
        self.emergency_boundary = Some(EmergencyBreakOpportunity(BoundarySnapshot {
            item_idx: self.item_idx,
            run_idx: self.run_idx,
            cluster_idx: self.cluster_idx,
            state: self.line,
        }));
    }
}


/// The position of the first text run in `seg`, or 0.
pub open spec fn first_text_pos(seg: Seq<crate::data::LayoutItem>) -> int
    decreases seg.len(),
{
    if seg.len() == 0 {
        0
    } else if seg[0].kind == LayoutItemKind::TextRun {
        0
    } else if exists|j: int| 0 <= j < seg.len() && (#[trigger] seg[j]).kind == LayoutItemKind::TextRun {
        1 + first_text_pos(seg.drop_first())
    } else {
        0
    }
}

/// The position of the last text run in `seg`, or 0.
pub open spec fn last_text_pos(seg: Seq<crate::data::LayoutItem>) -> int
    decreases seg.len(),
{
    if seg.len() == 0 {
        0
    } else if seg.last().kind == LayoutItemKind::TextRun {
        seg.len() - 1
    } else {
        last_text_pos(seg.drop_last())
    }
}

/// The line item that committing item `item` (at paragraph position `pos`,
/// segment position `i`) produces, if any: a box always; a text run over
/// its clusters, narrowed to the line's clusters at the first and last text
/// positions, unless that range starts at or past the run's end.
pub open spec fn committed_line_item(
    d: LayoutData,
    item: crate::data::LayoutItem,
    pos: int,
    i: int,
    first: int,
    last: int,
    cs: usize,
    ce: usize,
) -> Option<LineItemData> {
    match item.kind {
        LayoutItemKind::InlineBox => Some(LineItemData {
            kind: LayoutItemKind::InlineBox,
            index: item.index,
            bidi_level: item.bidi_level,
            layout_item_index: Some(pos as usize),
            advance: crate::inline_box::participation_width(d.inline_boxes@[item.index as int].spec_participation()),
            is_whitespace: false,
            has_trailing_whitespace: false,
            text_start: 0,
            text_end: 0,
            cluster_start: 0,
            cluster_end: 0,
        }),
        LayoutItemKind::TextRun => {
            let run = d.runs@[item.index as int];
            let start = if i == first { cs } else { item.cluster_start };
            let end = if i == last { ce } else { item.cluster_end };
            if start >= item.cluster_end {
                None
            } else {
                let fi = if start >= item.cluster_start { start } else { item.cluster_start };
                let li = if end > item.cluster_start {
                    if end - 1 < item.cluster_end { (end - 1) as usize } else { (item.cluster_end - 1) as usize }
                } else {
                    item.cluster_start
                };
                let text = if item.cluster_start == item.cluster_end {
                    (0usize, 0usize)
                } else {
                    (
                        (run.text_start + d.clusters@[fi as int].text_offset) as usize,
                        (run.text_start + d.clusters@[li as int].text_offset + d.clusters@[li as int].text_len) as usize,
                    )
                };
                Some(LineItemData {
                    kind: LayoutItemKind::TextRun,
                    index: item.index,
                    bidi_level: run.bidi_level,
                    layout_item_index: Some(pos as usize),
                    advance: 0,
                    is_whitespace: false,
                    has_trailing_whitespace: false,
                    text_start: text.0,
                    text_end: text.1,
                    cluster_start: start,
                    cluster_end: end,
                })
            }
        },
    }
}

/// The line items that committing `items[lo..lo + k]` produces.
pub open spec fn committed_line_items(d: LayoutData, lo: int, hi: int, k: int, cs: usize, ce: usize) -> Seq<LineItemData>
    decreases k,
{
    if k <= 0 {
        seq![]
    } else {
        let seg = d.items@.subrange(lo, hi);
        let prev = committed_line_items(d, lo, hi, k - 1, cs, ce);
        match committed_line_item(d, d.items@[lo + k - 1], lo + k - 1, k - 1, first_text_pos(seg), last_text_pos(seg), cs, ce) {
            Some(li) => prev.push(li),
            None => prev,
        }
    }
}

/// Line items name existing runs and inline boxes.
pub open spec fn line_items_wf(d: LayoutData, line_items: Seq<LineItemData>) -> bool {
    forall|j: int| 0 <= j < line_items.len() ==> {
        let li = #[trigger] line_items[j];
        &&& li.kind == LayoutItemKind::TextRun ==> li.index < d.runs@.len()
        &&& li.kind == LayoutItemKind::TextRun ==> li.cluster_end <= d.clusters@.len()
        &&& li.kind == LayoutItemKind::InlineBox ==> li.index < d.inline_boxes@.len()
    }
}

/// Lines cover ranges of existing line items.
pub open spec fn lines_wf(lines: Seq<LineData>, line_items: Seq<LineItemData>) -> bool {
    forall|j: int| 0 <= j < lines.len() ==> (#[trigger] lines[j]).item_start <= lines[j].item_end <= line_items.len()
}

pub fn first_text_position(d: &LayoutData, lo: usize, hi: usize) -> (r: usize)
    requires
        lo <= hi <= d.items@.len(),
    ensures
        r == first_text_pos(d.items@.subrange(lo as int, hi as int)),
{
    let ghost seg = d.items@.subrange(lo as int, hi as int);
    let mut i = lo;
    while i < hi && d.items[i].kind != LayoutItemKind::TextRun
        invariant
            lo <= i <= hi <= d.items@.len(),
            seg == d.items@.subrange(lo as int, hi as int),
            forall|j: int| lo <= j < i ==> d.items@[j].kind != LayoutItemKind::TextRun,
            first_text_pos(seg) == (i - lo) + first_text_pos(d.items@.subrange(i as int, hi as int))
                || !(exists|j: int| 0 <= j < seg.len() && (#[trigger] seg[j]).kind == LayoutItemKind::TextRun),
        decreases hi - i,
    {
        proof {
            let s2 = d.items@.subrange(i as int, hi as int);
            assert(s2[0] == d.items@[i as int]);
            assert(s2.drop_first() =~= d.items@.subrange(i + 1, hi as int));
            if exists|j: int| 0 <= j < seg.len() && (#[trigger] seg[j]).kind == LayoutItemKind::TextRun {
                let j = choose|j: int| 0 <= j < seg.len() && (#[trigger] seg[j]).kind == LayoutItemKind::TextRun;
                assert(seg[j] == d.items@[lo + j]);
                assert(s2[lo + j - i] == d.items@[lo + j]);
                assert(exists|j2: int| 0 <= j2 < s2.len() && (#[trigger] s2[j2]).kind == LayoutItemKind::TextRun);
            }
        }
        i = i + 1;
    }
    if i < hi {
        proof {
            let s2 = d.items@.subrange(i as int, hi as int);
            assert(s2[0] == d.items@[i as int]);
            assert(seg[i - lo] == d.items@[i as int]);
        }
        i - lo
    } else {
        proof {
            assert forall|j: int| 0 <= j < seg.len() implies (#[trigger] seg[j]).kind != LayoutItemKind::TextRun by {
                assert(seg[j] == d.items@[lo + j]);
            }
            lemma_first_text_pos_none(seg);
        }
        0
    }
}

/// A segment without text items has its first text position at its start.
pub proof fn lemma_first_text_pos_none(seg: Seq<crate::data::LayoutItem>)
    requires
        forall|j: int| 0 <= j < seg.len() ==> (#[trigger] seg[j]).kind != LayoutItemKind::TextRun,
    ensures
        first_text_pos(seg) == 0,
{
}

pub fn last_text_position(d: &LayoutData, lo: usize, hi: usize) -> (r: usize)
    requires
        lo <= hi <= d.items@.len(),
    ensures
        r == last_text_pos(d.items@.subrange(lo as int, hi as int)),
{
    let mut i = hi;
    while i > lo && d.items[i - 1].kind != LayoutItemKind::TextRun
        invariant
            lo <= i <= hi <= d.items@.len(),
            last_text_pos(d.items@.subrange(lo as int, hi as int)) == last_text_pos(d.items@.subrange(lo as int, i as int)),
        decreases i - lo,
    {
        assert(d.items@.subrange(lo as int, i as int).drop_last() =~= d.items@.subrange(lo as int, i - 1));
        i = i - 1;
    }
    if i > lo {
        i - 1 - lo
    } else {
        0
    }
}

/// Commits the line described by `state`: appends its line items and one
/// line record, then starts the next line's item and cluster ranges. A line
/// always commits.
#[verifier::rlimit(40)]
pub fn try_commit_line(
    layout: &Layout,
    lines: &mut Vec<LineData>,
    line_items: &mut Vec<LineItemData>,
    state: &mut LineState,
    max_advance: i64,
    break_reason: BreakReason,
    line_indent: i64,
) -> (r: bool)
    requires
        layout.data.break_wf(),
        line_items_wf(layout.data, old(line_items)@),
        lines_wf(old(lines)@, old(line_items)@),
    ensures
        r,
        line_items_wf(layout.data, final(line_items)@),
        lines_wf(final(lines)@, final(line_items)@),
        final(lines)@.len() == old(lines)@.len() + 1,
        final(lines)@.drop_last() == old(lines)@,
        ({
            let ce = if old(state).cluster_end < layout.data.clusters@.len() { old(state).cluster_end } else {
                layout.data.clusters@.len() as usize
            };
            let ie = if old(state).item_end < layout.data.items@.len() { old(state).item_end } else {
                layout.data.items@.len() as usize
            };
            let lo = if old(state).item_start <= ie { old(state).item_start } else { ie };
            &&& final(line_items)@ == old(line_items)@ + committed_line_items(layout.data, lo as int, ie as int,
                ie - lo, old(state).cluster_start, ce)
            &&& final(lines)@.last().item_start == old(line_items)@.len()
            &&& final(lines)@.last().item_end == final(line_items)@.len()
            &&& final(lines)@.last().break_reason == break_reason
            &&& final(lines)@.last().advance == old(state).x
            &&& final(lines)@.last().max_advance == max_advance
            &&& final(lines)@.last().indent == line_indent
            &&& final(lines)@.last().discretionary_advance == old(state).discretionary_advance
            &&& final(lines)@.last().ends_at_discretionary_break == old(state).discretionary_break
            &&& final(lines)@.last().selected_source_cluster_advance == old(state).selected_source_cluster_advance
            &&& final(lines)@.last().num_spaces == if break_reason == BreakReason::Regular && old(state).cluster_start < ce
                && (spec_to_whitespace(layout.data.clusters@[ce - 1].info.source_char) == Whitespace::Space
                || spec_to_whitespace(layout.data.clusters@[ce - 1].info.source_char) == Whitespace::NoBreakSpace) {
                if old(state).num_spaces > 0 { (old(state).num_spaces - 1) as usize } else { 0usize }
            } else {
                old(state).num_spaces
            }
            &&& final(lines)@.last().text_start == 0
            &&& final(lines)@.last().text_end == 0
            &&& final(lines)@.last().trailing_whitespace == 0
            &&& final(lines)@.last().offset == 0
            &&& final(state).num_spaces == 0
            &&& final(state).cluster_end == ce
            &&& final(state).item_end == ie
            &&& *final(state) == (LineState {
                num_spaces: 0,
                item_start: final(state).item_start,
                item_end: ie,
                cluster_start: final(state).cluster_start,
                cluster_end: ce,
                ..*old(state)
            })
        }),
{
    let d = &layout.data;
    if state.cluster_end > d.clusters.len() {
        state.cluster_end = d.clusters.len();
    }
    if state.item_end > d.items.len() {
        state.item_end = d.items.len();
    }
    let hi = state.item_end;
    let lo = if state.item_start <= hi { state.item_start } else { hi };
    let cs = state.cluster_start;
    let ce = state.cluster_end;
    let start_item_idx = line_items.len();
    let first_run_pos = first_text_position(d, lo, hi);
    let last_run_pos = last_text_position(d, lo, hi);
    let mut last_item_kind = LayoutItemKind::TextRun;
    let mut committed_text_run = false;
    let ghost base = line_items@;
    let mut k: usize = 0;
    while k < hi - lo
        invariant
            d == &layout.data,
            d.break_wf(),
            lo <= hi <= d.items@.len(),
            k <= hi - lo,
            first_run_pos == first_text_pos(d.items@.subrange(lo as int, hi as int)),
            last_run_pos == last_text_pos(d.items@.subrange(lo as int, hi as int)),
            line_items@ == base + committed_line_items(*d, lo as int, hi as int, k as int, cs, ce),
            line_items_wf(*d, line_items@),
            ce <= d.clusters@.len(),
        decreases hi - lo - k,
    {
        let pos = lo + k;
        let item = d.items[pos];
        assert(d.item_wf(d.items@[pos as int]));
        proof {
            let seg = d.items@.subrange(lo as int, hi as int);
        }
        match item.kind {
            LayoutItemKind::InlineBox => {
                let inline_box = &d.inline_boxes[item.index];
                line_items.push(LineItemData {
                    kind: LayoutItemKind::InlineBox,
                    index: item.index,
                    bidi_level: item.bidi_level,
                    layout_item_index: Some(pos),
                    advance: inline_box.width(),
                    is_whitespace: false,
                    has_trailing_whitespace: false,
                    text_start: 0,
                    text_end: 0,
                    cluster_start: 0,
                    cluster_end: 0,
                });
                last_item_kind = LayoutItemKind::InlineBox;
            },
            LayoutItemKind::TextRun => {
                let run = d.runs[item.index];
                let start = if k == first_run_pos { cs } else { item.cluster_start };
                let end = if k == last_run_pos { ce } else { item.cluster_end };
                if start < item.cluster_end {
                    last_item_kind = LayoutItemKind::TextRun;
                    committed_text_run = true;
                    let (text_start, text_end) = if item.cluster_start == item.cluster_end {
                        (0, 0)
                    } else {
                        let fi = if start >= item.cluster_start { start } else { item.cluster_start };
                        let li = if end > item.cluster_start {
                            if end - 1 < item.cluster_end { end - 1 } else { item.cluster_end - 1 }
                        } else {
                            item.cluster_start
                        };
                        assert(d.runs@[item.index as int].text_start + d.clusters@[fi as int].text_offset
                            + d.clusters@[fi as int].text_len <= usize::MAX);
                        assert(d.runs@[item.index as int].text_start + d.clusters@[li as int].text_offset
                            + d.clusters@[li as int].text_len <= usize::MAX);
                        let first = d.clusters[fi];
                        let last = d.clusters[li];
                        (
                            run.text_start + first.text_offset as usize,
                            run.text_start + last.text_offset as usize + last.text_len as usize,
                        )
                    };
                    line_items.push(LineItemData {
                        kind: LayoutItemKind::TextRun,
                        index: item.index,
                        bidi_level: run.bidi_level,
                        layout_item_index: Some(pos),
                        advance: 0,
                        is_whitespace: false,
                        has_trailing_whitespace: false,
                        text_start,
                        text_end,
                        cluster_start: start,
                        cluster_end: end,
                    });
                }
            },
        }
        proof {
            assert(d.items@.subrange(lo as int, hi as int).len() == hi - lo);
        }
        k = k + 1;
    }
    let mut num_spaces = state.num_spaces;
    if break_reason == BreakReason::Regular && state.cluster_start < state.cluster_end {
        let c = d.clusters[state.cluster_end - 1];
        if c.info.whitespace().is_space_or_nbsp() {
            num_spaces = num_spaces.saturating_sub(1);
        }
    }
    let end_item_idx = line_items.len();
    lines.push(LineData {
        text_start: 0,
        text_end: 0,
        item_start: start_item_idx,
        item_end: end_item_idx,
        break_reason,
        num_spaces,
        selected_source_cluster_advance: state.selected_source_cluster_advance,
        ends_at_discretionary_break: state.discretionary_break,
        advance: state.x,
        trailing_whitespace: 0,
        max_advance,
        indent: line_indent,
        discretionary_advance: state.discretionary_advance,
        offset: 0,
    });
    proof {
        assert(lines@.drop_last() =~= old(lines)@);
        assert forall|j: int| 0 <= j < lines@.len() implies (#[trigger] lines@[j]).item_start <= lines@[j].item_end
            <= line_items@.len() by {
            if j < lines@.len() - 1 {
                assert(lines@[j] == old(lines)@[j]);
            }
        }
    }
    state.num_spaces = 0;
    if committed_text_run {
        state.cluster_start = state.cluster_end;
    }
    state.item_start = match last_item_kind {
        LayoutItemKind::TextRun => state.item_end.saturating_sub(1),
        LayoutItemKind::InlineBox => state.item_end,
    };
    true
}


/// The bidi levels of line items.
pub open spec fn line_item_levels(items: Seq<LineItemData>) -> Seq<u8> {
    items.map_values(|li: LineItemData| li.bidi_level)
}

/// How line items attach for reordering: text is independent, an inline
/// box attaches as it was constructed.
pub open spec fn line_item_attachments(items: Seq<LineItemData>, boxes: Seq<InlineBox>) -> Seq<InlineBoxBidiAttachment> {
    items.map_values(|li: LineItemData| match li.kind {
        LayoutItemKind::TextRun => InlineBoxBidiAttachment::Independent,
        LayoutItemKind::InlineBox => boxes[li.index as int].spec_bidi_attachment(),
    })
}

/// The visual order of the items of one line.
pub open spec fn line_visual_order(items: Seq<LineItemData>, boxes: Seq<InlineBox>) -> Seq<usize> {
    reorder_with_attachments_spec(iota(items.len()), line_item_levels(items), line_item_attachments(items, boxes))
}

/// The items of one line, rearranged into visual order.
pub open spec fn reordered_line_items(items: Seq<LineItemData>, boxes: Seq<InlineBox>) -> Seq<LineItemData> {
    line_visual_order(items, boxes).map_values(|i: usize| items[i as int])
}

/// Reorders the items of one line into visual order by their bidi levels;
/// inline boxes move with the neighbour they attach to.
pub fn reorder_line_items(runs: &mut Vec<LineItemData>, inline_boxes: &Vec<InlineBox>)
    requires
        forall|j: int| 0 <= j < old(runs)@.len() && (#[trigger] old(runs)@[j]).kind == LayoutItemKind::InlineBox
            ==> old(runs)@[j].index < inline_boxes@.len(),
    ensures
        final(runs)@ == reordered_line_items(old(runs)@, inline_boxes@),
        final(runs)@.len() == old(runs)@.len(),
        forall|q: int| 0 <= q < old(runs)@.len() ==> (#[trigger] line_visual_order(old(runs)@, inline_boxes@)[q])
            < old(runs)@.len(),
{
    let ghost orig = runs@;
    let n = runs.len();
    let mut visual: Vec<usize> = Vec::new();
    let mut levels: Vec<u8> = Vec::new();
    let mut atts: Vec<InlineBoxBidiAttachment> = Vec::new();
    let mut i: usize = 0;
    while i < n
        invariant
            n == runs@.len(),
            runs@ == orig,
            forall|j: int| 0 <= j < orig.len() && (#[trigger] orig[j]).kind == LayoutItemKind::InlineBox
                ==> orig[j].index < inline_boxes@.len(),
            i <= n,
            visual@ =~= iota(i as nat),
            levels@ =~= line_item_levels(orig).take(i as int),
            atts@ =~= line_item_attachments(orig, inline_boxes@).take(i as int),
        decreases n - i,
    {
        let li = runs[i];
        visual.push(i);
        levels.push(li.bidi_level);
        let a = match li.kind {
            LayoutItemKind::TextRun => InlineBoxBidiAttachment::Independent,
            LayoutItemKind::InlineBox => inline_boxes[li.index].bidi_attachment(),
        };
        atts.push(a);
        i = i + 1;
    }
    assert(levels@ =~= line_item_levels(orig));
    assert(atts@ =~= line_item_attachments(orig, inline_boxes@));
    reorder_by_level_with_attachments(visual.as_mut_slice(), levels.as_slice(), atts.as_slice());
    let ghost order = visual@;
    proof {
        lemma_reorder_with_attachments_permutes(iota(n as nat), line_item_levels(orig), line_item_attachments(orig, inline_boxes@));
        assert forall|k: int| 0 <= k < order.len() implies (#[trigger] order[k]) < n by {
            broadcast use vstd::seq_lib::group_to_multiset_ensures;
            assert(order.contains(order[k]));
            assert(iota(n as nat).to_multiset().count(order[k]) > 0);
            let w = choose|w: int| 0 <= w < n && iota(n as nat)[w] == order[k];
        }
    }
    let mut reordered: Vec<LineItemData> = Vec::new();
    let mut k: usize = 0;
    while k < n
        invariant
            n == orig.len(),
            runs@ == orig,
            order.len() == n,
            visual@ == order,
            order == line_visual_order(orig, inline_boxes@),
            forall|q: int| 0 <= q < n ==> (#[trigger] order[q]) < n,
            k <= n,
            reordered@ =~= reordered_line_items(orig, inline_boxes@).take(k as int),
        decreases n - k,
    {
        let idx = visual[k];
        reordered.push(runs[idx]);
        k = k + 1;
    }
    assert(reordered@ =~= reordered_line_items(orig, inline_boxes@));
    *runs = reordered;
}


/// Iteration indices and line state that stay within the paragraph:
/// `n_items` items and `n_clusters` clusters.
pub open spec fn snapshot_wf(n_items: int, n_clusters: int, s: BoundarySnapshot) -> bool {
    &&& s.item_idx <= n_items
    &&& s.run_idx <= s.item_idx
    &&& s.cluster_idx <= n_clusters
    &&& s.state.item_end <= s.item_idx + 1
    &&& s.state.cluster_end <= n_clusters
    &&& s.state.num_spaces <= s.cluster_idx
}

/// The saved state of a break candidate.
pub open spec fn candidate_snapshot(c: RegularBreakCandidate) -> BoundarySnapshot {
    match c {
        RegularBreakCandidate::AuthoredDashPunctuation(s) => s,
        RegularBreakCandidate::InlineBoxEdge(s) => s,
        RegularBreakCandidate::ProjectedSource { snapshot, .. } => snapshot,
        RegularBreakCandidate::Ordinary(s) => s,
        RegularBreakCandidate::ConditionalMaterial(s) => s,
        RegularBreakCandidate::Unprioritized(s) => s,
    }
}

/// The current position of `st` as a snapshot.
pub open spec fn current_snapshot(st: BreakerState) -> BoundarySnapshot {
    BoundarySnapshot { item_idx: st.item_idx, run_idx: st.run_idx, cluster_idx: st.cluster_idx, state: st.line }
}

/// The breaker state and every saved candidate stay within the paragraph.
pub open spec fn state_wf(n_items: int, n_clusters: int, st: BreakerState) -> bool {
    &&& snapshot_wf(n_items, n_clusters, current_snapshot(st))
    &&& (st.prev_boundary matches Some(c) ==> snapshot_wf(n_items, n_clusters, candidate_snapshot(c)))
    &&& (st.emergency_boundary matches Some(e) ==> snapshot_wf(n_items, n_clusters, e.0))
}

/// Paragraph data, line items and lines agree.
pub open spec fn lines_data_wf(d: LayoutData, lines: Seq<LineData>, line_items: Seq<LineItemData>) -> bool {
    &&& d.break_wf()
    &&& line_items_wf(d, line_items)
    &&& lines_wf(lines, line_items)
}

/// `d2` differs from `d1` at most in the advances of clusters and glyphs.
pub open spec fn same_shape(d1: LayoutData, d2: LayoutData) -> bool {
    &&& d2.clusters@.len() == d1.clusters@.len()
    &&& d2.glyphs@.len() == d1.glyphs@.len()
    &&& d2 == (LayoutData { clusters: d2.clusters, glyphs: d2.glyphs, ..d1 })
    &&& forall|c: int| 0 <= c < d1.clusters@.len() ==> (ClusterData {
        advance: 0,
        line_break_advance: 0,
        ..#[trigger] d2.clusters@[c]
    }) == (ClusterData { advance: 0, line_break_advance: 0, ..d1.clusters@[c] })
}

/// The text indent of the line that follows `lines`.
pub open spec fn next_line_indent(d: LayoutData, lines: Seq<LineData>) -> i64 {
    let previous_break = if lines.len() == 0 { None } else { Some(lines.last().break_reason) };
    if spec_indent_applies(previous_break, d.indent_start, d.indent_options) { d.indent_amount } else { 0 }
}

/// The iteration state is at the start of a line: nothing has fit advance
/// and no candidate is recorded.
pub open spec fn at_line_start(st: BreakerState) -> bool {
    &&& st.line.fit_x == 0
    &&& st.prev_boundary is None
    &&& st.emergency_boundary is None
}

/// The position (item, then cluster) of `a` lies before that of `b`.
pub open spec fn position_before(a: BreakerState, b: BreakerState) -> bool {
    a.item_idx < b.item_idx || (a.item_idx == b.item_idx && a.cluster_idx < b.cluster_idx)
}

/// The snapshot `s` lies past the position of `a`.
pub open spec fn snapshot_after(a: BreakerState, s: BoundarySnapshot) -> bool {
    a.item_idx < s.item_idx || (a.item_idx == s.item_idx && a.cluster_idx < s.cluster_idx)
}

/// A line that started at `start` and has reached `st`: its position has
/// not gone back, it has moved on once it has fit advance, and every
/// recorded candidate lies past the start.
pub open spec fn progress_wf(start: BreakerState, st: BreakerState) -> bool {
    &&& (start.item_idx < st.item_idx || (start.item_idx == st.item_idx && start.cluster_idx <= st.cluster_idx))
    &&& (st.line.fit_x != 0 ==> position_before(start, st))
    &&& (st.prev_boundary matches Some(c) ==> snapshot_after(start, candidate_snapshot(c)))
    &&& (st.emergency_boundary matches Some(e) ==> snapshot_after(start, e.0))
}

/// Line breaking support for a paragraph.
pub struct BreakLines {
    layout: Layout,
    lines: Vec<LineData>,
    line_items: Vec<LineItemData>,
    state: BreakerState,
    prev_state: Option<BreakerState>,
    done: bool,
}

impl BreakLines {
    /// The paragraph being broken.
    pub closed spec fn spec_data(&self) -> LayoutData {
        self.layout.data
    }

    /// The lines committed so far.
    pub closed spec fn spec_lines(&self) -> Seq<LineData> {
        self.lines@
    }

    /// The items of the lines committed so far.
    pub closed spec fn spec_line_items(&self) -> Seq<LineItemData> {
        self.line_items@
    }

    /// The iteration state.
    pub closed spec fn spec_state(&self) -> BreakerState {
        self.state
    }

    /// The state before the last computed line.
    pub closed spec fn spec_prev_state(&self) -> Option<BreakerState> {
        self.prev_state
    }

    /// Whether all content has been placed into lines.
    pub closed spec fn spec_done(&self) -> bool {
        self.done
    }

    /// The breaker's invariant while a line is built: the paragraph, line
    /// items and lines agree,
    /// the iteration state counts exactly the committed lines and items, and
    /// the saved state describes a prefix of them.
    pub closed spec fn inv(&self) -> bool {
        let d = self.layout.data;
        &&& lines_data_wf(d, self.lines@, self.line_items@)
        &&& state_wf(d.items@.len() as int, d.clusters@.len() as int, self.state)
        &&& self.state.lines == self.lines@.len()
        &&& self.state.items == self.line_items@.len()
        &&& (self.prev_state matches Some(p) ==> {
            &&& state_wf(d.items@.len() as int, d.clusters@.len() as int, p)
            &&& at_line_start(p)
            &&& p.lines <= self.lines@.len()
            &&& p.items <= self.line_items@.len()
            &&& forall|j: int| 0 <= j < p.lines ==> (#[trigger] self.lines@[j]).item_end <= p.items
        })
    }

    /// The breaker's invariant between lines: `inv`, with the iteration
    /// state at the start of a line.
    pub closed spec fn wf(&self) -> bool {
        &&& self.inv()
        &&& at_line_start(self.state)
    }

    /// While a line is being built, it has advanced past the position at
    /// which it started (the saved state) once it has any fit advance, and
    /// every recorded candidate lies past that position.
    pub closed spec fn advancing(&self) -> bool {
        self.prev_state matches Some(p) ==> progress_wf(p, self.state)
    }

    /// Starts breaking `layout` into lines; any earlier lines are discarded.
    pub fn new(layout: Layout) -> (r: Self)
        requires
            layout.data.break_wf(),
        ensures
            r.wf(),
            r.spec_data() == (LayoutData {
                lines: r.spec_data().lines,
                line_items: r.spec_data().line_items,
                width: 0,
                ..layout.data
            }),
            r.spec_data().lines@ == Seq::<LineData>::empty(),
            r.spec_data().line_items@ == Seq::<LineItemData>::empty(),
            r.spec_lines() == Seq::<LineData>::empty(),
            r.spec_line_items() == Seq::<LineItemData>::empty(),
            r.spec_state() == BreakerState::initial(),
            r.spec_prev_state() is None,
            !r.spec_done(),
    {
        let mut layout = layout;
        layout.data.width = 0;
        layout.data.lines = Vec::new();
        layout.data.line_items = Vec::new();
        let r = BreakLines {
            layout,
            lines: Vec::new(),
            line_items: Vec::new(),
            state: BreakerState::new(),
            prev_state: None,
            done: false,
        };
        proof {
            assert(r.layout.data.break_wf()) by {
                let d = r.layout.data;
                assert forall|i: int| 0 <= i < d.items@.len() implies d.item_wf(#[trigger] d.items@[i]) by {
                    assert(layout.data.item_wf(layout.data.items@[i]));
                }
            }
        }
        r
    }

    /// Returns true if all the text has been placed into lines.
    pub fn is_done(&self) -> (r: bool)
        ensures
            r == self.spec_done(),
    {
        self.done
    }
}



/// The source byte at which cluster `c` of `run` starts (saturating).
pub open spec fn cluster_byte_of(run: RunData, c: ClusterData) -> usize {
    if run.text_start + c.text_offset <= usize::MAX {
        (run.text_start + c.text_offset) as usize
    } else {
        usize::MAX
    }
}

/// The advance a cluster starting at `byte` takes on a line with selection
/// `s`.
pub open spec fn resolved_advance(s: SelectedSourceClusterAdvance, byte: usize, natural: i64) -> i64 {
    if crate::data::collapses(s, byte) {
        0
    } else {
        natural
    }
}

/// `gs` with `delta` added to the last glyph of cluster `c` of `run`, where
/// the cluster owns glyphs that exist.
pub open spec fn with_last_glyph_adjusted(gs: Seq<Glyph>, run: RunData, c: ClusterData, delta: i64) -> Seq<Glyph> {
    let offset = c.glyph_offset as int;
    let len = c.glyph_len as int;
    let end = run.glyph_start + offset + len;
    if c.glyph_len != 0xFF && run.glyph_start <= usize::MAX - offset && run.glyph_start + offset <= usize::MAX - len
        && len > 0 && end <= gs.len() {
        gs.update(end - 1, Glyph { advance: clamp_i64(gs[end - 1].advance + delta), ..gs[end - 1] })
    } else {
        gs
    }
}

/// Clusters, glyphs and pen position after the tab clusters among `[c, end)`
/// of `run` get their position-dependent advance on a tab grid of spacing
/// `interval`, from pen position `x`: a tab advances to the next stop and
/// its last glyph keeps in step; every cluster moves the pen by its advance
/// on the line.
pub open spec fn tab_fixed_clusters(
    cs: Seq<ClusterData>,
    gs: Seq<Glyph>,
    run: RunData,
    interval: i64,
    s: SelectedSourceClusterAdvance,
    c: int,
    end: int,
    x: i64,
) -> (Seq<ClusterData>, Seq<Glyph>, i64)
    decreases end - c,
{
    if c >= end {
        (cs, gs, x)
    } else {
        let cl = cs[c];
        let byte = cluster_byte_of(run, cl);
        if interval > 0 && spec_to_whitespace(cl.info.source_char) == Whitespace::Tab {
            let advance = crate::units::spec_tab_advance(x, interval) as i64;
            tab_fixed_clusters(
                cs.update(c, ClusterData { advance, line_break_advance: cl.line_break_advance, ..cl }),
                with_last_glyph_adjusted(gs, run, cl, clamp_i64(advance - cl.advance)),
                run,
                interval,
                s,
                c + 1,
                end,
                clamp_i64(x + resolved_advance(s, byte, advance)),
            )
        } else {
            tab_fixed_clusters(cs, gs, run, interval, s, c + 1, end, clamp_i64(x + resolved_advance(s, byte, cl.advance)))
        }
    }
}

/// The tab interval of text line item `li`: the tab size of the style of
/// its first cluster (the default where there is none) applied to the space
/// advance of its run.
pub open spec fn item_tab_interval(d: LayoutData, cs: Seq<ClusterData>, li: LineItemData) -> i64 {
    let tab_size = if li.cluster_start < cs.len() && cs[li.cluster_start as int].style_index < d.styles@.len() {
        d.styles@[cs[li.cluster_start as int].style_index as int].tab_size
    } else {
        TabSize::Spaces(8)
    };
    tab_size.spec_interval(d.runs@[li.index as int].space_advance)
}

/// Clusters and glyphs after the tab clusters of line items `[k, end)` get
/// their position-dependent advances, from pen position `x`: inline boxes
/// move the pen by their width, text items as `tab_fixed_clusters` says.
pub open spec fn tab_fixed_items(
    d: LayoutData,
    items: Seq<LineItemData>,
    cs: Seq<ClusterData>,
    gs: Seq<Glyph>,
    s: SelectedSourceClusterAdvance,
    k: int,
    end: int,
    x: i64,
) -> (Seq<ClusterData>, Seq<Glyph>)
    decreases end - k,
{
    if k >= end {
        (cs, gs)
    } else {
        let li = items[k];
        match li.kind {
            LayoutItemKind::InlineBox => tab_fixed_items(
                d,
                items,
                cs,
                gs,
                s,
                k + 1,
                end,
                clamp_i64(x + crate::inline_box::participation_width(d.inline_boxes@[li.index as int].spec_participation())),
            ),
            LayoutItemKind::TextRun => {
                let r = tab_fixed_clusters(
                    cs,
                    gs,
                    d.runs@[li.index as int],
                    item_tab_interval(d, cs, li),
                    s,
                    li.cluster_start as int,
                    li.cluster_end as int,
                    x,
                );
                tab_fixed_items(d, items, r.0, r.1, s, k + 1, end, r.2)
            },
        }
    }
}

/// The source byte at which cluster `c` of `run` starts (saturating).
fn cluster_byte(run: &RunData, c: &ClusterData) -> (r: usize)
    ensures
        run.text_start + c.text_offset <= usize::MAX ==> r == run.text_start + c.text_offset,
        r == cluster_byte_of(*run, *c),
{
    run.text_start.saturating_add(c.text_offset as usize)
}

/// A cluster that ends the whitespace hanging at a line's end: one that is
/// not whitespace and not default-ignorable (hanging whitespace reaches
/// through default-ignorable clusters).
pub open spec fn ends_hanging_whitespace(c: ClusterData) -> bool {
    spec_to_whitespace(c.info.source_char) == Whitespace::NonWhitespace
        && !crate::unicode::default_ignorable_code_point(c.info.source_char)
}

/// The advances of the clusters from `c` up to the first cluster before
/// `end` that ends hanging whitespace, added to `acc` in that order
/// (saturating).
pub open spec fn whitespace_advance_forward(cs: Seq<ClusterData>, c: int, end: int, acc: i64) -> i64
    decreases end - c,
{
    if c >= end || ends_hanging_whitespace(cs[c]) {
        acc
    } else {
        whitespace_advance_forward(cs, c + 1, end, clamp_i64(acc + cs[c].advance))
    }
}

/// The advances of the clusters before `c`, back down to the last cluster
/// at or after `start` that ends hanging whitespace, added to `acc` in that
/// order (saturating).
pub open spec fn whitespace_advance_backward(cs: Seq<ClusterData>, start: int, c: int, acc: i64) -> i64
    decreases c - start,
{
    if c <= start || ends_hanging_whitespace(cs[c - 1]) {
        acc
    } else {
        whitespace_advance_backward(cs, start, c - 1, clamp_i64(acc + cs[c - 1].advance))
    }
}

/// The advance of the whitespace at the logical end of text line item
/// `item`: the whitespace clusters at its front for a right-to-left item, at
/// its back otherwise.
pub open spec fn trailing_whitespace_of(cs: Seq<ClusterData>, item: LineItemData) -> i64 {
    if item.bidi_level % 2 == 1 {
        whitespace_advance_forward(cs, item.cluster_start as int, item.cluster_end as int, 0)
    } else {
        whitespace_advance_backward(cs, item.cluster_start as int, item.cluster_end as int, 0)
    }
}

/// The advance of clusters `[start, c)` of `run` on a line whose selected
/// source clusters resolve by `s`, summed with saturation.
pub open spec fn resolved_cluster_sum(
    cs: Seq<ClusterData>,
    run: RunData,
    s: SelectedSourceClusterAdvance,
    start: int,
    c: int,
) -> i64
    decreases c - start,
{
    if c <= start {
        0
    } else {
        clamp_i64(
            resolved_cluster_sum(cs, run, s, start, c - 1) + resolved_advance(
                s,
                cluster_byte_of(run, cs[c - 1]),
                cs[c - 1].advance,
            ),
        )
    }
}

/// Line item `li` as a finished line holds it: a text item records whether
/// it is whitespace only and whether whitespace ends it, and takes the
/// advance of its clusters `cs`; an inline box is unchanged.
pub open spec fn finished_line_item(
    d: LayoutData,
    cs: Seq<ClusterData>,
    li: LineItemData,
    s: SelectedSourceClusterAdvance,
) -> LineItemData {
    if li.kind == LayoutItemKind::TextRun {
        let scan = trailing_scan(li, cs);
        let props = if li.cluster_start <= li.cluster_end {
            LineItemData {
                is_whitespace: forall|q: int| 0 <= q < scan.len() ==> !is_content_cluster(#[trigger] scan[q]),
                has_trailing_whitespace: li.has_trailing_whitespace || leading_space_before_content(scan),
                ..li
            }
        } else {
            li
        };
        LineItemData {
            advance: resolved_cluster_sum(
                cs,
                d.runs@[li.index as int],
                s,
                li.cluster_start as int,
                li.cluster_end as int,
            ),
            ..props
        }
    } else {
        li
    }
}

/// The items `[start, end)` of `items` as a finished line holds them.
pub open spec fn finished_line_items(
    d: LayoutData,
    cs: Seq<ClusterData>,
    items: Seq<LineItemData>,
    start: int,
    end: int,
    s: SelectedSourceClusterAdvance,
) -> Seq<LineItemData> {
    Seq::new((end - start) as nat, |i: int| finished_line_item(d, cs, items[start + i], s))
}

/// Some item among `[start, end)` has a nonzero bidi level.
pub open spec fn has_embedded_level(items: Seq<LineItemData>, start: int, end: int) -> bool {
    exists|q: int| start <= q < end && (#[trigger] items[q]).bidi_level != 0
}

/// The least text start among the text items `[k, end)`, or `usize::MAX`
/// where there is none.
pub open spec fn min_text_start(items: Seq<LineItemData>, k: int, end: int) -> usize
    decreases end - k,
{
    if k >= end {
        usize::MAX
    } else {
        let rest = min_text_start(items, k + 1, end);
        if items[k].kind == LayoutItemKind::TextRun && items[k].text_start < rest {
            items[k].text_start
        } else {
            rest
        }
    }
}

/// The greatest of `base` and the text ends of the text items `[k, end)`.
pub open spec fn max_text_end(items: Seq<LineItemData>, k: int, end: int, base: usize) -> usize
    decreases end - k,
{
    if k >= end {
        base
    } else {
        let rest = max_text_end(items, k + 1, end, base);
        if items[k].kind == LayoutItemKind::TextRun && items[k].text_end > rest {
            items[k].text_end
        } else {
            rest
        }
    }
}

impl BreakLines {
    /// The advance of the whitespace at the logical end of a text line item:
    /// from its front for a right-to-left run, from its back otherwise.
    fn trailing_whitespace_advance(&self, item: &LineItemData) -> (r: i64)
        requires
            item.cluster_end <= self.layout.data.clusters@.len(),
        ensures
            r == trailing_whitespace_of(self.layout.data.clusters@, *item),
    {
        let clusters = &self.layout.data.clusters;
        let mut sum: i64 = 0;
        if item.is_rtl() {
            let mut c = item.cluster_start;
            while c < item.cluster_end
                invariant
                    item.cluster_end <= clusters@.len(),
                    whitespace_advance_forward(clusters@, c as int, item.cluster_end as int, sum)
                        == whitespace_advance_forward(clusters@, item.cluster_start as int, item.cluster_end as int, 0),
                ensures
                    sum == whitespace_advance_forward(clusters@, item.cluster_start as int, item.cluster_end as int, 0),
                decreases item.cluster_end - c,
            {
                let cl = &clusters[c];
                if cl.info.whitespace() == Whitespace::NonWhitespace && !cl.info.is_default_ignorable() {
                    break;
                }
                sum = sat_add(sum, cl.advance);
                c = c + 1;
            }
        } else {
            let mut c = item.cluster_end;
            while c > item.cluster_start
                invariant
                    c <= item.cluster_end <= clusters@.len(),
                    whitespace_advance_backward(clusters@, item.cluster_start as int, c as int, sum)
                        == whitespace_advance_backward(clusters@, item.cluster_start as int, item.cluster_end as int, 0),
                ensures
                    sum == whitespace_advance_backward(clusters@, item.cluster_start as int, item.cluster_end as int, 0),
                decreases c,
            {
                let cl = &clusters[c - 1];
                if cl.info.whitespace() == Whitespace::NonWhitespace && !cl.info.is_default_ignorable() {
                    break;
                }
                sum = sat_add(sum, cl.advance);
                c = c - 1;
            }
        }
        sum
    }

    /// Gives each tab cluster of the line its position-dependent advance,
    /// keeping the last glyph of the cluster in step.
    fn fix_tab_advances(&mut self, line: &LineData)
        requires
            lines_data_wf(old(self).layout.data, old(self).lines@, old(self).line_items@),
            line.item_end <= old(self).line_items@.len(),
        ensures
            lines_data_wf(final(self).layout.data, final(self).lines@, final(self).line_items@),
            same_shape(old(self).layout.data, final(self).layout.data),
            final(self).lines == old(self).lines,
            final(self).line_items == old(self).line_items,
            final(self).state == old(self).state,
            final(self).prev_state == old(self).prev_state,
            final(self).done == old(self).done,
            (final(self).layout.data.clusters@, final(self).layout.data.glyphs@) == tab_fixed_items(
                old(self).layout.data,
                old(self).line_items@,
                old(self).layout.data.clusters@,
                old(self).layout.data.glyphs@,
                line.selected_source_cluster_advance,
                line.item_start as int,
                line.item_end as int,
                0,
            ),
            final(self).layout.data == (LayoutData {
                clusters: final(self).layout.data.clusters,
                glyphs: final(self).layout.data.glyphs,
                ..old(self).layout.data
            }),
    {
        let ghost d0 = self.layout.data;
        let ghost whole = tab_fixed_items(
            d0,
            self.line_items@,
            d0.clusters@,
            d0.glyphs@,
            line.selected_source_cluster_advance,
            line.item_start as int,
            line.item_end as int,
            0,
        );
        let mut line_x: i64 = 0;
        let mut k = line.item_start;
        while k < line.item_end
            invariant
                line.item_end <= self.line_items@.len(),
                lines_data_wf(self.layout.data, self.lines@, self.line_items@),
                whole == tab_fixed_items(
                    d0,
                    self.line_items@,
                    d0.clusters@,
                    d0.glyphs@,
                    line.selected_source_cluster_advance,
                    line.item_start as int,
                    line.item_end as int,
                    0,
                ),
                whole == tab_fixed_items(
                    d0,
                    self.line_items@,
                    self.layout.data.clusters@,
                    self.layout.data.glyphs@,
                    line.selected_source_cluster_advance,
                    k as int,
                    line.item_end as int,
                    line_x,
                ),
                self.layout.data == (LayoutData {
                    clusters: self.layout.data.clusters,
                    glyphs: self.layout.data.glyphs,
                    ..d0
                }),
                same_shape(d0, self.layout.data),
                self.lines == old(self).lines,
                self.line_items == old(self).line_items,
                self.state == old(self).state,
                self.prev_state == old(self).prev_state,
                self.done == old(self).done,
            decreases line.item_end - k,
        {
            let li = self.line_items[k];
            assert(line_items_wf(self.layout.data, self.line_items@));
            assert(li == self.line_items@[k as int]);
            match li.kind {
                LayoutItemKind::InlineBox => {
                    line_x = sat_add(line_x, self.layout.data.inline_boxes[li.index].width());
                },
                LayoutItemKind::TextRun => {
                    let run = self.layout.data.runs[li.index];
                    let tab_size = if li.cluster_start < self.layout.data.clusters.len() {
                        let style_index = self.layout.data.clusters[li.cluster_start].style_index as usize;
                        if style_index < self.layout.data.styles.len() {
                            self.layout.data.styles[style_index].tab_size
                        } else {
                            TabSize::default()
                        }
                    } else {
                        TabSize::default()
                    };
                    let tab_interval = tab_size.interval(run.space_advance);
                    assert(tab_interval == item_tab_interval(d0, self.layout.data.clusters@, li));
                    let ghost item_result = tab_fixed_clusters(
                        self.layout.data.clusters@,
                        self.layout.data.glyphs@,
                        run,
                        tab_interval,
                        line.selected_source_cluster_advance,
                        li.cluster_start as int,
                        li.cluster_end as int,
                        line_x,
                    );
                    let mut c = li.cluster_start;
                    while c < li.cluster_end
                        invariant
                            li.cluster_end <= self.layout.data.clusters@.len(),
                            item_result == tab_fixed_clusters(
                                self.layout.data.clusters@,
                                self.layout.data.glyphs@,
                                run,
                                tab_interval,
                                line.selected_source_cluster_advance,
                                c as int,
                                li.cluster_end as int,
                                line_x,
                            ),
                            self.layout.data == (LayoutData {
                                clusters: self.layout.data.clusters,
                                glyphs: self.layout.data.glyphs,
                                ..d0
                            }),
                            lines_data_wf(self.layout.data, self.lines@, self.line_items@),
                            same_shape(d0, self.layout.data),
                            self.lines == old(self).lines,
                            self.line_items == old(self).line_items,
                            self.state == old(self).state,
                            self.prev_state == old(self).prev_state,
                            self.done == old(self).done,
                        decreases li.cluster_end - c,
                    {
                        let cluster = self.layout.data.clusters[c];
                        let mut advance = cluster.advance;
                        if tab_interval > 0 && cluster.info.whitespace() == Whitespace::Tab {
                            let new_advance = crate::units::tab_advance(line_x, tab_interval);
                            if cluster.glyph_len != 0xFF {
                                let offset = cluster.glyph_offset as usize;
                                let len = cluster.glyph_len as usize;
                                if run.glyph_start <= usize::MAX - offset && run.glyph_start + offset <= usize::MAX - len {
                                    let start = run.glyph_start + offset;
                                    let end = start + len;
                                    if start < end && end <= self.layout.data.glyphs.len() {
                                        let delta = sat_sub(new_advance, cluster.advance);
                                        self.layout.data.add_glyph_advance(end - 1, delta);
                                    }
                                }
                            }
                            let ghost before = self.layout.data;
                            self.layout.data.set_cluster_advances(c, new_advance, cluster.line_break_advance);
                            proof {
                                assert forall|q: int| 0 <= q < d0.clusters@.len() implies (ClusterData {
                                    advance: 0,
                                    line_break_advance: 0,
                                    ..#[trigger] self.layout.data.clusters@[q]
                                }) == (ClusterData { advance: 0, line_break_advance: 0, ..d0.clusters@[q] }) by {
                                    assert(before.clusters@[q] == ClusterData { advance: before.clusters@[q].advance, line_break_advance: before.clusters@[q].line_break_advance, ..before.clusters@[q] });
                                }
                            }
                            advance = new_advance;
                        }
                        let byte = cluster_byte(&run, &cluster);
                        line_x = sat_add(line_x, line.selected_source_cluster_advance.resolve(byte, advance));
                        c = c + 1;
                    }
                    assert(item_result == (self.layout.data.clusters@, self.layout.data.glyphs@, line_x));
                },
            }
            k = k + 1;
        }
    }
}


impl BreakLines {
    /// Completes the line at `line_idx`: fixes tab advances, computes each
    /// text item's whitespace properties and advance, the line's text range
    /// and the whitespace hanging at the end of its final source item, then
    /// reorders its items visually. An empty line after a previous line
    /// takes that line's advances and an empty item at the end of the last
    /// run with text.
    fn finish_line(&mut self, line_idx: usize)
        requires
            lines_data_wf(old(self).layout.data, old(self).lines@, old(self).line_items@),
            line_idx < old(self).lines@.len(),
        ensures
            lines_data_wf(final(self).layout.data, final(self).lines@, final(self).line_items@),
            same_shape(old(self).layout.data, final(self).layout.data),
            final(self).lines@.len() == old(self).lines@.len(),
            forall|j: int| 0 <= j < old(self).lines@.len() && j != line_idx ==> #[trigger] final(self).lines@[j]
                == old(self).lines@[j],
            final(self).line_items@.len() >= old(self).line_items@.len(),
            final(self).line_items@.subrange(0, old(self).lines@[line_idx as int].item_start as int)
                == old(self).line_items@.subrange(0, old(self).lines@[line_idx as int].item_start as int),
            final(self).lines@[line_idx as int].item_start >= old(self).lines@[line_idx as int].item_start,
            ({
                let o = old(self).lines@[line_idx as int];
                let f = final(self).lines@[line_idx as int];
                &&& f == (LineData {
                    text_start: f.text_start,
                    text_end: f.text_end,
                    item_start: f.item_start,
                    item_end: f.item_end,
                    advance: f.advance,
                    trailing_whitespace: f.trailing_whitespace,
                    ..o
                })
                &&& f.advance == if o.item_start >= o.item_end && line_idx > 0 {
                    old(self).lines@[line_idx - 1].advance
                } else {
                    o.advance
                }
            }),
            ({
                let o = old(self).lines@[line_idx as int];
                let f = final(self).lines@[line_idx as int];
                let s = o.item_start as int;
                let e = o.item_end as int;
                let d0 = old(self).layout.data;
                let d = final(self).layout.data;
                let items0 = old(self).line_items@;
                let sel = o.selected_source_cluster_advance;
                let seg = finished_line_items(d, d.clusters@, items0, s, e, sel);
                &&& (d.clusters@, d.glyphs@) == tab_fixed_items(d0, items0, d0.clusters@, d0.glyphs@, sel, s, e, 0)
                &&& d == (LayoutData { clusters: d.clusters, glyphs: d.glyphs, ..d0 })
                &&& s < e ==> (f.item_start == o.item_start && f.item_end == o.item_end
                    && final(self).line_items@.len() == items0.len()
                    && final(self).line_items@.subrange(s, e) == (if has_embedded_level(items0, s, e) && e - s > 1 {
                        reordered_line_items(seg, d.inline_boxes@)
                    } else {
                        seg
                    })
                    && final(self).line_items@.subrange(e, items0.len() as int) == items0.subrange(e, items0.len() as int)
                    && f.text_start == min_text_start(items0, s, e)
                    && f.text_end == max_text_end(items0, s, e, o.text_end)
                    && f.trailing_whitespace == ({
                        let last = finished_line_item(d, d.clusters@, items0[e - 1], sel);
                        if last.kind == LayoutItemKind::TextRun && last.has_trailing_whitespace {
                            trailing_whitespace_of(d.clusters@, last)
                        } else {
                            0
                        }
                    }))
                &&& s >= e ==> (f.text_start == d.text_len && f.text_end == d.text_len
                    && f.trailing_whitespace == (if line_idx > 0 {
                        old(self).lines@[line_idx - 1].trailing_whitespace
                    } else {
                        0
                    }))
            }),
            final(self).state == old(self).state,
            final(self).prev_state == old(self).prev_state,
            final(self).done == old(self).done,
    {
        let mut line = self.lines[line_idx];
        let ghost o = line;
        let ghost items0 = self.line_items@;
        line.text_start = usize::MAX;
        if line.item_start >= line.item_end {
            line.text_start = self.layout.data.text_len;
            line.text_end = self.layout.data.text_len;
        }
        self.fix_tab_advances(&line);
        let ghost d1 = self.layout.data;
        let mut have_metrics = false;
        let mut needs_reorder = false;
        let mut k = line.item_end;
        while k > line.item_start
            invariant
                line.item_start <= k <= line.item_end <= self.line_items@.len(),
                o.item_start >= o.item_end ==> !have_metrics,
                line.item_start == o.item_start,
                line.item_end == o.item_end,
                line == (LineData { text_start: line.text_start, text_end: line.text_end, ..o }),
                self.lines@[line_idx as int] == o,
                line_idx < self.lines@.len(),
                lines_data_wf(self.layout.data, self.lines@, self.line_items@),
                self.layout.data == d1,
                self.line_items@.len() == items0.len(),
                forall|j: int| 0 <= j < k ==> #[trigger] self.line_items@[j] == items0[j],
                forall|j: int| k <= j < o.item_end ==> #[trigger] self.line_items@[j] == finished_line_item(
                    d1,
                    d1.clusters@,
                    items0[j],
                    o.selected_source_cluster_advance,
                ),
                forall|j: int| o.item_end <= j < items0.len() ==> #[trigger] self.line_items@[j] == items0[j],
                needs_reorder == has_embedded_level(items0, k as int, o.item_end as int),
                o.item_start < o.item_end ==> line.text_start == min_text_start(items0, k as int, o.item_end as int),
                o.item_start < o.item_end ==> line.text_end == max_text_end(items0, k as int, o.item_end as int, o.text_end),
                o.item_start >= o.item_end ==> line.text_start == d1.text_len && line.text_end == d1.text_len,
                self.lines == old(self).lines,
                self.state == old(self).state,
                self.prev_state == old(self).prev_state,
                self.done == old(self).done,
            decreases k,
        {
            k = k - 1;
            let mut li = self.line_items[k];
            assert(line_items_wf(self.layout.data, self.line_items@));
            assert(li == self.line_items@[k as int]);
            assert(li == items0[k as int]);
            proof {
                if needs_reorder {
                    let q = choose|q: int| k + 1 <= q < o.item_end && (#[trigger] items0[q]).bidi_level != 0;
                    assert(k <= q < o.item_end && items0[q].bidi_level != 0);
                }
                if li.bidi_level != 0 {
                    assert(k <= k < o.item_end && items0[k as int].bidi_level != 0);
                }
                if has_embedded_level(items0, k as int, o.item_end as int) && li.bidi_level == 0 {
                    let q = choose|q: int| k <= q < o.item_end && (#[trigger] items0[q]).bidi_level != 0;
                    assert(k + 1 <= q < o.item_end && items0[q].bidi_level != 0);
                }
            }
            match li.kind {
                LayoutItemKind::InlineBox => {
                    if li.bidi_level != 0 {
                        needs_reorder = true;
                    }
                    assert(finished_line_item(d1, d1.clusters@, items0[k as int], o.selected_source_cluster_advance) == li);
                    have_metrics = true;
                },
                LayoutItemKind::TextRun => {
                    if li.cluster_start <= li.cluster_end {
                        li.compute_whitespace_properties(&self.layout.data);
                    }
                    if li.text_end > line.text_end {
                        line.text_end = li.text_end;
                    }
                    if li.text_start < line.text_start {
                        line.text_start = li.text_start;
                    }
                    if li.bidi_level != 0 {
                        needs_reorder = true;
                    }
                    let run = self.layout.data.runs[li.index];
                    let mut advance: i64 = 0;
                    let mut c = li.cluster_start;
                    while c < li.cluster_end
                        invariant
                            li.cluster_end <= self.layout.data.clusters@.len(),
                            li.cluster_start <= c,
                            c <= li.cluster_end || c == li.cluster_start,
                            advance == resolved_cluster_sum(
                                self.layout.data.clusters@,
                                run,
                                line.selected_source_cluster_advance,
                                li.cluster_start as int,
                                c as int,
                            ),
                        decreases li.cluster_end - c,
                    {
                        let cluster = &self.layout.data.clusters[c];
                        let byte = cluster_byte(&run, cluster);
                        advance = sat_add(advance, line.selected_source_cluster_advance.resolve(byte, cluster.advance));
                        c = c + 1;
                    }
                    li.advance = advance;
                    assert(li == finished_line_item(d1, d1.clusters@, items0[k as int], o.selected_source_cluster_advance));
                    let ghost before = self.line_items@;
                    self.line_items.set(k, li);
                    proof {
                        assert forall|j: int| 0 <= j < self.line_items@.len() implies {
                            let x = #[trigger] self.line_items@[j];
                            &&& x.kind == LayoutItemKind::TextRun ==> x.index < self.layout.data.runs@.len()
                            &&& x.kind == LayoutItemKind::TextRun ==> x.cluster_end <= self.layout.data.clusters@.len()
                            &&& x.kind == LayoutItemKind::InlineBox ==> x.index < self.layout.data.inline_boxes@.len()
                        } by {
                            if j != k {
                                assert(self.line_items@[j] == before[j]);
                            }
                        }
                    }
                    if !have_metrics && li.is_whitespace {
                        continue;
                    }
                    have_metrics = true;
                },
            }
        }
        assert(self.line_items@.subrange(0, o.item_start as int) =~= items0.subrange(0, o.item_start as int));
        if line.item_start < line.item_end {
            let last = self.line_items[line.item_end - 1];
            assert(line_items_wf(self.layout.data, self.line_items@));
            assert(last == self.line_items@[line.item_end - 1]);
            line.trailing_whitespace = if last.is_text_run() && last.has_trailing_whitespace {
                self.trailing_whitespace_advance(&last)
            } else {
                0
            };
        } else {
            line.trailing_whitespace = 0;
        }
        let ghost seg = finished_line_items(
            d1,
            d1.clusters@,
            items0,
            o.item_start as int,
            o.item_end as int,
            o.selected_source_cluster_advance,
        );
        assert(self.line_items@.subrange(o.item_start as int, o.item_end as int) =~= seg);
        assert(self.line_items@.subrange(o.item_end as int, items0.len() as int) =~= items0.subrange(
            o.item_end as int,
            items0.len() as int,
        ));
        if needs_reorder && line.item_end - line.item_start > 1 {
            self.reorder_line_segment(line.item_start, line.item_end);
        }
        if !have_metrics && line.item_start >= line.item_end && line_idx > 0 {
            let prev = self.lines[line_idx - 1];
            line.advance = prev.advance;
            line.trailing_whitespace = prev.trailing_whitespace;
            let mut r = self.layout.data.runs.len();
            while r > 0
                invariant
                    r <= self.layout.data.runs@.len(),
                decreases r,
            {
                let run = self.layout.data.runs[r - 1];
                if run.text_start < run.text_end {
                    break;
                }
                r = r - 1;
            }
            if r > 0 {
                let index = r - 1;
                let run = self.layout.data.runs[index];
                let run_index = self.line_items.len();
                let ghost before = self.line_items@;
                assert(self.layout.data.runs_wf());
                assert(self.layout.data.runs@[index as int].cluster_end <= self.layout.data.clusters@.len());
                self.line_items.push(LineItemData {
                    kind: LayoutItemKind::TextRun,
                    index,
                    bidi_level: 0,
                    layout_item_index: None,
                    advance: 0,
                    is_whitespace: false,
                    has_trailing_whitespace: false,
                    text_start: run.text_end,
                    text_end: run.text_end,
                    cluster_start: run.cluster_end,
                    cluster_end: run.cluster_end,
                });
                proof {
                    assert forall|j: int| 0 <= j < self.line_items@.len() implies {
                        let x = #[trigger] self.line_items@[j];
                        &&& x.kind == LayoutItemKind::TextRun ==> x.index < self.layout.data.runs@.len()
                        &&& x.kind == LayoutItemKind::TextRun ==> x.cluster_end <= self.layout.data.clusters@.len()
                        &&& x.kind == LayoutItemKind::InlineBox ==> x.index < self.layout.data.inline_boxes@.len()
                    } by {
                        if j < before.len() {
                            assert(self.line_items@[j] == before[j]);
                        }
                    }
                }
                line.item_start = run_index;
                line.item_end = self.line_items.len();
            }
        }
        let ghost lines_before = self.lines@;
        self.lines.set(line_idx, line);
        proof {
            assert(self.line_items@.subrange(0, o.item_start as int) =~= items0.subrange(0, o.item_start as int));
            assert forall|j: int| 0 <= j < self.lines@.len() implies (#[trigger] self.lines@[j]).item_start
                <= self.lines@[j].item_end <= self.line_items@.len() by {
                if j != line_idx {
                    assert(self.lines@[j] == lines_before[j]);
                }
            }
        }
    }

    /// Reorders the items `[start, end)` of the committed lines visually.
    fn reorder_line_segment(&mut self, start: usize, end: usize)
        requires
            lines_data_wf(old(self).layout.data, old(self).lines@, old(self).line_items@),
            start <= end <= old(self).line_items@.len(),
        ensures
            lines_data_wf(final(self).layout.data, final(self).lines@, final(self).line_items@),
            final(self).line_items@.len() == old(self).line_items@.len(),
            final(self).line_items@.subrange(0, start as int) == old(self).line_items@.subrange(0, start as int),
            final(self).line_items@.subrange(start as int, end as int) == reordered_line_items(
                old(self).line_items@.subrange(start as int, end as int),
                old(self).layout.data.inline_boxes@,
            ),
            final(self).line_items@.subrange(end as int, old(self).line_items@.len() as int)
                == old(self).line_items@.subrange(end as int, old(self).line_items@.len() as int),
            final(self).layout == old(self).layout,
            final(self).lines == old(self).lines,
            final(self).state == old(self).state,
            final(self).prev_state == old(self).prev_state,
            final(self).done == old(self).done,
    {
        let ghost orig = self.line_items@;
        let mut seg: Vec<LineItemData> = Vec::new();
        let mut k = start;
        while k < end
            invariant
                start <= k <= end <= orig.len(),
                self.line_items@ == orig,
                seg@ =~= orig.subrange(start as int, k as int),
            decreases end - k,
        {
            seg.push(self.line_items[k]);
            k = k + 1;
        }
        let ghost seg0 = seg@;
        proof {
            assert(line_items_wf(self.layout.data, orig));
            assert forall|j: int| 0 <= j < seg0.len() && (#[trigger] seg0[j]).kind == LayoutItemKind::InlineBox
                implies seg0[j].index < self.layout.data.inline_boxes@.len() by {
                assert(seg0[j] == orig[start + j]);
            }
        }
        reorder_line_items(&mut seg, &self.layout.data.inline_boxes);
        let ghost order = line_visual_order(seg0, self.layout.data.inline_boxes@);
        let mut q: usize = 0;
        while q < end - start
            invariant
                start <= end <= orig.len(),
                seg@.len() == end - start,
                seg0.len() == end - start,
                seg@ == reordered_line_items(seg0, self.layout.data.inline_boxes@),
                forall|i: int| 0 <= i < seg0.len() ==> (#[trigger] order[i]) < seg0.len(),
                order == line_visual_order(seg0, self.layout.data.inline_boxes@),
                seg0 == orig.subrange(start as int, end as int),
                self.line_items@.len() == orig.len(),
                q <= end - start,
                forall|j: int| 0 <= j < orig.len() && !(start <= j < start + q) ==> #[trigger] self.line_items@[j] == orig[j],
                forall|j: int| start <= j < start + q ==> #[trigger] self.line_items@[j] == seg@[j - start],
                self.layout == old(self).layout,
                self.lines == old(self).lines,
                self.state == old(self).state,
                self.prev_state == old(self).prev_state,
                self.done == old(self).done,
            decreases end - start - q,
        {
            self.line_items.set(start + q, seg[q]);
            q = q + 1;
        }
        proof {
            assert(self.line_items@.subrange(0, start as int) =~= orig.subrange(0, start as int));
            assert(self.line_items@.subrange(start as int, end as int) =~= seg@);
            assert(self.line_items@.subrange(end as int, orig.len() as int) =~= orig.subrange(end as int, orig.len() as int));
            assert(line_items_wf(self.layout.data, orig));
            assert forall|j: int| 0 <= j < self.line_items@.len() implies {
                let x = #[trigger] self.line_items@[j];
                &&& x.kind == LayoutItemKind::TextRun ==> x.index < self.layout.data.runs@.len()
                &&& x.kind == LayoutItemKind::TextRun ==> x.cluster_end <= self.layout.data.clusters@.len()
                &&& x.kind == LayoutItemKind::InlineBox ==> x.index < self.layout.data.inline_boxes@.len()
            } by {
                if start <= j < end {
                    let i = j - start;
                    assert(seg@[i] == seg0[order[i] as int]);
                    assert(seg0[order[i] as int] == orig[start + order[i]]);
                } else {
                    assert(self.line_items@[j] == orig[j]);
                }
            }
        }
    }
}


/// `d3` differs from `d1` at most in cluster and glyph advances when `d2`
/// does so from `d1` and `d3` from `d2`.
pub proof fn lemma_same_shape_trans(d1: LayoutData, d2: LayoutData, d3: LayoutData)
    requires
        same_shape(d1, d2),
        same_shape(d2, d3),
    ensures
        same_shape(d1, d3),
{
    assert forall|c: int| 0 <= c < d1.clusters@.len() implies (ClusterData {
        advance: 0,
        line_break_advance: 0,
        ..#[trigger] d3.clusters@[c]
    }) == (ClusterData { advance: 0, line_break_advance: 0, ..d1.clusters@[c] }) by {
        assert((ClusterData { advance: 0, line_break_advance: 0, ..d2.clusters@[c] })
            == (ClusterData { advance: 0, line_break_advance: 0, ..d1.clusters@[c] }));
    }
}

impl BreakLines {
    /// `self` continues the line that `start` was building: nothing has been
    /// committed since, and the paragraph differs at most in advances.
    pub closed spec fn in_progress_from(&self, start: BreakLines) -> bool {
        &&& self.inv()
        &&& self.advancing()
        &&& !self.done
        &&& self.lines@ == start.lines@
        &&& self.line_items@ == start.line_items@
        &&& self.prev_state == start.prev_state
        &&& same_shape(start.layout.data, self.layout.data)
    }

    /// `self` results from `start` by committing exactly one line, with
    /// measure `max_advance` and indent `indent`, whose advance is `res`.
    pub closed spec fn committed_from(
        &self,
        start: BreakLines,
        res: Option<i64>,
        max_advance: i64,
        indent: i64,
    ) -> bool {
        &&& self.wf()
        &&& res == Some(self.lines@.last().advance)
        &&& self.lines@.len() == start.lines@.len() + 1
        &&& self.lines@.subrange(0, start.lines@.len() as int) == start.lines@
        &&& self.line_items@.len() >= start.line_items@.len()
        &&& self.line_items@.subrange(0, start.line_items@.len() as int) == start.line_items@
        &&& self.lines@.last().item_start >= start.line_items@.len()
        &&& self.lines@.last().indent == indent
        &&& self.lines@.last().max_advance == max_advance
        &&& (self.done <==> self.lines@.last().break_reason == BreakReason::Unbroken)
        &&& self.prev_state == start.prev_state
        &&& same_shape(start.layout.data, self.layout.data)
        &&& (start.prev_state matches Some(p) ==> position_before(p, self.state))
    }

    /// The text indent of the next line.
    fn resolve_indent(&self) -> (r: i64)
        ensures
            r == next_line_indent(self.layout.data, self.lines@),
    {
        let previous_break = if self.lines.len() == 0 {
            None
        } else {
            Some(self.lines[self.lines.len() - 1].break_reason)
        };
        if indent_applies(previous_break, self.layout.data.indent_start, self.layout.data.indent_options) {
            self.layout.data.indent_amount
        } else {
            0
        }
    }

    /// Resets the line state after a line has been committed, completes
    /// that line and reports its advance.
    fn start_new_line(&mut self) -> (r: Option<i64>)
        requires
            lines_data_wf(old(self).layout.data, old(self).lines@, old(self).line_items@),
            old(self).lines@.len() >= 1,
            snapshot_wf(
                old(self).layout.data.items@.len() as int,
                old(self).layout.data.clusters@.len() as int,
                current_snapshot(old(self).state),
            ),
            old(self).prev_state matches Some(p) ==> {
                &&& state_wf(old(self).layout.data.items@.len() as int, old(self).layout.data.clusters@.len() as int, p)
                &&& at_line_start(p)
                &&& p.lines < old(self).lines@.len()
                &&& p.items <= old(self).line_items@.len()
                &&& forall|j: int| 0 <= j < p.lines ==> (#[trigger] old(self).lines@[j]).item_end <= p.items
            },
        ensures
            final(self).wf(),
            r == Some(final(self).lines@.last().advance),
            same_shape(old(self).layout.data, final(self).layout.data),
            final(self).lines@.len() == old(self).lines@.len(),
            final(self).lines@.subrange(0, old(self).lines@.len() - 1) == old(self).lines@.subrange(
                0,
                old(self).lines@.len() - 1,
            ),
            final(self).line_items@.len() >= old(self).line_items@.len(),
            final(self).line_items@.subrange(0, old(self).lines@.last().item_start as int)
                == old(self).line_items@.subrange(0, old(self).lines@.last().item_start as int),
            final(self).lines@.last().item_start >= old(self).lines@.last().item_start,
            ({
                let o = old(self).lines@.last();
                let f = final(self).lines@.last();
                f == (LineData {
                    text_start: f.text_start,
                    text_end: f.text_end,
                    item_start: f.item_start,
                    item_end: f.item_end,
                    advance: f.advance,
                    trailing_whitespace: f.trailing_whitespace,
                    ..o
                })
            }),
            final(self).prev_state == old(self).prev_state,
            final(self).done == old(self).done,
            final(self).state == (BreakerState {
                items: final(self).line_items@.len() as usize,
                lines: final(self).lines@.len() as usize,
                line: LineState {
                    x: 0,
                    fit_x: 0,
                    discretionary_advance: 0,
                    discretionary_break: false,
                    selected_source_cluster_advance: match old(self).state.taken_projected_source_boundary {
                        Some(b) => match b {
                            ProjectedSourceBoundary::AcrossCollapsibleSpace {
                                edge_byte_index,
                                source_byte_index,
                                following_source_space: crate::inline_box::FollowingSourceSpace::CollapsedAfterProjectedBreak,
                            } => SelectedSourceClusterAdvance::Collapsed { start: edge_byte_index, end: source_byte_index },
                            _ => SelectedSourceClusterAdvance::Natural,
                        },
                        None => SelectedSourceClusterAdvance::Natural,
                    },
                    ..old(self).state.line
                },
                prev_boundary: None,
                emergency_boundary: None,
                last_appended_authored_unit: AuthoredBreakUnit::Other,
                consecutive_discretionary_lines: if old(self).state.line.discretionary_break {
                    if old(self).state.consecutive_discretionary_lines == u32::MAX {
                        u32::MAX
                    } else {
                        (old(self).state.consecutive_discretionary_lines + 1) as u32
                    }
                } else {
                    0
                },
                ..old(self).state
            }),
    {
        let ended_at_discretionary = self.state.line.discretionary_break;
        self.state.line.x = 0;
        self.state.line.fit_x = 0;
        self.state.line.discretionary_advance = 0;
        self.state.line.discretionary_break = false;
        self.state.prev_boundary = None;
        self.state.emergency_boundary = None;
        self.state.last_appended_authored_unit = AuthoredBreakUnit::Other;
        self.state.line.selected_source_cluster_advance = match self.state.taken_projected_source_boundary {
            Some(boundary) => boundary.selected_source_cluster_advance(),
            None => SelectedSourceClusterAdvance::default(),
        };
        self.state.consecutive_discretionary_lines = if ended_at_discretionary {
            self.state.consecutive_discretionary_lines.saturating_add(1)
        } else {
            0
        };
        let n = self.lines.len();
        let ghost before = self.lines@;
        self.finish_line(n - 1);
        self.state.items = self.line_items.len();
        self.state.lines = self.lines.len();
        proof {
            assert(self.lines@.subrange(0, n - 1) =~= before.subrange(0, n - 1)) by {
                assert forall|j: int| 0 <= j < n - 1 implies self.lines@[j] == before[j] by {}
            }
            if let Some(p) = self.prev_state {
                assert forall|j: int| 0 <= j < p.lines implies (#[trigger] self.lines@[j]).item_end <= p.items by {
                    assert(self.lines@[j] == before[j]);
                }
            }
        }
        Some(self.lines[n - 1].advance)
    }
}


/// The space and no-break-space clusters at the end of `[start, c)`,
/// scanned backward from `c`: the index where they begin, and their
/// advances, line-break advances and number added to `advance`, `fit` and
/// `count` (saturating).
pub open spec fn trailing_spaces(
    cs: Seq<ClusterData>,
    start: int,
    c: int,
    advance: i64,
    fit: i64,
    count: nat,
) -> (int, i64, i64, nat)
    decreases c - start,
{
    if c <= start || !(spec_to_whitespace(cs[c - 1].info.source_char) == Whitespace::Space
        || spec_to_whitespace(cs[c - 1].info.source_char) == Whitespace::NoBreakSpace) {
        (c, advance, fit, count)
    } else {
        trailing_spaces(
            cs,
            start,
            c - 1,
            clamp_i64(advance + cs[c - 1].advance),
            clamp_i64(fit + cs[c - 1].line_break_advance),
            count + 1,
        )
    }
}

/// `cs` with the clusters in `[from, to)` given zero advance and zero
/// line-break advance.
pub open spec fn with_zero_advances(cs: Seq<ClusterData>, from: int, to: int) -> Seq<ClusterData> {
    Seq::new(
        cs.len(),
        |q: int|
            if from <= q < to {
                ClusterData { advance: 0, line_break_advance: 0, ..cs[q] }
            } else {
                cs[q]
            },
    )
}

/// The end of the clusters of the current line of `st`, within `d`.
pub open spec fn line_cluster_end(d: LayoutData, st: BreakerState) -> int {
    if st.line.cluster_end < d.clusters@.len() {
        st.line.cluster_end as int
    } else {
        d.clusters@.len() as int
    }
}

impl BreakLines {
    /// When reclaiming is enabled and the line ends in spaces whose removal
    /// lets a box of `box_width` fit within `max_advance`, gives those
    /// clusters zero advance, shrinks the line and returns the reclaimed
    /// advance.
    fn reclaim_trailing_space_for_box(&mut self, box_width: i64, max_advance: i64) -> (r: Option<i64>)
        requires
            old(self).advancing(),
            old(self).prev_state matches Some(p) ==> position_before(p, old(self).state),
            old(self).inv(),
        ensures
            final(self).advancing(),
            final(self).inv(),
            same_shape(old(self).layout.data, final(self).layout.data),
            final(self).lines == old(self).lines,
            final(self).line_items == old(self).line_items,
            final(self).prev_state == old(self).prev_state,
            final(self).done == old(self).done,
            r is None ==> final(self).layout.data == old(self).layout.data && final(self).state == old(self).state,
            !old(self).layout.data.reclaim_space_before_inline_box ==> r is None,
            r is Some ==> final(self).state == (BreakerState {
                line: LineState {
                    x: final(self).state.line.x,
                    fit_x: final(self).state.line.fit_x,
                    num_spaces: final(self).state.line.num_spaces,
                    ..old(self).state.line
                },
                ..old(self).state
            }),
            r is Some ==> final(self).state.line.num_spaces <= old(self).state.line.num_spaces,
            ({
                let d = old(self).layout.data;
                let line = old(self).state.line;
                let end = line_cluster_end(d, old(self).state);
                let (idx, reclaimed, fit, spaces) = trailing_spaces(d.clusters@, line.cluster_start as int, end, 0, 0, 0);
                &&& (r is Some <==> d.reclaim_space_before_inline_box && reclaimed > 0 && clamp_i64(
                    clamp_i64(line.fit_x - fit) + box_width,
                ) <= max_advance)
                &&& r is Some ==> {
                    &&& r == Some(reclaimed)
                    &&& final(self).layout.data.clusters@ == with_zero_advances(d.clusters@, idx, end)
                    &&& final(self).layout.data == (LayoutData { clusters: final(self).layout.data.clusters, ..d })
                    &&& final(self).state.line.x == clamp_i64(line.x - reclaimed)
                    &&& final(self).state.line.fit_x == clamp_i64(line.fit_x - fit)
                    &&& final(self).state.line.num_spaces == if line.num_spaces >= spaces {
                        (line.num_spaces - spaces) as usize
                    } else {
                        0usize
                    }
                }
            }),
    {
        if !self.layout.data.reclaim_space_before_inline_box {
            return None;
        }
        let cluster_start = self.state.line.cluster_start;
        let end = if self.state.line.cluster_end < self.layout.data.clusters.len() {
            self.state.line.cluster_end
        } else {
            self.layout.data.clusters.len()
        };
        let mut idx = end;
        let mut reclaimed: i64 = 0;
        let mut reclaimed_fit: i64 = 0;
        let mut spaces: usize = 0;
        while idx > cluster_start
            invariant
                idx <= end <= self.layout.data.clusters@.len(),
                spaces <= end - idx,
                trailing_spaces(self.layout.data.clusters@, cluster_start as int, idx as int, reclaimed, reclaimed_fit, spaces as nat)
                    == trailing_spaces(self.layout.data.clusters@, cluster_start as int, end as int, 0, 0, 0),
            ensures
                idx <= end,
                spaces <= end - idx,
                trailing_spaces(self.layout.data.clusters@, cluster_start as int, end as int, 0, 0, 0)
                    == (idx as int, reclaimed, reclaimed_fit, spaces as nat),
            decreases idx,
        {
            let cluster = &self.layout.data.clusters[idx - 1];
            if cluster.info.whitespace().is_space_or_nbsp() {
                reclaimed = sat_add(reclaimed, cluster.advance);
                reclaimed_fit = sat_add(reclaimed_fit, cluster.line_break_advance);
                spaces = spaces + 1;
                idx = idx - 1;
            } else {
                break;
            }
        }
        if reclaimed <= 0 || !(sat_add(sat_sub(self.state.line.fit_x, reclaimed_fit), box_width) <= max_advance) {
            return None;
        }
        let ghost d0 = self.layout.data;
        let mut c = idx;
        while c < end
            invariant
                idx <= c <= end <= self.layout.data.clusters@.len(),
                self.inv(),
                same_shape(d0, self.layout.data),
                self.layout.data.clusters@ == with_zero_advances(d0.clusters@, idx as int, c as int),
                self.layout.data == (LayoutData { clusters: self.layout.data.clusters, ..d0 }),
                self.lines == old(self).lines,
                self.line_items == old(self).line_items,
                self.prev_state == old(self).prev_state,
                self.done == old(self).done,
                self.state == old(self).state,
            decreases end - c,
        {
            let ghost before = self.layout.data;
            self.layout.data.set_cluster_advances(c, 0, 0);
            assert(self.layout.data.clusters@ =~= with_zero_advances(d0.clusters@, idx as int, c + 1));
            proof {
                assert forall|q: int| 0 <= q < d0.clusters@.len() implies (ClusterData {
                    advance: 0,
                    line_break_advance: 0,
                    ..#[trigger] self.layout.data.clusters@[q]
                }) == (ClusterData { advance: 0, line_break_advance: 0, ..d0.clusters@[q] }) by {
                    assert((ClusterData { advance: 0, line_break_advance: 0, ..before.clusters@[q] })
                        == (ClusterData { advance: 0, line_break_advance: 0, ..d0.clusters@[q] }));
                }
            }
            c = c + 1;
        }
        self.state.line.x = sat_sub(self.state.line.x, reclaimed);
        self.state.line.fit_x = sat_sub(self.state.line.fit_x, reclaimed_fit);
        self.state.line.num_spaces = self.state.line.num_spaces.saturating_sub(spaces);
        Some(reclaimed)
    }

    /// Handles the inline box at the current item. Returns the committed
    /// line's advance when the box does not fit and the line breaks before
    /// it; otherwise places the box on the current line. A transparent
    /// anchor never breaks the line nor adds a candidate; a logical owner
    /// edge never breaks the line, and the only candidate it adds is the
    /// projection of a source boundary; an atomic box that fits stays.
    fn process_inline_box(&mut self, max_advance: i64, line_indent: i64) -> (r: Option<Option<i64>>)
        requires
            old(self).advancing(),
            old(self).inv(),
            !old(self).done,
            old(self).state.item_idx < old(self).layout.data.items@.len(),
            old(self).layout.data.items@[old(self).state.item_idx as int].kind == LayoutItemKind::InlineBox,
        ensures
            r is None ==> final(self).in_progress_from(*old(self)) && final(self).state.item_idx
                == old(self).state.item_idx + 1,
            r matches Some(res) ==> final(self).committed_from(*old(self), res, max_advance, line_indent)
                && final(self).lines@.last().break_reason == BreakReason::Regular,
            ({
                let d = old(self).layout.data;
                let bx = d.inline_boxes@[d.items@[old(self).state.item_idx as int].index as int];
                let st0 = old(self).state;
                let st1 = final(self).state;
                let fit = clamp_i64(st0.line.fit_x + crate::inline_box::participation_width(bx.spec_participation()));
                match crate::inline_box::spec_line_break_participation(bx.spec_participation()) {
                    InlineBoxLineBreakParticipation::TransparentAnchor => r is None && st1.prev_boundary
                        == st0.prev_boundary && st1.emergency_boundary == st0.emergency_boundary && st1.line.fit_x
                        == st0.line.fit_x,
                    InlineBoxLineBreakParticipation::LogicalOwnerEdge(_) => r is None && st1.emergency_boundary
                        == st0.emergency_boundary && (st1.prev_boundary == st0.prev_boundary
                        || st1.prev_boundary matches Some(RegularBreakCandidate::ProjectedSource { .. }))
                        && st1.line.fit_x == fit,
                    InlineBoxLineBreakParticipation::Atomic(_) => fit <= max_advance ==> r is None && st1.line.fit_x
                        == fit,
                }
            }),
            max_advance == i64::MAX ==> r is None,
    {
        let item = self.layout.data.items[self.state.item_idx];
        assert(self.layout.data.item_wf(self.layout.data.items@[self.state.item_idx as int]));
        let inline_box = self.layout.data.inline_boxes[item.index];
        let width = inline_box.width();
        let break_affinity = match inline_box.line_break_participation() {
            InlineBoxLineBreakParticipation::Atomic(break_affinity) => break_affinity,
            InlineBoxLineBreakParticipation::LogicalOwnerEdge(edge) => {
                let source_projection = edge.source_projection(width);
                let boundary = self.layout.data.source_soft_wrap_boundary_after(
                    self.state.item_idx,
                    inline_box.index(),
                    edge,
                );
                let projection = boundary.projection_from(inline_box.index(), edge.following_source_space());
                let project = match projection {
                    Some(p) => {
                        self.state.line.fit_x != 0
                            && source_projection != LogicalInlineEdgeSourceProjection::Absent
                            && (source_projection == LogicalInlineEdgeSourceProjection::AfterGeometry
                                || match self.state.projected_source_boundary {
                                Some(q) => q.target() != p.target(),
                                None => true,
                            })
                            && boundary.is_available_from(self.state.line.text_wrap_mode)
                    },
                    None => false,
                };
                if source_projection == LogicalInlineEdgeSourceProjection::BeforeGeometry && project {
                    if let Some(p) = projection {
                        self.state.mark_projected_source_boundary(p);
                    }
                }
                self.state.item_idx = self.state.item_idx + 1;
                self.state.append_inline_box_to_line(
                    sat_add(self.state.line.x, width),
                    sat_add(self.state.line.fit_x, width),
                );
                if source_projection == LogicalInlineEdgeSourceProjection::AfterGeometry && project {
                    if let Some(p) = projection {
                        self.state.mark_projected_source_boundary(p);
                    }
                }
                return None;
            },
            InlineBoxLineBreakParticipation::TransparentAnchor => {
                self.state.item_idx = self.state.item_idx + 1;
                self.state.append_inline_box_to_line(self.state.line.x, self.state.line.fit_x);
                return None;
            },
        };
        let next_x = sat_add(self.state.line.x, width);
        let next_fit_x = sat_add(self.state.line.fit_x, width);
        if next_fit_x <= max_advance || self.state.line.text_wrap_mode != TextWrapMode::Wrap {
            // A box that fits, or any box while not wrapping, stays on the line.
            self.state.item_idx = self.state.item_idx + 1;
            self.state.append_inline_box_to_line(next_x, next_fit_x);
            self.state.mark_inline_box_break_after(break_affinity);
            None
        } else if self.state.line.fit_x == 0 {
            // At the start of a line the box never fits: accept the overflow.
            self.state.item_idx = self.state.item_idx + 1;
            self.state.append_inline_box_to_line(next_x, next_fit_x);
            self.state.mark_inline_box_break_after(break_affinity);
            None
        } else if !break_affinity.allows_break_before() {
            // No break exists before a box glued to the preceding content.
            self.state.item_idx = self.state.item_idx + 1;
            self.state.append_inline_box_to_line(next_x, next_fit_x);
            self.state.mark_inline_box_break_after(break_affinity);
            None
        } else {
            let ghost before = *self;
            match self.reclaim_trailing_space_for_box(width, max_advance) {
                Some(_) => {
                    let next_x = sat_add(self.state.line.x, width);
                    let next_fit_x = sat_add(self.state.line.fit_x, width);
                    self.state.item_idx = self.state.item_idx + 1;
                    self.state.append_inline_box_to_line(next_x, next_fit_x);
                    self.state.mark_inline_box_break_after(break_affinity);
                    None
                },
                None => {
                    self.commit_line(max_advance, BreakReason::Regular, line_indent);
                    Some(self.start_new_line())
                },
            }
        }
    }
}


impl BreakLines {
    /// Commits the current line with `break_reason`.
    fn commit_line(&mut self, max_advance: i64, break_reason: BreakReason, line_indent: i64)
        requires
            lines_data_wf(old(self).layout.data, old(self).lines@, old(self).line_items@),
            old(self).prev_state matches Some(p) ==> {
                &&& state_wf(old(self).layout.data.items@.len() as int, old(self).layout.data.clusters@.len() as int, p)
                &&& at_line_start(p)
                &&& p.lines <= old(self).lines@.len()
                &&& p.items <= old(self).line_items@.len()
                &&& forall|j: int| 0 <= j < p.lines ==> (#[trigger] old(self).lines@[j]).item_end <= p.items
            },
        ensures
            lines_data_wf(final(self).layout.data, final(self).lines@, final(self).line_items@),
            final(self).prev_state matches Some(p) ==> {
                &&& state_wf(final(self).layout.data.items@.len() as int, final(self).layout.data.clusters@.len() as int, p)
                &&& at_line_start(p)
                &&& p.lines < final(self).lines@.len()
                &&& p.items <= final(self).line_items@.len()
                &&& forall|j: int| 0 <= j < p.lines ==> (#[trigger] final(self).lines@[j]).item_end <= p.items
            },
            final(self).lines@.len() == old(self).lines@.len() + 1,
            final(self).lines@.drop_last() == old(self).lines@,
            final(self).line_items@.len() >= old(self).line_items@.len(),
            final(self).line_items@.subrange(0, old(self).line_items@.len() as int) == old(self).line_items@,
            final(self).lines@.last().item_start == old(self).line_items@.len(),
            final(self).lines@.last().break_reason == break_reason,
            final(self).lines@.last().max_advance == max_advance,
            final(self).lines@.last().indent == line_indent,
            final(self).layout == old(self).layout,
            final(self).prev_state == old(self).prev_state,
            final(self).done == old(self).done,
            final(self).state == (BreakerState {
                line: LineState {
                    num_spaces: 0,
                    item_start: final(self).state.line.item_start,
                    item_end: final(self).state.line.item_end,
                    cluster_start: final(self).state.line.cluster_start,
                    cluster_end: final(self).state.line.cluster_end,
                    ..old(self).state.line
                },
                ..old(self).state
            }),
            final(self).state.line.item_end <= old(self).state.line.item_end,
            final(self).state.line.cluster_end <= old(self).layout.data.clusters@.len(),
    {
        let ghost before = self.lines@;
        let ghost items_before = self.line_items@;
        try_commit_line(
            &self.layout,
            &mut self.lines,
            &mut self.line_items,
            &mut self.state.line,
            max_advance,
            break_reason,
            line_indent,
        );
        proof {
            assert(self.line_items@.subrange(0, items_before.len() as int) =~= items_before);
            if let Some(p) = self.prev_state {
                assert forall|j: int| 0 <= j < p.lines implies (#[trigger] self.lines@[j]).item_end <= p.items by {
                    assert(self.lines@[j] == self.lines@.drop_last()[j]);
                }
            }
        }
    }
}



/// What placing a cluster needs to know about it once its boundary has
/// been recorded.
#[derive(Clone, Copy)]
struct ClusterStep {
    whitespace: Whitespace,
    is_space: bool,
    projected_source_cluster: ProjectedSourceClusterParticipation,
    style_wrap_mode: TextWrapMode,
    tab_size: TabSize,
    authored_break_unit: AuthoredBreakUnit,
    /// The cluster is a newline that ends the line explicitly.
    explicit_break: bool,
}

/// The fit advance of a ligature whose start is cluster `c`: `acc`, then
/// the break advance of each component that follows it before `end`.
pub open spec fn ligature_fit_advance(cs: Seq<ClusterData>, c: int, end: int, acc: i64) -> i64
    decreases end - c,
{
    if c + 1 < end && cs[c + 1].flags & crate::data::LIGATURE_COMPONENT != 0 {
        ligature_fit_advance(cs, c + 1, end, clamp_i64(acc + cs[c + 1].line_break_advance))
    } else {
        acc
    }
}

/// The fit position of the line once the cluster at `st` of `run` is
/// placed: a tab reaches the next stop of its grid, a ligature start brings
/// its components, and a collapsed source space adds nothing.
spec fn cluster_fit_x(d: LayoutData, st: BreakerState, run: RunData, step: ClusterStep) -> i64 {
    let cs = d.clusters@;
    let cl = cs[st.cluster_idx as int];
    let advance: int = if step.whitespace == Whitespace::Tab {
        let interval = step.tab_size.spec_interval(run.space_advance);
        if interval > 0 {
            crate::units::spec_tab_advance(st.line.fit_x, interval)
        } else {
            0
        }
    } else {
        let base = match step.projected_source_cluster {
            ProjectedSourceClusterParticipation::Normal => cl.line_break_advance,
            ProjectedSourceClusterParticipation::CollapsedSourceSpace => 0i64,
        };
        if cl.flags & crate::data::LIGATURE_START != 0 {
            ligature_fit_advance(cs, st.cluster_idx as int, run.cluster_end as int, base) as int
        } else {
            base as int
        }
    };
    clamp_i64(st.line.fit_x + advance)
}

/// Whether the current item of `st` is a text item, `run` is its run
/// restricted to the item's clusters, and the current cluster lies inside
/// them.
pub open spec fn at_run_cluster(d: LayoutData, st: BreakerState, run: RunData) -> bool {
    let item = d.items@[st.item_idx as int];
    &&& st.item_idx < d.items@.len()
    &&& item.kind == LayoutItemKind::TextRun
    &&& run == (RunData {
        cluster_start: item.cluster_start,
        cluster_end: item.cluster_end,
        ..d.runs@[item.index as int]
    })
    &&& run.cluster_start <= st.cluster_idx < run.cluster_end
}

/// Whether the boundary before a cluster offers a soft break opportunity:
/// an override decides where there is one, else a Unicode line boundary.
pub open spec fn soft_break_opportunity(boundary: Boundary, o: Option<LineBreakOverrideDisposition>) -> bool {
    match o {
        Some(LineBreakOverrideDisposition::Suppress) => false,
        Some(_) => true,
        None => boundary == Boundary::Line,
    }
}

/// Whether an override marks an opportunity that source resolution already
/// settled.
pub open spec fn resolved_source_override(o: Option<LineBreakOverrideDisposition>) -> bool {
    o == Some(LineBreakOverrideDisposition::ResolvedCollapsedSourceOpportunity) || o == Some(
        LineBreakOverrideDisposition::ResolvedRetainedSourceOpportunity,
    )
}

/// A projected boundary once the flow has reached source byte `byte`: gone
/// when its target is at or before that byte.
pub open spec fn projection_after(p: Option<ProjectedSourceBoundary>, byte: usize) -> Option<ProjectedSourceBoundary> {
    match p {
        Some(b) => if crate::data::spec_target(b) <= byte {
            None
        } else {
            p
        },
        None => None,
    }
}

/// How a cluster at source byte `byte` takes part on a line selected at the
/// taken projected boundary `p`.
pub open spec fn projected_participation(p: Option<ProjectedSourceBoundary>, byte: usize) -> ProjectedSourceClusterParticipation {
    match p {
        Some(b) => if crate::data::collapses_traversed_space(b) && match b {
            ProjectedSourceBoundary::AcrossCollapsibleSpace { edge_byte_index, source_byte_index, .. } =>
                edge_byte_index <= byte < source_byte_index,
            _ => false,
        } {
            ProjectedSourceClusterParticipation::CollapsedSourceSpace
        } else {
            ProjectedSourceClusterParticipation::Normal
        },
        None => ProjectedSourceClusterParticipation::Normal,
    }
}

/// The kind of regular break candidate recorded at a soft opportunity:
/// unprioritized for an anywhere policy or override, none where suppressed,
/// conditional material for a discretionary break whose consecutive-line
/// limit allows it and whose material fits (or overflows with no earlier
/// candidate to fall back on), unprioritized under break-all,
/// else ordinary or after authored dash punctuation.
pub open spec fn regular_candidate_kind(
    policy: SoftBreakPolicy,
    o: Option<LineBreakOverrideDisposition>,
    discretionary: Option<DiscretionaryBreak>,
    st: BreakerState,
    max_advance: i64,
) -> Option<RegularBreakKind> {
    if policy == SoftBreakPolicy::Anywhere {
        Some(RegularBreakKind::Unprioritized)
    } else if o == Some(LineBreakOverrideDisposition::UnprioritizedOpportunity) {
        Some(RegularBreakKind::Unprioritized)
    } else if o == Some(LineBreakOverrideDisposition::Suppress) {
        None
    } else if discretionary is Some {
        let entry = discretionary->0;
        let limit_allows = match entry.max_consecutive_lines {
            None => true,
            Some(limit) => st.consecutive_discretionary_lines < limit,
        };
        if limit_allows && (clamp_i64(st.line.fit_x + entry.advance) <= max_advance || st.prev_boundary is None) {
            Some(RegularBreakKind::ConditionalMaterial(DiscretionaryAdvance(entry.advance)))
        } else {
            None
        }
    } else if policy == SoftBreakPolicy::Unicode(WordBreak::BreakAll) {
        Some(RegularBreakKind::Unprioritized)
    } else if st.last_appended_authored_unit == AuthoredBreakUnit::DashPunctuation {
        Some(RegularBreakKind::AuthoredDashPunctuation)
    } else {
        Some(RegularBreakKind::Ordinary)
    }
}

/// The source byte of the current cluster of `run`.
pub open spec fn current_byte(d: LayoutData, st: BreakerState, run: RunData) -> usize {
    (run.text_start + d.clusters@[st.cluster_idx as int].text_offset) as usize
}

/// The state once the flow reaches the current cluster of `run`: the wrap
/// mode and break policy become the cluster's (they lag one cluster behind
/// the boundaries they decide), and projected boundaries reached are
/// dropped.
pub open spec fn entered_cluster(d: LayoutData, st: BreakerState, run: RunData) -> BreakerState {
    let cluster = d.clusters@[st.cluster_idx as int];
    let style = d.styles@[cluster.style_index as int];
    let byte = current_byte(d, st, run);
    BreakerState {
        line: LineState {
            text_wrap_mode: style.text_wrap_mode,
            soft_break_policy: style.soft_break_policy,
            ..st.line
        },
        projected_source_boundary: projection_after(st.projected_source_boundary, byte),
        taken_projected_source_boundary: projection_after(st.taken_projected_source_boundary, byte),
        ..st
    }
}

/// Whether the boundary before the current cluster is a soft opportunity
/// that is not projected away and that may wrap under the previous wrap mode.
pub open spec fn takes_soft_opportunity(d: LayoutData, st: BreakerState, run: RunData) -> bool {
    let cluster = d.clusters@[st.cluster_idx as int];
    let byte = current_byte(d, st, run);
    let o = crate::data::override_at(d.line_break_overrides@, byte);
    let was_projected = match st.projected_source_boundary {
        Some(p) => crate::data::spec_suppresses(p, byte),
        None => false,
    };
    soft_break_opportunity(cluster.info.boundary, o) && !was_projected && (resolved_source_override(o)
        || st.line.text_wrap_mode == TextWrapMode::Wrap)
}

/// A character boundary between two clusters that both do not wrap is no
/// opportunity: unless an override settles it as a resolved source
/// boundary, the breaker takes no soft opportunity there, whatever the
/// analyser or an inline edge around it says.
pub proof fn lemma_no_wrap_boundary_is_unavailable(d: LayoutData, st: BreakerState, run: RunData)
    requires
        st.line.text_wrap_mode == TextWrapMode::NoWrap,
        d.styles@[d.clusters@[st.cluster_idx as int].style_index as int].text_wrap_mode == TextWrapMode::NoWrap,
        !resolved_source_override(crate::data::override_at(d.line_break_overrides@, current_byte(d, st, run))),
    ensures
        !takes_soft_opportunity(d, st, run),
{
}

/// The state after the boundary before the current cluster of `run` is
/// recorded: a soft opportunity records a regular candidate (not inside a
/// ligature, not at the start of a line); otherwise, unless the cluster is a
/// newline, text that may overflow-wrap records an emergency opportunity.
#[verifier::opaque]
pub open spec fn recorded_boundary_state(d: LayoutData, st: BreakerState, run: RunData, max_advance: i64) -> BreakerState {
    let cluster = d.clusters@[st.cluster_idx as int];
    let ligature_continuation = cluster.flags & crate::data::LIGATURE_COMPONENT != 0;
    let byte = current_byte(d, st, run);
    let style = d.styles@[cluster.style_index as int];
    let entered = entered_cluster(d, st, run);
    if takes_soft_opportunity(d, st, run) {
        if !ligature_continuation && st.line.fit_x != 0 {
            match regular_candidate_kind(
                st.line.soft_break_policy,
                crate::data::override_at(d.line_break_overrides@, byte),
                crate::data::discretionary_at(d.discretionary_breaks@, byte),
                entered,
                max_advance,
            ) {
                Some(kind) => BreakerState { prev_boundary: Some(candidate_of(entered, kind)), ..entered },
                None => entered,
            }
        } else {
            entered
        }
    } else if spec_to_whitespace(cluster.info.source_char) == Whitespace::Newline {
        entered
    } else if style.overflow_wrap != OverflowWrap::Normal && !ligature_continuation && st.line.text_wrap_mode
        == TextWrapMode::Wrap && st.line.fit_x != 0 {
        BreakerState {
            emergency_boundary: Some(
                EmergencyBreakOpportunity(
                    BoundarySnapshot {
                        item_idx: entered.item_idx,
                        run_idx: entered.run_idx,
                        cluster_idx: entered.cluster_idx,
                        state: entered.line,
                    },
                ),
            ),
            ..entered
        }
    } else {
        entered
    }
}

/// What placing the current cluster of `run` needs to know about it: its
/// whitespace class, how it takes part on a line selected at a taken
/// projected boundary, its style's wrap mode and tab size, its authored unit,
/// and whether it is a newline that ends the line explicitly.
spec fn recorded_boundary_step(d: LayoutData, st: BreakerState, run: RunData) -> ClusterStep {
    let cluster = d.clusters@[st.cluster_idx as int];
    let whitespace = spec_to_whitespace(cluster.info.source_char);
    let style = d.styles@[cluster.style_index as int];
    ClusterStep {
        whitespace,
        is_space: whitespace == Whitespace::Space || whitespace == Whitespace::NoBreakSpace,
        projected_source_cluster: projected_participation(st.taken_projected_source_boundary, current_byte(d, st, run)),
        style_wrap_mode: style.text_wrap_mode,
        tab_size: style.tab_size,
        authored_break_unit: cluster.info.authored_break_unit,
        explicit_break: !takes_soft_opportunity(d, st, run) && whitespace == Whitespace::Newline,
    }
}

/// The kind of regular break candidate to record at a soft opportunity;
/// see `regular_candidate_kind`.
fn regular_break_kind(
    soft_break_policy: SoftBreakPolicy,
    boundary_override: Option<LineBreakOverrideDisposition>,
    discretionary: Option<DiscretionaryBreak>,
    state: &BreakerState,
    max_advance: i64,
) -> (r: Option<RegularBreakKind>)
    ensures
        r == regular_candidate_kind(soft_break_policy, boundary_override, discretionary, *state, max_advance),
{
    match (soft_break_policy, boundary_override, discretionary) {
        (SoftBreakPolicy::Anywhere, _, _) => Some(RegularBreakKind::Unprioritized),
        (_, Some(LineBreakOverrideDisposition::UnprioritizedOpportunity), _) => Some(RegularBreakKind::Unprioritized),
        (_, Some(LineBreakOverrideDisposition::Suppress), _) => None,
        (_, _, Some(entry)) => {
            let consecutive_limit_allows = match entry.max_consecutive_lines {
                None => true,
                Some(limit) => state.consecutive_discretionary_lines < limit,
            };
            // Material that overflows is still taken where no earlier
            // candidate exists: the alternative is the whole word overflowing.
            if consecutive_limit_allows && (sat_add(state.line.fit_x, entry.advance) <= max_advance
                || state.prev_boundary.is_none()) {
                Some(RegularBreakKind::ConditionalMaterial(DiscretionaryAdvance(entry.advance)))
            } else {
                None
            }
        },
        (SoftBreakPolicy::Unicode(WordBreak::BreakAll), _, None) => Some(RegularBreakKind::Unprioritized),
        (SoftBreakPolicy::Unicode(_), _, None) => Some(
            match state.last_appended_authored_unit {
                AuthoredBreakUnit::DashPunctuation => RegularBreakKind::AuthoredDashPunctuation,
                AuthoredBreakUnit::Other => RegularBreakKind::Ordinary,
            },
        ),
    }
}

impl BreakLines {
    /// Reads the current cluster of `run`, lags the wrap mode and
    /// break policy by one cluster, settles projected boundaries at its byte
    /// and records the break opportunity before it (a regular candidate, or
    /// an emergency one for text that may overflow-wrap).
    #[verifier::rlimit(100)]
    #[verifier::spinoff_prover]
    fn record_cluster_boundary(&mut self, max_advance: i64, run: RunData) -> (r: ClusterStep)
        requires
            old(self).advancing(),
            old(self).inv(),
            !old(self).done,
            at_run_cluster(old(self).layout.data, old(self).state, run),
        ensures
            final(self).advancing(),
            final(self).inv(),
            final(self).layout == old(self).layout,
            final(self).lines == old(self).lines,
            final(self).line_items == old(self).line_items,
            final(self).prev_state == old(self).prev_state,
            final(self).done == old(self).done,
            final(self).state == (BreakerState {
                line: LineState {
                    text_wrap_mode: final(self).state.line.text_wrap_mode,
                    soft_break_policy: final(self).state.line.soft_break_policy,
                    ..old(self).state.line
                },
                prev_boundary: final(self).state.prev_boundary,
                emergency_boundary: final(self).state.emergency_boundary,
                projected_source_boundary: final(self).state.projected_source_boundary,
                taken_projected_source_boundary: final(self).state.taken_projected_source_boundary,
                ..old(self).state
            }),
            final(self).state == recorded_boundary_state(old(self).layout.data, old(self).state, run, max_advance),
            r == recorded_boundary_step(old(self).layout.data, old(self).state, run),
    {
        let ghost d = self.layout.data;
        let ghost st0 = self.state;
        proof {
            assert(d.item_wf(d.items@[self.state.item_idx as int]));
            let c = self.state.cluster_idx as int;
            assert(run.cluster_end <= d.clusters@.len());
            assert(d.clusters@[c].style_index < d.styles@.len());
            assert(run.text_start + d.clusters@[c].text_offset + d.clusters@[c].text_len <= usize::MAX);
        }
        let cluster = self.layout.data.clusters[self.state.cluster_idx];
        let is_ligature_continuation = cluster.is_ligature_component();
        let whitespace = cluster.info.whitespace();
        let is_newline = whitespace == Whitespace::Newline;
        let is_space = whitespace.is_space_or_nbsp();
        let boundary = cluster.info.boundary();
        let byte_index = run.text_start + cluster.text_offset as usize;
        let boundary_override = crate::data::find_override(&self.layout.data.line_break_overrides, byte_index);
        let style = self.layout.data.styles[cluster.style_index as usize];

        // Boundaries are seen one cluster late: the style of the previous
        // cluster decides whether the boundary before this one wraps.
        let text_wrap_mode = self.state.line.text_wrap_mode;
        self.state.line.text_wrap_mode = style.text_wrap_mode;
        let soft_break_policy = self.state.line.soft_break_policy;
        self.state.line.soft_break_policy = style.soft_break_policy;

        let has_soft_break_opportunity = match boundary_override {
            Some(LineBreakOverrideDisposition::Suppress) => false,
            Some(_) => true,
            None => boundary == Boundary::Line,
        };
        let projected_source_cluster = match self.state.taken_projected_source_boundary {
            Some(projection) => projection.cluster_participation(byte_index),
            None => ProjectedSourceClusterParticipation::Normal,
        };
        let source_boundary_was_projected = match self.state.projected_source_boundary {
            Some(projection) => projection.suppresses(byte_index),
            None => false,
        };
        if let Some(projection) = self.state.projected_source_boundary {
            if projection.target() <= byte_index {
                self.state.projected_source_boundary = None;
            }
        }
        if let Some(projection) = self.state.taken_projected_source_boundary {
            if projection.target() <= byte_index {
                self.state.taken_projected_source_boundary = None;
            }
        }
        assert(self.state == entered_cluster(d, st0, run));
        let resolved_source_opportunity = match boundary_override {
            Some(LineBreakOverrideDisposition::ResolvedCollapsedSourceOpportunity) => true,
            Some(LineBreakOverrideDisposition::ResolvedRetainedSourceOpportunity) => true,
            _ => false,
        };

        let mut explicit_break = false;
        let takes = has_soft_break_opportunity && !source_boundary_was_projected && (resolved_source_opportunity
            || text_wrap_mode == TextWrapMode::Wrap);
        assert(takes == takes_soft_opportunity(d, st0, run));
        let ghost entered = self.state;
        if takes {
            // No boundary inside a ligature, and none at the start of a line:
            // overflowing content must not cause consecutive empty breaks.
            if !is_ligature_continuation && self.state.line.fit_x != 0 {
                let discretionary = crate::data::find_discretionary(&self.layout.data.discretionary_breaks, byte_index);
                let candidate_kind = regular_break_kind(soft_break_policy, boundary_override, discretionary, &self.state, max_advance);
                if let Some(candidate_kind) = candidate_kind {
                    self.state.mark_line_break_opportunity(candidate_kind);
                }
            }
            assert(self.state == recorded_boundary_state(d, st0, run, max_advance)) by {
                reveal(recorded_boundary_state);
            }
        } else if is_newline {
            explicit_break = true;
            assert(self.state == recorded_boundary_state(d, st0, run, max_advance)) by {
                reveal(recorded_boundary_state);
            }
        } else if style.overflow_wrap != OverflowWrap::Normal && !is_ligature_continuation && text_wrap_mode
            == TextWrapMode::Wrap && self.state.line.fit_x != 0 {
            // Text that may overflow-wrap supplies an emergency break; at the
            // start of a line the cluster never fits, so there is none.
            self.state.mark_emergency_break_opportunity();
            assert(self.state == recorded_boundary_state(d, st0, run, max_advance)) by {
                reveal(recorded_boundary_state);
            }
        } else {
            assert(self.state == recorded_boundary_state(d, st0, run, max_advance)) by {
                reveal(recorded_boundary_state);
            }
        }
        ClusterStep {
            whitespace,
            is_space,
            projected_source_cluster,
            style_wrap_mode: style.text_wrap_mode,
            tab_size: style.tab_size,
            authored_break_unit: cluster.info.authored_break_unit(),
            explicit_break,
        }
    }

    /// Handles the cluster at the current position of the text run `run`:
    /// records break opportunities before it, then places it on the line or,
    /// when it overflows, commits the line at the best recorded candidate.
    /// Returns the committed line's advance when a line was committed.
    fn process_cluster(&mut self, max_advance: i64, line_indent: i64, run: RunData) -> (r: Option<Option<i64>>)
        requires
            old(self).advancing(),
            old(self).inv(),
            !old(self).done,
            at_run_cluster(old(self).layout.data, old(self).state, run),
        ensures
            r is None ==> {
                &&& final(self).in_progress_from(*old(self))
                &&& old(self).state.cluster_idx < final(self).state.cluster_idx <= run.cluster_end
                &&& final(self).state.item_idx == old(self).state.item_idx
                &&& final(self).state.run_idx == old(self).state.run_idx
            },
            r matches Some(res) ==> final(self).committed_from(*old(self), res, max_advance, line_indent)
                && final(self).lines@.last().break_reason != BreakReason::Unbroken,
            max_advance == i64::MAX && r is Some ==> final(self).lines@.last().break_reason == BreakReason::Explicit,
    {
        let step = self.record_cluster_boundary(max_advance, run);
        if step.explicit_break {
            self.state.append_cluster_to_line(self.state.line.x, self.state.line.fit_x, step.authored_break_unit);
            self.commit_line(max_advance, BreakReason::Explicit, line_indent);
            self.state.cluster_idx = self.state.cluster_idx + 1;
            return Some(self.start_new_line());
        }
        self.place_cluster(max_advance, line_indent, run, step)
    }

    /// Places the current cluster of `run`, and any ligature continuation,
    /// on the line, or commits the line when it overflows.
    #[verifier::rlimit(40)]
    fn place_cluster(&mut self, max_advance: i64, line_indent: i64, run: RunData, step: ClusterStep) -> (r: Option<
        Option<i64>,
    >)
        requires
            old(self).advancing(),
            old(self).inv(),
            !old(self).done,
            at_run_cluster(old(self).layout.data, old(self).state, run),
        ensures
            r is None ==> {
                &&& final(self).in_progress_from(*old(self))
                &&& old(self).state.cluster_idx < final(self).state.cluster_idx <= run.cluster_end
                &&& final(self).state.item_idx == old(self).state.item_idx
                &&& final(self).state.run_idx == old(self).state.run_idx
            },
            r matches Some(res) ==> final(self).committed_from(*old(self), res, max_advance, line_indent)
                && final(self).lines@.last().break_reason != BreakReason::Unbroken,
            r is None ==> final(self).state.line.fit_x <= max_advance || (old(self).state.prev_boundary is None
                && old(self).state.emergency_boundary is None),
            old(self).state.prev_boundary is None && old(self).state.emergency_boundary is None && !(step.whitespace
                == Whitespace::Space && step.style_wrap_mode == TextWrapMode::Wrap) ==> r is None,
            cluster_fit_x(old(self).layout.data, old(self).state, run, step) <= max_advance ==> r is None
                && final(self).state.line.fit_x == cluster_fit_x(old(self).layout.data, old(self).state, run, step),
            cluster_fit_x(old(self).layout.data, old(self).state, run, step) > max_advance ==> (r is None <==> (
            old(self).state.prev_boundary is None && old(self).state.emergency_boundary is None && !(step.whitespace
                == Whitespace::Space && step.style_wrap_mode == TextWrapMode::Wrap))),
    {
        proof {
            let d = self.layout.data;
            assert(d.item_wf(d.items@[self.state.item_idx as int]));
            assert(d.runs_wf());
            assert(run.cluster_end <= d.clusters@.len());
        }
        let cluster = self.layout.data.clusters[self.state.cluster_idx];
        let (mut advance, mut fit_advance) = match step.projected_source_cluster {
            ProjectedSourceClusterParticipation::Normal => (cluster.advance, cluster.line_break_advance),
            ProjectedSourceClusterParticipation::CollapsedSourceSpace => (0i64, 0i64),
        };
        // A ligature start takes the clusters that continue the ligature.
        let ghost st0 = self.state;
        let ghost fit0 = fit_advance;
        if cluster.is_ligature_start() {
            while self.state.cluster_idx + 1 < run.cluster_end
                invariant
                    ligature_fit_advance(self.layout.data.clusters@, self.state.cluster_idx as int, run.cluster_end as int, fit_advance)
                        == ligature_fit_advance(self.layout.data.clusters@, st0.cluster_idx as int, run.cluster_end as int, fit0),
                    self.inv(),
                    !self.done,
                    run.cluster_end <= self.layout.data.clusters@.len(),
                    old(self).state.cluster_idx <= self.state.cluster_idx < run.cluster_end,
                    self.state == (BreakerState { cluster_idx: self.state.cluster_idx, ..st0 }),
                    self.layout == old(self).layout,
                    self.lines == old(self).lines,
                    self.line_items == old(self).line_items,
                    self.prev_state == old(self).prev_state,
                ensures
                    ligature_fit_advance(self.layout.data.clusters@, self.state.cluster_idx as int, run.cluster_end as int, fit_advance)
                        == fit_advance,
                decreases run.cluster_end - self.state.cluster_idx,
            {
                let next = self.layout.data.clusters[self.state.cluster_idx + 1];
                if !next.is_ligature_component() {
                    break;
                }
                advance = sat_add(advance, next.advance);
                fit_advance = sat_add(fit_advance, next.line_break_advance);
                self.state.cluster_idx = self.state.cluster_idx + 1;
            }
        }
        // A tab advances to the next stop of its grid.
        if step.whitespace == Whitespace::Tab {
            let tab_interval = step.tab_size.interval(run.space_advance);
            if tab_interval > 0 {
                advance = crate::units::tab_advance(self.state.line.x, tab_interval);
                fit_advance = crate::units::tab_advance(self.state.line.fit_x, tab_interval);
            } else {
                advance = 0;
                fit_advance = 0;
            }
        }
        let next_x = sat_add(self.state.line.x, advance);
        let next_fit_x = sat_add(self.state.line.fit_x, fit_advance);
        assert(next_fit_x == cluster_fit_x(old(self).layout.data, old(self).state, run, step));
        let line_fit = if next_fit_x <= max_advance {
            LineFit::Fits
        } else {
            match OverflowingWhitespace::classify(step.whitespace, step.style_wrap_mode) {
                OverflowingWhitespace::CollapsibleSoftWrap(opportunity) => LineFit::TrailingCollapsibleSpaceOverflow(
                    opportunity,
                ),
                OverflowingWhitespace::NoBreakGlue | OverflowingWhitespace::Other => LineFit::ContentOverflow,
            }
        };
        match line_fit {
            LineFit::Fits => {
                self.state.append_cluster_to_line(next_x, next_fit_x, step.authored_break_unit);
                self.state.cluster_idx = self.state.cluster_idx + 1;
                if step.is_space && step.projected_source_cluster == ProjectedSourceClusterParticipation::Normal {
                    self.state.line.num_spaces = self.state.line.num_spaces + 1;
                }
                None
            },
            LineFit::TrailingCollapsibleSpaceOverflow(_) => self.break_at_overflowing_space(
                max_advance,
                line_indent,
                next_x,
                next_fit_x,
                step.authored_break_unit,
                run,
            ),
            LineFit::ContentOverflow => self.break_at_overflowing_content(
                max_advance,
                line_indent,
                next_x,
                next_fit_x,
                step.authored_break_unit,
                run,
            ),
        }
    }

    /// A collapsible space overflows. Priority composition selects an
    /// authored dash candidate before this later separator, and an inline-box
    /// edge or projected source candidate is taken; otherwise the complete
    /// fitting word stays and the space hangs at the end of the line.
    fn break_at_overflowing_space(
        &mut self,
        max_advance: i64,
        line_indent: i64,
        next_x: i64,
        next_fit_x: i64,
        authored_break_unit: AuthoredBreakUnit,
        run: RunData,
    ) -> (r: Option<Option<i64>>)
        requires
            old(self).advancing(),
            old(self).inv(),
            !old(self).done,
            old(self).state.item_idx < old(self).layout.data.items@.len(),
            old(self).state.cluster_idx < run.cluster_end <= old(self).layout.data.clusters@.len(),
        ensures
            r is Some,
            r matches Some(res) && final(self).committed_from(*old(self), res, max_advance, line_indent)
                && final(self).lines@.last().break_reason == BreakReason::Regular,
    {
        let priority = self.layout.data.normal_soft_wrap_selection == NormalSoftWrapSelection::PriorityClasses;
        match self.state.prev_boundary {
            Some(RegularBreakCandidate::AuthoredDashPunctuation(prev)) if priority => {
                self.state.prev_boundary = None;
                self.state.line = prev.state;
                self.commit_line(max_advance, BreakReason::Regular, line_indent);
                self.state.resume_after_regular_break(prev.item_idx, prev.run_idx, prev.cluster_idx, None);
                Some(self.start_new_line())
            },
            Some(RegularBreakCandidate::InlineBoxEdge(prev)) => {
                self.state.prev_boundary = None;
                self.state.line = prev.state;
                self.commit_line(max_advance, BreakReason::Regular, line_indent);
                self.state.resume_after_regular_break(prev.item_idx, prev.run_idx, prev.cluster_idx, None);
                Some(self.start_new_line())
            },
            Some(RegularBreakCandidate::ProjectedSource { snapshot: prev, boundary }) => {
                self.state.prev_boundary = None;
                self.state.line = prev.state;
                self.commit_line(max_advance, BreakReason::Regular, line_indent);
                self.state.resume_after_regular_break(prev.item_idx, prev.run_idx, prev.cluster_idx, Some(boundary));
                Some(self.start_new_line())
            },
            _ => {
                self.state.append_cluster_to_line(next_x, next_fit_x, authored_break_unit);
                self.commit_line(max_advance, BreakReason::Regular, line_indent);
                self.state.cluster_idx = self.state.cluster_idx + 1;
                Some(self.start_new_line())
            },
        }
    }

    /// Content overflows: the most recent regular candidate is taken,
    /// whatever its provenance, else the emergency candidate; with neither,
    /// the cluster overflows the line.
    fn break_at_overflowing_content(
        &mut self,
        max_advance: i64,
        line_indent: i64,
        next_x: i64,
        next_fit_x: i64,
        authored_break_unit: AuthoredBreakUnit,
        run: RunData,
    ) -> (r: Option<Option<i64>>)
        requires
            old(self).advancing(),
            old(self).inv(),
            !old(self).done,
            old(self).state.item_idx < old(self).layout.data.items@.len(),
            old(self).state.cluster_idx < run.cluster_end <= old(self).layout.data.clusters@.len(),
        ensures
            r is None ==> {
                &&& final(self).in_progress_from(*old(self))
                &&& final(self).state.cluster_idx == old(self).state.cluster_idx + 1
                &&& final(self).state.item_idx == old(self).state.item_idx
                &&& final(self).state.run_idx == old(self).state.run_idx
            },
            r matches Some(res) ==> final(self).committed_from(*old(self), res, max_advance, line_indent)
                && final(self).lines@.last().break_reason != BreakReason::Unbroken,
            r is None <==> old(self).state.prev_boundary is None && old(self).state.emergency_boundary is None,
            r is None ==> final(self).state.line.fit_x == next_fit_x,
    {
        if let Some(candidate) = self.state.prev_boundary {
            self.state.prev_boundary = None;
            let (prev, projected_source_boundary) = candidate.into_snapshot();
            self.state.line = prev.state;
            self.commit_line(max_advance, BreakReason::Regular, line_indent);
            self.state.resume_after_regular_break(prev.item_idx, prev.run_idx, prev.cluster_idx, projected_source_boundary);
            Some(self.start_new_line())
        } else if let Some(prev_emergency) = self.state.emergency_boundary {
            self.state.emergency_boundary = None;
            let prev = prev_emergency.0;
            self.state.line = prev.state;
            self.commit_line(max_advance, BreakReason::Emergency, line_indent);
            self.state.item_idx = prev.item_idx;
            self.state.run_idx = prev.run_idx;
            self.state.cluster_idx = prev.cluster_idx;
            Some(self.start_new_line())
        } else {
            self.state.append_cluster_to_line(next_x, next_fit_x, authored_break_unit);
            self.state.cluster_idx = self.state.cluster_idx + 1;
            None
        }
    }
}


/// The measure of the next line: unbounded for a layout with neither text
/// nor inline boxes, else `max_advance`, less the line's indent.
pub open spec fn effective_max_advance(d: LayoutData, max_advance: i64, indent: i64) -> i64 {
    let m = if d.text_len == 0 && d.inline_boxes@.len() == 0 { i64::MAX } else { max_advance };
    crate::units::clamp_i64(m - indent)
}

impl BreakLines {
    /// Handles the clusters of the text item at the current position that
    /// are not yet placed. Returns the committed line's advance when a line was
    /// committed; otherwise moves on to the next item.
    fn process_text_run(&mut self, max_advance: i64, line_indent: i64) -> (r: Option<Option<i64>>)
        requires
            old(self).advancing(),
            old(self).inv(),
            !old(self).done,
            old(self).state.item_idx < old(self).layout.data.items@.len(),
            old(self).layout.data.items@[old(self).state.item_idx as int].kind == LayoutItemKind::TextRun,
        ensures
            r is None ==> final(self).in_progress_from(*old(self)) && final(self).state.item_idx
                == old(self).state.item_idx + 1,
            r matches Some(res) ==> final(self).committed_from(*old(self), res, max_advance, line_indent)
                && final(self).lines@.last().break_reason != BreakReason::Unbroken,
            max_advance == i64::MAX && r is Some ==> final(self).lines@.last().break_reason == BreakReason::Explicit,
    {
        let ghost start = *self;
        let item = self.layout.data.items[self.state.item_idx];
        proof {
            let d = self.layout.data;
            assert(d.item_wf(d.items@[self.state.item_idx as int]));
            assert(d.runs_wf());
        }
        let run = RunData {
            cluster_start: item.cluster_start,
            cluster_end: item.cluster_end,
            ..self.layout.data.runs[item.index]
        };
        // Consecutive text items adjoin in the cluster sequence, so the
        // position never trails the item's first cluster; start there
        // otherwise.
        if self.state.cluster_idx < run.cluster_start {
            self.state.cluster_idx = run.cluster_start;
        }
        let ghost item_idx = self.state.item_idx;
        let ghost run_idx = self.state.run_idx;
        while self.state.cluster_idx < run.cluster_end
            invariant
                self.in_progress_from(start),
                start == *old(self),
                self.state.item_idx == item_idx,
                self.state.run_idx == run_idx,
                item_idx < self.layout.data.items@.len(),
                self.layout.data.items@[item_idx as int] == item,
                item.kind == LayoutItemKind::TextRun,
                run == (RunData {
                    cluster_start: item.cluster_start,
                    cluster_end: item.cluster_end,
                    ..self.layout.data.runs@[item.index as int]
                }),
                run.cluster_start <= self.state.cluster_idx,
            decreases run.cluster_end - self.state.cluster_idx,
        {
            let ghost before = *self;
            match self.process_cluster(max_advance, line_indent, run) {
                Some(res) => {
                    proof {
                        assert(before.in_progress_from(start));
                        assert(before.lines@ == start.lines@);
                        assert(before.line_items@ == start.line_items@);
                        lemma_same_shape_trans(start.layout.data, before.layout.data, self.layout.data);
                        assert(self.committed_from(before, res, max_advance, line_indent));
                        assert(self.lines@.len() == before.lines@.len() + 1);
                        assert(self.committed_from(start, res, max_advance, line_indent));
                    }
                    return Some(res);
                },
                None => {
                    proof {
                        lemma_same_shape_trans(start.layout.data, before.layout.data, self.layout.data);
                    }
                },
            }
        }
        self.state.run_idx = self.state.run_idx + 1;
        self.state.item_idx = self.state.item_idx + 1;
        None
    }

    /// Computes the next line of the paragraph with measure `max_advance`
    /// and returns its advance, or `None` when all content has been placed.
    /// The line is indented as `next_line_indent` says and broken against
    /// the measure less that indent; it is the last line exactly when it is
    /// not ended by a break. The state before it is kept for `revert`.
    pub fn break_next(&mut self, max_advance: i64) -> (r: Option<i64>)
        requires
            old(self).wf(),
        ensures
            final(self).wf(),
            next_line_broken(*old(self), *final(self), max_advance, r),
    {
        if self.done {
            return None;
        }
        self.prev_state = Some(self.state);
        // An empty layout ignores the measure: nothing could ever fit a
        // measure that is too small.
        let unbounded = if self.layout.data.text_len == 0 && self.layout.data.inline_boxes.len() == 0 {
            i64::MAX
        } else {
            max_advance
        };
        let line_indent = self.resolve_indent();
        let measure = sat_sub(unbounded, line_indent);
        let ghost start = *self;
        proof {
            assert forall|j: int| 0 <= j < self.state.lines implies (#[trigger] self.lines@[j]).item_end
                <= self.state.items by {}
        }
        let item_count = self.layout.data.items.len();
        while self.state.item_idx < item_count
            invariant
                self.in_progress_from(start),
                start == (BreakLines { prev_state: Some(old(self).state), ..*old(self) }),
                !old(self).done,
                line_indent == next_line_indent(old(self).layout.data, old(self).lines@),
                measure == effective_max_advance(old(self).layout.data, max_advance, line_indent),
                item_count == self.layout.data.items@.len(),
            decreases item_count - self.state.item_idx,
        {
            let ghost before = *self;
            let kind = self.layout.data.items[self.state.item_idx].kind;
            let step = match kind {
                LayoutItemKind::InlineBox => self.process_inline_box(measure, line_indent),
                LayoutItemKind::TextRun => self.process_text_run(measure, line_indent),
            };
            proof {
                assert(before.in_progress_from(start));
                assert(before.lines@ == start.lines@);
                assert(before.line_items@ == start.line_items@);
                lemma_same_shape_trans(start.layout.data, before.layout.data, self.layout.data);
            }
            if let Some(res) = step {
                return res;
            }
        }
        if self.state.line.item_end == 0 {
            self.state.line.item_end = 1;
        }
        self.commit_line(measure, BreakReason::Unbroken, line_indent);
        self.done = true;
        self.start_new_line()
    }
}


/// Every item of the paragraph has been placed at `st`: the position is
/// past the last item, or at the end of the clusters of a last text item.
pub open spec fn placed_all(d: LayoutData, st: BreakerState) -> bool {
    ||| st.item_idx >= d.items@.len()
    ||| (st.item_idx + 1 == d.items@.len() && d.items@[st.item_idx as int].kind == LayoutItemKind::TextRun
        && st.cluster_idx >= d.items@[st.item_idx as int].cluster_end)
}

/// `b1` is what computing the next line of `b0` with measure `max_advance`
/// makes of it, returning `r`. Once all content is placed nothing changes
/// and no line is returned. Otherwise exactly one line is appended, with
/// the indent that `next_line_indent` gives and the measure less that
/// indent; its advance is returned; earlier lines and items stay; it is the
/// last line exactly when it is not ended by a break, and when it is not
/// the last line the position moved on. The state before it is kept. Under
/// an unbounded measure a line ends only at a newline or at the end.
pub open spec fn next_line_broken(b0: BreakLines, b1: BreakLines, max_advance: i64, r: Option<i64>) -> bool {
    if b0.spec_done() {
        r is None && b1 == b0
    } else {
        let line = b1.spec_lines().last();
        let indent = next_line_indent(b0.spec_data(), b0.spec_lines());
        &&& r == Some(line.advance)
        &&& b1.spec_lines().len() == b0.spec_lines().len() + 1
        &&& b1.spec_lines().subrange(0, b0.spec_lines().len() as int) == b0.spec_lines()
        &&& b1.spec_line_items().len() >= b0.spec_line_items().len()
        &&& b1.spec_line_items().subrange(0, b0.spec_line_items().len() as int) == b0.spec_line_items()
        &&& line.item_start >= b0.spec_line_items().len()
        &&& line.indent == indent
        &&& line.max_advance == effective_max_advance(b0.spec_data(), max_advance, indent)
        &&& (b1.spec_done() <==> line.break_reason == BreakReason::Unbroken)
        &&& b1.spec_prev_state() == Some(b0.spec_state())
        &&& same_shape(b0.spec_data(), b1.spec_data())
        &&& !b1.spec_done() ==> position_before(b0.spec_state(), b1.spec_state())
        &&& b1.spec_done() ==> b1.spec_state().item_idx >= b1.spec_data().items@.len()
        &&& line.max_advance == i64::MAX ==> line.break_reason == BreakReason::Explicit || line.break_reason
            == BreakReason::Unbroken
    }
}

/// `b1` is what `revert` makes of `b0`, returning `r`: with a saved state,
/// that state returns and the lines and items committed since are dropped;
/// without one nothing changes.
pub open spec fn reverted(b0: BreakLines, b1: BreakLines, r: bool) -> bool {
    match b0.spec_prev_state() {
        Some(p) => {
            &&& r
            &&& b1.spec_state() == p
            &&& b1.spec_prev_state() is None
            &&& !b1.spec_done()
            &&& b1.spec_lines() == b0.spec_lines().subrange(0, p.lines as int)
            &&& b1.spec_line_items() == b0.spec_line_items().subrange(0, p.items as int)
            &&& b1.spec_data() == b0.spec_data()
        },
        None => !r && b1 == b0,
    }
}

/// Reverting right after computing a line restores the lines, line items
/// and iteration state from before that line.
pub proof fn lemma_revert_undoes_break_next(
    b0: BreakLines,
    b1: BreakLines,
    b2: BreakLines,
    max_advance: i64,
    r1: Option<i64>,
    r2: bool,
)
    requires
        b0.wf(),
        !b0.spec_done(),
        next_line_broken(b0, b1, max_advance, r1),
        reverted(b1, b2, r2),
    ensures
        r2,
        b2.spec_lines() == b0.spec_lines(),
        b2.spec_line_items() == b0.spec_line_items(),
        b2.spec_state() == b0.spec_state(),
        !b2.spec_done(),
{
}

/// The advance of `line` from the start edge: its advance and any positive
/// indent, less its hanging whitespace unless `with_trailing`.
pub open spec fn line_extent(line: LineData, with_trailing: bool) -> i64 {
    let indent_extra: i64 = if line.indent > 0 { line.indent } else { 0 };
    let full = crate::units::clamp_i64(line.advance + indent_extra);
    if with_trailing { full } else { crate::units::clamp_i64(full - line.trailing_whitespace) }
}

/// The largest extent of `lines`, at least zero.
pub open spec fn widest_line(lines: Seq<LineData>, with_trailing: bool) -> i64
    decreases lines.len(),
{
    if lines.len() == 0 {
        0
    } else {
        let w = widest_line(lines.drop_last(), with_trailing);
        let e = line_extent(lines.last(), with_trailing);
        if e > w { e } else { w }
    }
}

/// The widest line is at least as wide as every line, and is as wide as
/// one of them (or zero, when no line is wider than that). A line's width is
/// its advance with its positive indent, less its hanging whitespace unless
/// `with_trailing`.
pub proof fn lemma_widest_line_is_the_widest(lines: Seq<LineData>, with_trailing: bool)
    ensures
        forall|j: int| 0 <= j < lines.len() ==> widest_line(lines, with_trailing) >= ({
            let l = #[trigger] lines[j];
            let full = clamp_i64(l.advance + (if l.indent > 0 { l.indent as int } else { 0 }));
            if with_trailing { full } else { clamp_i64(full - l.trailing_whitespace) }
        }),
        widest_line(lines, with_trailing) >= 0,
        widest_line(lines, with_trailing) == 0 || exists|j: int| 0 <= j < lines.len() && widest_line(lines, with_trailing) == ({
            let l = #[trigger] lines[j];
            let full = clamp_i64(l.advance + (if l.indent > 0 { l.indent as int } else { 0 }));
            if with_trailing { full } else { clamp_i64(full - l.trailing_whitespace) }
        }),
    decreases lines.len(),
{
    if lines.len() > 0 {
        let p = lines.drop_last();
        lemma_widest_line_is_the_widest(p, with_trailing);
        assert forall|j: int| 0 <= j < p.len() implies #[trigger] p[j] == lines[j] by {}
        let w = widest_line(lines, with_trailing);
        assert forall|j: int| 0 <= j < lines.len() implies w >= ({
            let l = #[trigger] lines[j];
            let full = clamp_i64(l.advance + (if l.indent > 0 { l.indent as int } else { 0 }));
            if with_trailing { full } else { clamp_i64(full - l.trailing_whitespace) }
        }) by {
            if j < p.len() {
                assert(p[j] == lines[j]);
            }
        }
        if w != 0 && w != line_extent(lines.last(), with_trailing) {
            let k = choose|j: int| 0 <= j < p.len() && widest_line(p, with_trailing) == ({
                let l = #[trigger] p[j];
                let full = clamp_i64(l.advance + (if l.indent > 0 { l.indent as int } else { 0 }));
                if with_trailing { full } else { clamp_i64(full - l.trailing_whitespace) }
            });
            assert(p[k] == lines[k]);
        }
    }
}

impl BreakLines {
    /// Reverts the last computed line, returning to the state before it.
    pub fn revert(&mut self) -> (r: bool)
        requires
            old(self).wf(),
        ensures
            final(self).wf(),
            reverted(*old(self), *final(self), r),
    {
        match self.prev_state {
            Some(state) => {
                self.prev_state = None;
                self.state = state;
                self.lines.truncate(state.lines);
                self.line_items.truncate(state.items);
                self.done = false;
                proof {
                    assert forall|j: int| 0 <= j < self.lines@.len() implies (#[trigger] self.lines@[j]).item_start
                        <= self.lines@[j].item_end <= self.line_items@.len() by {
                        assert(self.lines@[j] == old(self).lines@[j]);
                    }
                    assert forall|j: int| 0 <= j < self.line_items@.len() implies {
                        let x = #[trigger] self.line_items@[j];
                        &&& x.kind == LayoutItemKind::TextRun ==> x.index < self.layout.data.runs@.len()
                        &&& x.kind == LayoutItemKind::TextRun ==> x.cluster_end <= self.layout.data.clusters@.len()
                        &&& x.kind == LayoutItemKind::InlineBox ==> x.index < self.layout.data.inline_boxes@.len()
                    } by {
                        assert(self.line_items@[j] == old(self).line_items@[j]);
                    }
                }
                true
            },
            None => false,
        }
    }

    /// Consumes the line breaker and returns the layout with its lines,
    /// its widest line advance without and with hanging whitespace, and,
    /// for a layout without text, an empty source range on its first item.
    pub fn finish(self) -> (r: Layout)
        requires
            self.wf(),
        ensures
            r.data.lines@ == self.spec_lines(),
            line_items_wf(r.data, r.data.line_items@),
            lines_wf(r.data.lines@, r.data.line_items@),
            r.data.width == widest_line(self.spec_lines(), false),
            r.data.full_width == widest_line(self.spec_lines(), true),
            r.data.line_items@ == if self.spec_data().text_len == 0 && self.spec_line_items().len() > 0 {
                self.spec_line_items().update(0, LineItemData {
                    text_start: 0,
                    text_end: 0,
                    cluster_start: 0,
                    cluster_end: 0,
                    ..self.spec_line_items()[0]
                })
            } else {
                self.spec_line_items()
            },
            r.data == (LayoutData {
                lines: r.data.lines,
                line_items: r.data.line_items,
                width: r.data.width,
                full_width: r.data.full_width,
                ..self.spec_data()
            }),
    {
        let mut b = self;
        if b.layout.data.text_len == 0 && b.line_items.len() > 0 {
            let mut first = b.line_items[0];
            first.text_start = 0;
            first.text_end = 0;
            first.cluster_start = 0;
            first.cluster_end = 0;
            b.line_items.set(0, first);
        }
        let mut width: i64 = 0;
        let mut full_width: i64 = 0;
        let mut k: usize = 0;
        while k < b.lines.len()
            invariant
                k <= b.lines@.len(),
                width == widest_line(b.lines@.take(k as int), false),
                full_width == widest_line(b.lines@.take(k as int), true),
            decreases b.lines@.len() - k,
        {
            let line = b.lines[k];
            let indent_extra: i64 = if line.indent > 0 { line.indent } else { 0 };
            let full = sat_add(line.advance, indent_extra);
            let trimmed = sat_sub(full, line.trailing_whitespace);
            proof {
                assert(b.lines@.take(k + 1).drop_last() =~= b.lines@.take(k as int));
                assert(b.lines@.take(k + 1).last() == line);
            }
            if trimmed > width {
                width = trimmed;
            }
            if full > full_width {
                full_width = full;
            }
            k = k + 1;
        }
        proof {
            assert(b.lines@.take(b.lines@.len() as int) =~= b.lines@);
        }
        proof {
            let li = b.line_items@;
            let d = b.layout.data;
            assert forall|j: int| 0 <= j < li.len() implies {
                let x = #[trigger] li[j];
                &&& x.kind == LayoutItemKind::TextRun ==> x.index < d.runs@.len()
                &&& x.kind == LayoutItemKind::TextRun ==> x.cluster_end <= d.clusters@.len()
                &&& x.kind == LayoutItemKind::InlineBox ==> x.index < d.inline_boxes@.len()
            } by {
                assert(line_items_wf(self.layout.data, self.line_items@));
                assert(li[j].kind == self.line_items@[j].kind);
                assert(li[j].index == self.line_items@[j].index);
            }
        }
        let mut layout = b.layout;
        layout.data.width = width;
        layout.data.full_width = full_width;
        layout.data.lines = b.lines;
        layout.data.line_items = b.line_items;
        layout
    }

    /// Breaks all remaining lines with measure `max_advance` and returns the
    /// finished layout: every line computed here is ended by a break except
    /// the last one.
    pub fn break_remaining(self, max_advance: i64) -> (r: Layout)
        requires
            self.wf(),
        ensures
            r.data.lines@.len() >= self.spec_lines().len(),
            r.data.lines@.subrange(0, self.spec_lines().len() as int) == self.spec_lines(),
            !self.spec_done() ==> r.data.lines@.len() > self.spec_lines().len()
                && r.data.lines@.last().break_reason == BreakReason::Unbroken,
            forall|j: int| self.spec_lines().len() <= j < r.data.lines@.len() - 1
                ==> (#[trigger] r.data.lines@[j]).break_reason != BreakReason::Unbroken,
            forall|j: int| self.spec_lines().len() <= j < r.data.lines@.len() ==> (#[trigger] r.data.lines@[j]).max_advance
                == effective_max_advance(self.spec_data(), max_advance, r.data.lines@[j].indent),
            forall|j: int| self.spec_lines().len() <= j < r.data.lines@.len() && (#[trigger] r.data.lines@[j]).max_advance
                == i64::MAX ==> r.data.lines@[j].break_reason == BreakReason::Explicit || r.data.lines@[j].break_reason
                == BreakReason::Unbroken,
            r.data.width == widest_line(r.data.lines@, false),
            r.data.full_width == widest_line(r.data.lines@, true),
            r.data.break_wf(),
            line_items_wf(r.data, r.data.line_items@),
            lines_wf(r.data.lines@, r.data.line_items@),
            same_shape(
                self.spec_data(),
                LayoutData {
                    lines: self.spec_data().lines,
                    line_items: self.spec_data().line_items,
                    width: self.spec_data().width,
                    full_width: self.spec_data().full_width,
                    ..r.data
                },
            ),
    {
        let mut b = self;
        let ghost n0 = self.lines@.len();
        let ghost lines0 = self.lines@;
        let ghost n_items = self.layout.data.items@.len();
        let ghost n_clusters = self.layout.data.clusters@.len();
        loop
            invariant
                b.wf(),
                b.lines@.len() >= n0,
                b.lines@.subrange(0, n0 as int) == lines0,
                b.layout.data.items@.len() == n_items,
                b.layout.data.clusters@.len() == n_clusters,
                same_shape(self.layout.data, b.layout.data),
                !self.done ==> (b.lines@.len() > n0 || !b.done),
                b.done ==> b.lines@.len() > n0 ==> b.lines@.last().break_reason == BreakReason::Unbroken,
                self.done ==> b.done,
                forall|j: int| n0 <= j < b.lines@.len() - 1 ==> (#[trigger] b.lines@[j]).break_reason
                    != BreakReason::Unbroken,
                !b.done ==> forall|j: int| n0 <= j < b.lines@.len() ==> (#[trigger] b.lines@[j]).break_reason
                    != BreakReason::Unbroken,
                forall|j: int| n0 <= j < b.lines@.len() ==> (#[trigger] b.lines@[j]).max_advance
                    == effective_max_advance(self.layout.data, max_advance, b.lines@[j].indent),
                forall|j: int| n0 <= j < b.lines@.len() && (#[trigger] b.lines@[j]).max_advance == i64::MAX
                    ==> b.lines@[j].break_reason == BreakReason::Explicit || b.lines@[j].break_reason
                    == BreakReason::Unbroken,
            ensures
                b.wf(),
                b.done,
                same_shape(self.layout.data, b.layout.data),
                b.lines@.len() >= n0,
                b.lines@.subrange(0, n0 as int) == lines0,
                !self.done ==> b.lines@.len() > n0,
                b.lines@.len() > n0 ==> b.lines@.last().break_reason == BreakReason::Unbroken,
                forall|j: int| n0 <= j < b.lines@.len() - 1 ==> (#[trigger] b.lines@[j]).break_reason
                    != BreakReason::Unbroken,
                forall|j: int| n0 <= j < b.lines@.len() ==> (#[trigger] b.lines@[j]).max_advance
                    == effective_max_advance(self.layout.data, max_advance, b.lines@[j].indent),
                forall|j: int| n0 <= j < b.lines@.len() && (#[trigger] b.lines@[j]).max_advance == i64::MAX
                    ==> b.lines@[j].break_reason == BreakReason::Explicit || b.lines@[j].break_reason
                    == BreakReason::Unbroken,
            decreases (if b.done { 0int } else { 1int }), n_items - b.state.item_idx, n_clusters - b.state.cluster_idx,
        {
            let ghost before = b;
            let r = b.break_next(max_advance);
            if r.is_none() {
                break;
            }
            proof {
                lemma_same_shape_trans(self.layout.data, before.layout.data, b.layout.data);
                assert(b.lines@.subrange(0, n0 as int) =~= before.lines@.subrange(0, n0 as int));
                assert forall|j: int| n0 <= j < b.lines@.len() - 1 implies (#[trigger] b.lines@[j]).break_reason
                    != BreakReason::Unbroken by {
                    assert(b.lines@[j] == before.lines@[j]);
                }
                if !b.done {
                    assert forall|j: int| n0 <= j < b.lines@.len() implies (#[trigger] b.lines@[j]).break_reason
                        != BreakReason::Unbroken by {
                        if j < b.lines@.len() - 1 {
                            assert(b.lines@[j] == before.lines@[j]);
                        }
                    }
                }
                assert forall|j: int| n0 <= j < b.lines@.len() implies (#[trigger] b.lines@[j]).max_advance
                    == effective_max_advance(self.layout.data, max_advance, b.lines@[j].indent) && (
                b.lines@[j].max_advance == i64::MAX ==> b.lines@[j].break_reason == BreakReason::Explicit
                    || b.lines@[j].break_reason == BreakReason::Unbroken) by {
                    if j < b.lines@.len() - 1 {
                        assert(b.lines@[j] == before.lines@[j]);
                    }
                }
            }
        }
        b.finish()
    }
}


/// What the length breaker counts for position `(i, c)`: one for a text
/// cluster, one for an inline box that is not a transparent anchor.
pub open spec fn walk_unit(d: LayoutData, i: int, c: int) -> int {
    let item = d.items@[i];
    if item.kind == LayoutItemKind::InlineBox {
        if d.inline_boxes@[item.index as int].spec_participation()
            == crate::inline_box::InlineBoxParticipation::TransparentAnchor {
            0
        } else {
            1
        }
    } else if item.cluster_start <= c < item.cluster_end {
        1
    } else {
        0
    }
}

/// Whether walking the paragraph from position `(i, c)` (item, cluster)
/// comes to position `(i1, c1)`. A box moves to the next item; a position
/// before a text item's clusters moves to its first cluster, one inside them
/// to the next cluster, and one past them to the next item.
pub open spec fn walk_reaches(d: LayoutData, i: int, c: int, i1: int, c1: int) -> bool
    decreases d.items@.len() - i, d.clusters@.len() + 1 - c,
{
    if i == i1 && c == c1 {
        true
    } else if i < 0 || c < 0 || i >= d.items@.len() || i > i1 || (i == i1 && c > c1) || !d.item_wf(d.items@[i]) {
        false
    } else {
        let item = d.items@[i];
        if item.kind == LayoutItemKind::InlineBox {
            walk_reaches(d, i + 1, c, i1, c1)
        } else if c < item.cluster_start {
            walk_reaches(d, i, item.cluster_start as int, i1, c1)
        } else if c < item.cluster_end {
            walk_reaches(d, i, c + 1, i1, c1)
        } else {
            walk_reaches(d, i + 1, c, i1, c1)
        }
    }
}

/// The characters the length breaker counts on the walk from position
/// `(i, c)` to position `(i1, c1)`.
pub open spec fn units_between(d: LayoutData, i: int, c: int, i1: int, c1: int) -> int
    decreases d.items@.len() - i, d.clusters@.len() + 1 - c,
{
    if i == i1 && c == c1 {
        0
    } else if i < 0 || c < 0 || i >= d.items@.len() || i > i1 || (i == i1 && c > c1) || !d.item_wf(d.items@[i]) {
        0
    } else {
        let item = d.items@[i];
        let rest = if item.kind == LayoutItemKind::InlineBox {
            units_between(d, i + 1, c, i1, c1)
        } else if c < item.cluster_start {
            units_between(d, i, item.cluster_start as int, i1, c1)
        } else if c < item.cluster_end {
            units_between(d, i, c + 1, i1, c1)
        } else {
            units_between(d, i + 1, c, i1, c1)
        };
        walk_unit(d, i, c) + rest
    }
}

/// The position that follows `(i, c)` on the walk.
pub open spec fn walk_next(d: LayoutData, i: int, c: int) -> (int, int) {
    let item = d.items@[i];
    if item.kind == LayoutItemKind::InlineBox {
        (i + 1, c)
    } else if c < item.cluster_start {
        (i, item.cluster_start as int)
    } else if c < item.cluster_end {
        (i, c + 1)
    } else {
        (i + 1, c)
    }
}

/// A walk that comes to `(i, c)` goes on to the position after it, counting
/// what `(i, c)` holds.
proof fn lemma_walk_extends(d: LayoutData, a: int, b: int, i: int, c: int)
    requires
        walk_reaches(d, a, b, i, c),
        0 <= i < d.items@.len(),
        0 <= c,
        d.item_wf(d.items@[i]),
    ensures
        walk_reaches(d, a, b, walk_next(d, i, c).0, walk_next(d, i, c).1),
        units_between(d, a, b, walk_next(d, i, c).0, walk_next(d, i, c).1) == units_between(d, a, b, i, c)
            + walk_unit(d, i, c),
    decreases d.items@.len() - a, d.clusters@.len() + 1 - b,
{
    let (i2, c2) = walk_next(d, i, c);
    if a == i && b == c {
        assert(walk_reaches(d, i2, c2, i2, c2));
        assert(units_between(d, i2, c2, i2, c2) == 0);
    } else {
        let item = d.items@[a];
        let (a2, b2) = walk_next(d, a, b);
        lemma_walk_extends(d, a2, b2, i, c);
    }
}

impl BreakLines {
    /// Computes the next line by character count: every text cluster
    /// (whitespace and newlines included) and every inline box counts as one
    /// character, and transparent anchors are passed over. The line breaks
    /// when `max_chars` characters are placed, without regard to break
    /// opportunities or advances, or explicitly after a newline; a final
    /// newline leaves an empty last line. A limit of zero places one
    /// character per line.
    pub fn break_next_with_length(&mut self, max_chars: u32) -> (r: Option<()>)
        requires
            old(self).wf(),
        ensures
            final(self).wf(),
            old(self).spec_done() ==> r is None && *final(self) == *old(self),
            !old(self).spec_done() ==> {
                let line = final(self).spec_lines().last();
                &&& r is Some
                &&& final(self).spec_lines().len() == old(self).spec_lines().len() + 1
                &&& final(self).spec_lines().subrange(0, old(self).spec_lines().len() as int) == old(self).spec_lines()
                &&& final(self).spec_line_items().len() >= old(self).spec_line_items().len()
                &&& final(self).spec_line_items().subrange(0, old(self).spec_line_items().len() as int)
                    == old(self).spec_line_items()
                &&& line.indent == next_line_indent(old(self).spec_data(), old(self).spec_lines())
                &&& line.max_advance == i64::MAX
                &&& (final(self).spec_done() <==> line.break_reason == BreakReason::Unbroken)
                &&& final(self).spec_done() ==> placed_all(final(self).spec_data(), final(self).spec_state())
                &&& final(self).spec_prev_state() == old(self).spec_prev_state()
                &&& same_shape(old(self).spec_data(), final(self).spec_data())
                &&& walk_reaches(
                    old(self).spec_data(),
                    old(self).spec_state().item_idx as int,
                    old(self).spec_state().cluster_idx as int,
                    final(self).spec_state().item_idx as int,
                    final(self).spec_state().cluster_idx as int,
                )
                &&& ({
                    let n = units_between(
                        old(self).spec_data(),
                        old(self).spec_state().item_idx as int,
                        old(self).spec_state().cluster_idx as int,
                        final(self).spec_state().item_idx as int,
                        final(self).spec_state().cluster_idx as int,
                    );
                    let limit: int = if max_chars == 0 { 1 } else { max_chars as int };
                    &&& n <= limit
                    &&& line.break_reason == BreakReason::Regular ==> n == limit
                })
                &&& line.break_reason == BreakReason::Explicit ==> final(self).spec_state().cluster_idx >= 1
                    && spec_to_whitespace(
                    old(self).spec_data().clusters@[final(self).spec_state().cluster_idx - 1].info.source_char,
                ) == Whitespace::Newline
            },
    {
        if self.done {
            return None;
        }
        let line_indent = self.resolve_indent();
        let mut char_count: u32 = 0;
        let ghost start = *self;
        let ghost d = self.layout.data;
        let ghost i0 = self.state.item_idx as int;
        let ghost c0 = self.state.cluster_idx as int;
        let item_count = self.layout.data.items.len();
        while self.state.item_idx < item_count
            invariant
                self.inv(),
                !self.done,
                start == *old(self),
                !old(self).done,
                self.layout == start.layout,
                self.lines@ == start.lines@,
                self.line_items@ == start.line_items@,
                self.prev_state == start.prev_state,
                line_indent == next_line_indent(start.layout.data, start.lines@),
                item_count == self.layout.data.items@.len(),
                char_count == 0 || char_count < max_chars,
                d == start.layout.data,
                i0 == start.state.item_idx,
                c0 == start.state.cluster_idx,
                walk_reaches(d, i0, c0, self.state.item_idx as int, self.state.cluster_idx as int),
                char_count == units_between(d, i0, c0, self.state.item_idx as int, self.state.cluster_idx as int),
            decreases item_count - self.state.item_idx,
        {
            let item = self.layout.data.items[self.state.item_idx];
            assert(self.layout.data.item_wf(self.layout.data.items@[self.state.item_idx as int]));
            match item.kind {
                LayoutItemKind::InlineBox => {
                    let inline_box = self.layout.data.inline_boxes[item.index];
                    proof {
                        lemma_walk_extends(d, i0, c0, self.state.item_idx as int, self.state.cluster_idx as int);
                    }
                    if inline_box.is_transparent_anchor() {
                        self.state.item_idx = self.state.item_idx + 1;
                        self.state.append_inline_box_to_line(self.state.line.x, self.state.line.fit_x);
                        continue;
                    }
                    if char_count >= max_chars && max_chars != 0 {
                        // Break before this box.
                        self.commit_line(i64::MAX, BreakReason::Regular, line_indent);
                        self.start_new_line();
                        return Some(());
                    }
                    let next_x = sat_add(self.state.line.x, inline_box.width());
                    let next_fit_x = sat_add(self.state.line.fit_x, inline_box.width());
                    self.state.item_idx = self.state.item_idx + 1;
                    self.state.append_inline_box_to_line(next_x, next_fit_x);
                    char_count = char_count + 1;
                    if char_count >= max_chars {
                        let is_last_item = self.state.item_idx >= self.layout.data.items.len();
                        let break_reason = if is_last_item {
                            BreakReason::Unbroken
                        } else {
                            BreakReason::Regular
                        };
                        self.commit_line(i64::MAX, break_reason, line_indent);
                        if is_last_item {
                            self.done = true;
                        }
                        self.start_new_line();
                        return Some(());
                    }
                },
                LayoutItemKind::TextRun => {
                    let cluster_end = item.cluster_end;
                    // Consecutive text items adjoin in the cluster sequence,
                    // so the position never trails the item's first cluster.
                    if self.state.cluster_idx < item.cluster_start {
                        proof {
                            lemma_walk_extends(d, i0, c0, self.state.item_idx as int, self.state.cluster_idx as int);
                        }
                        self.state.cluster_idx = item.cluster_start;
                    }
                    let ghost idx = self.state.item_idx;
                    while self.state.cluster_idx < cluster_end
                        invariant
                            self.state.item_idx == idx,
                            self.inv(),
                            !self.done,
                            start == *old(self),
                            !old(self).done,
                            self.layout == start.layout,
                            self.lines@ == start.lines@,
                            self.line_items@ == start.line_items@,
                            self.prev_state == start.prev_state,
                            line_indent == next_line_indent(start.layout.data, start.lines@),
                            item_count == self.layout.data.items@.len(),
                            self.state.item_idx < item_count,
                            cluster_end <= self.layout.data.clusters@.len(),
                            cluster_end == self.layout.data.items@[idx as int].cluster_end,
                            self.layout.data.items@[idx as int].kind == LayoutItemKind::TextRun,
                            char_count == 0 || char_count < max_chars,
                            d == start.layout.data,
                            i0 == start.state.item_idx,
                            c0 == start.state.cluster_idx,
                            item == d.items@[idx as int],
                            item.cluster_start <= self.state.cluster_idx,
                            walk_reaches(d, i0, c0, self.state.item_idx as int, self.state.cluster_idx as int),
                            char_count == units_between(d, i0, c0, self.state.item_idx as int, self.state.cluster_idx as int),
                        decreases cluster_end - self.state.cluster_idx,
                    {
                        if char_count >= max_chars && max_chars != 0 {
                            self.commit_line(i64::MAX, BreakReason::Regular, line_indent);
                            self.start_new_line();
                            return Some(());
                        }
                        proof {
                            lemma_walk_extends(d, i0, c0, self.state.item_idx as int, self.state.cluster_idx as int);
                        }
                        let cluster = self.layout.data.clusters[self.state.cluster_idx];
                        let whitespace = cluster.info.whitespace();
                        let is_newline = whitespace == Whitespace::Newline;
                        let is_space = whitespace.is_space_or_nbsp();
                        // Newlines do not contribute to the line's advance.
                        let next_x = if is_newline {
                            self.state.line.x
                        } else {
                            sat_add(self.state.line.x, cluster.advance)
                        };
                        let next_fit_x = if is_newline {
                            self.state.line.fit_x
                        } else {
                            sat_add(self.state.line.fit_x, cluster.line_break_advance)
                        };
                        self.state.append_cluster_to_line(next_x, next_fit_x, cluster.info.authored_break_unit());
                        self.state.cluster_idx = self.state.cluster_idx + 1;
                        char_count = char_count + 1;
                        if is_space {
                            self.state.line.num_spaces = self.state.line.num_spaces + 1;
                        }
                        if is_newline || char_count >= max_chars {
                            let is_last_cluster_of_run = self.state.cluster_idx >= cluster_end;
                            let is_last_item = self.state.item_idx + 1 >= self.layout.data.items.len();
                            // A newline ends its line explicitly; a final
                            // newline leaves an empty last line after it.
                            let ends_content = is_last_cluster_of_run && is_last_item && !is_newline;
                            let break_reason = if is_newline {
                                BreakReason::Explicit
                            } else if ends_content {
                                BreakReason::Unbroken
                            } else {
                                BreakReason::Regular
                            };
                            let ghost placed = placed_all(self.layout.data, self.state);
                            assert(ends_content ==> placed);
                            self.commit_line(i64::MAX, break_reason, line_indent);
                            if ends_content {
                                self.done = true;
                            }
                            self.start_new_line();
                            assert(self.done ==> placed_all(self.layout.data, self.state));
                            return Some(());
                        }
                    }
                    proof {
                        lemma_walk_extends(d, i0, c0, self.state.item_idx as int, self.state.cluster_idx as int);
                    }
                    self.state.run_idx = self.state.run_idx + 1;
                    self.state.item_idx = self.state.item_idx + 1;
                },
            }
        }
        if self.state.line.item_end == 0 {
            self.state.line.item_end = 1;
        }
        self.commit_line(i64::MAX, BreakReason::Unbroken, line_indent);
        self.done = true;
        self.start_new_line();
        Some(())
    }
}

} // verus!
