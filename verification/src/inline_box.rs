use vstd::prelude::*;

verus! {

/// The soft-wrap relationship between an inline box and its neighbours.
#[derive(PartialEq, Eq, Structural, Debug, Clone, Copy)]
pub enum InlineBoxBreakAffinity {
    /// Soft-wrap opportunities on both sides remain available.
    Independent,
    /// The box stays with the preceding content.
    ToPrevious,
    /// The box stays with the following content.
    ToNext,
    /// The box stays with content on both sides.
    Both,
}

impl Default for InlineBoxBreakAffinity {
    fn default() -> (r: Self)
        ensures
            r == InlineBoxBreakAffinity::Independent,
    {
        InlineBoxBreakAffinity::Independent
    }
}

/// The advance participation of a collapsible source space after an inline-end
/// edge when the edge projects that source break.
#[derive(PartialEq, Eq, Structural, Debug, Clone, Copy)]
pub enum FollowingSourceSpace {
    /// The source space keeps its shaped advance.
    RetainedAdvance,
    /// The source space collapses when the projected break is selected.
    CollapsedAfterProjectedBreak,
    /// The source space collapses only when the owner fragment fills the
    /// measure; with measure still available it keeps its advance.
    CollapseAfterFilledOwnerFragment,
    /// Unicode line breaking retains authority over the source space.
    UnicodeBoundary,
}

impl Default for FollowingSourceSpace {
    fn default() -> (r: Self)
        ensures
            r == FollowingSourceSpace::RetainedAdvance,
    {
        FollowingSourceSpace::RetainedAdvance
    }
}

impl InlineBoxBreakAffinity {
    /// Whether a soft wrap may precede the box.
    pub fn allows_break_before(self) -> (r: bool)
        ensures
            r <==> (self == InlineBoxBreakAffinity::Independent || self == InlineBoxBreakAffinity::ToNext),
    {
        match self {
            InlineBoxBreakAffinity::Independent | InlineBoxBreakAffinity::ToNext => true,
            _ => false,
        }
    }

    /// Whether a soft wrap may follow the box.
    pub fn allows_break_after(self) -> (r: bool)
        ensures
            r <==> (self == InlineBoxBreakAffinity::Independent || self == InlineBoxBreakAffinity::ToPrevious),
    {
        match self {
            InlineBoxBreakAffinity::Independent | InlineBoxBreakAffinity::ToPrevious => true,
            _ => false,
        }
    }
}

/// Which logical side of its owner an inline edge stands on.
#[derive(PartialEq, Eq, Structural, Debug, Clone, Copy)]
pub enum LogicalInlineEdge {
    Start,
    End(FollowingSourceSpace),
}

/// Where a logical owner edge projects an adjoining source boundary.
#[derive(PartialEq, Eq, Structural, Debug, Clone, Copy)]
pub enum LogicalInlineEdgeSourceProjection {
    Absent,
    BeforeGeometry,
    AfterGeometry,
}

/// How an inline box reorders with its neighbours during bidi reordering.
#[derive(PartialEq, Eq, Structural, Debug, Clone, Copy)]
pub enum InlineBoxBidiAttachment {
    Independent,
    ToPrevious,
    ToNext,
}

/// Closed line-breaking participation for inline boxes.
#[derive(PartialEq, Eq, Structural, Debug, Clone, Copy)]
pub enum InlineBoxLineBreakParticipation {
    Atomic(InlineBoxBreakAffinity),
    LogicalOwnerEdge(LogicalInlineEdge),
    TransparentAnchor,
}

/// Whether an inline box ends the current shaping item.
#[derive(PartialEq, Eq, Structural, Debug, Clone, Copy)]
pub enum InlineBoxShapingParticipation {
    InterveningInlineAdvance,
    TransparentBoundary,
}

impl LogicalInlineEdge {
    /// Whether this is an inline-end edge.
    pub fn is_end(self) -> (r: bool)
        ensures
            r <==> self is End,
    {
        match self {
            LogicalInlineEdge::End(_) => true,
            LogicalInlineEdge::Start => false,
        }
    }

    /// The following-space participation of the edge; a start edge retains it.
    pub fn following_source_space(self) -> (r: FollowingSourceSpace)
        ensures
            r == match self {
                LogicalInlineEdge::Start => FollowingSourceSpace::RetainedAdvance,
                LogicalInlineEdge::End(p) => p,
            },
    {
        match self {
            LogicalInlineEdge::Start => FollowingSourceSpace::RetainedAdvance,
            LogicalInlineEdge::End(participation) => participation,
        }
    }

    /// Where the edge projects a source boundary: a zero-width start edge
    /// projects nothing, any other start edge projects before its geometry,
    /// and an end edge projects after it.
    pub fn source_projection(self, width: i64) -> (r: LogicalInlineEdgeSourceProjection)
        ensures
            r == match self {
                LogicalInlineEdge::Start => if width == 0 {
                    LogicalInlineEdgeSourceProjection::Absent
                } else {
                    LogicalInlineEdgeSourceProjection::BeforeGeometry
                },
                LogicalInlineEdge::End(_) => LogicalInlineEdgeSourceProjection::AfterGeometry,
            },
    {
        match self {
            LogicalInlineEdge::Start => {
                if width == 0 {
                    LogicalInlineEdgeSourceProjection::Absent
                } else {
                    LogicalInlineEdgeSourceProjection::BeforeGeometry
                }
            },
            LogicalInlineEdge::End(_) => LogicalInlineEdgeSourceProjection::AfterGeometry,
        }
    }
}



/// Block-axis participation of an inline box in line metrics.
#[derive(PartialEq, Eq, Structural, Debug, Clone, Copy)]
pub enum InlineBoxLineMetricParticipation {
    /// The box extends the line by its height.
    AtomicBlockExtent(i64),
    /// The box records a boundary only.
    BoundaryOnly,
}

/// The layout participation of an inline box. Geometry is in layout units.
#[derive(PartialEq, Eq, Structural, Debug, Clone, Copy)]
pub enum InlineBoxParticipation {
    /// An ordinary atomic inline with geometry and soft-wrap affinity.
    Atomic { width: i64, height: i64, break_affinity: InlineBoxBreakAffinity },
    /// A logical owner edge which contributes geometry but no soft-wrap
    /// opportunity of its own.
    LogicalOwnerStart { width: i64, height: i64 },
    /// A logical inline-end edge with explicit following source-space
    /// participation.
    LogicalOwnerEnd { width: i64, height: i64, following_source_space: FollowingSourceSpace },
    /// A positioned anchor which is transparent to line breaking and sizing.
    TransparentAnchor,
}

pub open spec fn participation_width(p: InlineBoxParticipation) -> i64 {
    match p {
        InlineBoxParticipation::Atomic { width, .. } => width,
        InlineBoxParticipation::LogicalOwnerStart { width, .. } => width,
        InlineBoxParticipation::LogicalOwnerEnd { width, .. } => width,
        InlineBoxParticipation::TransparentAnchor => 0,
    }
}

pub open spec fn participation_height(p: InlineBoxParticipation) -> i64 {
    match p {
        InlineBoxParticipation::Atomic { height, .. } => height,
        InlineBoxParticipation::LogicalOwnerStart { height, .. } => height,
        InlineBoxParticipation::LogicalOwnerEnd { height, .. } => height,
        InlineBoxParticipation::TransparentAnchor => 0,
    }
}

pub open spec fn spec_line_break_participation(p: InlineBoxParticipation) -> InlineBoxLineBreakParticipation {
    match p {
        InlineBoxParticipation::Atomic { break_affinity, .. } => InlineBoxLineBreakParticipation::Atomic(break_affinity),
        InlineBoxParticipation::LogicalOwnerStart { .. } =>
            InlineBoxLineBreakParticipation::LogicalOwnerEdge(LogicalInlineEdge::Start),
        InlineBoxParticipation::LogicalOwnerEnd { following_source_space, .. } =>
            InlineBoxLineBreakParticipation::LogicalOwnerEdge(LogicalInlineEdge::End(following_source_space)),
        InlineBoxParticipation::TransparentAnchor => InlineBoxLineBreakParticipation::TransparentAnchor,
    }
}

pub open spec fn spec_shaping_participation(p: InlineBoxParticipation) -> InlineBoxShapingParticipation {
    match p {
        InlineBoxParticipation::Atomic { .. } => InlineBoxShapingParticipation::InterveningInlineAdvance,
        InlineBoxParticipation::TransparentAnchor => InlineBoxShapingParticipation::TransparentBoundary,
        _ => if participation_width(p) == 0 {
            InlineBoxShapingParticipation::TransparentBoundary
        } else {
            InlineBoxShapingParticipation::InterveningInlineAdvance
        },
    }
}

impl InlineBoxParticipation {
    pub fn width(self) -> (r: i64)
        ensures
            r == participation_width(self),
    {
        match self {
            InlineBoxParticipation::Atomic { width, .. } => width,
            InlineBoxParticipation::LogicalOwnerStart { width, .. } => width,
            InlineBoxParticipation::LogicalOwnerEnd { width, .. } => width,
            InlineBoxParticipation::TransparentAnchor => 0,
        }
    }

    pub fn height(self) -> (r: i64)
        ensures
            r == participation_height(self),
    {
        match self {
            InlineBoxParticipation::Atomic { height, .. } => height,
            InlineBoxParticipation::LogicalOwnerStart { height, .. } => height,
            InlineBoxParticipation::LogicalOwnerEnd { height, .. } => height,
            InlineBoxParticipation::TransparentAnchor => 0,
        }
    }

    pub fn line_break_participation(self) -> (r: InlineBoxLineBreakParticipation)
        ensures
            r == spec_line_break_participation(self),
    {
        match self {
            InlineBoxParticipation::Atomic { break_affinity, .. } => {
                InlineBoxLineBreakParticipation::Atomic(break_affinity)
            },
            InlineBoxParticipation::LogicalOwnerStart { .. } => {
                InlineBoxLineBreakParticipation::LogicalOwnerEdge(LogicalInlineEdge::Start)
            },
            InlineBoxParticipation::LogicalOwnerEnd { following_source_space, .. } => {
                InlineBoxLineBreakParticipation::LogicalOwnerEdge(LogicalInlineEdge::End(following_source_space))
            },
            InlineBoxParticipation::TransparentAnchor => InlineBoxLineBreakParticipation::TransparentAnchor,
        }
    }

    pub fn shaping_participation(self) -> (r: InlineBoxShapingParticipation)
        ensures
            r == spec_shaping_participation(self),
    {
        match self {
            InlineBoxParticipation::Atomic { .. } => InlineBoxShapingParticipation::InterveningInlineAdvance,
            InlineBoxParticipation::LogicalOwnerStart { width, .. }
            | InlineBoxParticipation::LogicalOwnerEnd { width, .. } => {
                if width == 0 {
                    InlineBoxShapingParticipation::TransparentBoundary
                } else {
                    InlineBoxShapingParticipation::InterveningInlineAdvance
                }
            },
            InlineBoxParticipation::TransparentAnchor => InlineBoxShapingParticipation::TransparentBoundary,
        }
    }

    pub fn line_metric_participation(self) -> (r: InlineBoxLineMetricParticipation)
        ensures
            r == match self {
                InlineBoxParticipation::Atomic { height, .. } => InlineBoxLineMetricParticipation::AtomicBlockExtent(height),
                _ => InlineBoxLineMetricParticipation::BoundaryOnly,
            },
    {
        match self {
            InlineBoxParticipation::Atomic { height, .. } => InlineBoxLineMetricParticipation::AtomicBlockExtent(height),
            _ => InlineBoxLineMetricParticipation::BoundaryOnly,
        }
    }
}

/// A box to be laid out inline with text.
#[derive(PartialEq, Eq, Structural, Debug, Clone, Copy)]
pub struct InlineBox {
    /// User-specified identifier for the box.
    pub id: u64,
    /// The byte offset into the underlying text at which the box is placed.
    pub index: usize,
    participation: InlineBoxParticipation,
    bidi_attachment: InlineBoxBidiAttachment,
}

impl InlineBox {
    pub closed spec fn spec_id(&self) -> u64 {
        self.id
    }

    pub closed spec fn spec_index(&self) -> usize {
        self.index
    }

    pub closed spec fn spec_participation(&self) -> InlineBoxParticipation {
        self.participation
    }

    pub closed spec fn spec_bidi_attachment(&self) -> InlineBoxBidiAttachment {
        self.bidi_attachment
    }

    /// A regular (non-glued) inline box; width and height in layout units.
    pub fn new(id: u64, index: usize, width: i64, height: i64) -> (r: Self)
        ensures
            r.spec_id() == id,
            r.spec_index() == index,
            r.spec_participation() == (InlineBoxParticipation::Atomic {
                width,
                height,
                break_affinity: InlineBoxBreakAffinity::Independent,
            }),
            r.spec_bidi_attachment() == InlineBoxBidiAttachment::Independent,
    {
        InlineBox {
            id,
            index,
            participation: InlineBoxParticipation::Atomic {
                width,
                height,
                break_affinity: InlineBoxBreakAffinity::Independent,
            },
            bidi_attachment: InlineBoxBidiAttachment::Independent,
        }
    }

    /// A positioned anchor which does not participate in line breaking or sizing.
    pub fn transparent_anchor(id: u64, index: usize) -> (r: Self)
        ensures
            r.spec_id() == id,
            r.spec_index() == index,
            r.spec_participation() == InlineBoxParticipation::TransparentAnchor,
            r.spec_bidi_attachment() == InlineBoxBidiAttachment::Independent,
    {
        InlineBox {
            id,
            index,
            participation: InlineBoxParticipation::TransparentAnchor,
            bidi_attachment: InlineBoxBidiAttachment::Independent,
        }
    }

    /// An atomic inline box with an explicit soft-wrap affinity.
    pub fn atomic_with_break_affinity(
        id: u64,
        index: usize,
        width: i64,
        height: i64,
        break_affinity: InlineBoxBreakAffinity,
    ) -> (r: Self)
        ensures
            r.spec_id() == id,
            r.spec_index() == index,
            r.spec_participation() == (InlineBoxParticipation::Atomic { width, height, break_affinity }),
            r.spec_bidi_attachment() == InlineBoxBidiAttachment::Independent,
    {
        InlineBox {
            id,
            index,
            participation: InlineBoxParticipation::Atomic { width, height, break_affinity },
            bidi_attachment: InlineBoxBidiAttachment::Independent,
        }
    }

    /// A logical inline-start edge which reorders with the following content.
    /// The break affinity is accepted for call compatibility and ignored: an
    /// owner edge never creates an opportunity of its own.
    pub fn inline_start_edge(
        id: u64,
        index: usize,
        width: i64,
        height: i64,
        break_affinity: InlineBoxBreakAffinity,
    ) -> (r: Self)
        ensures
            r.spec_id() == id,
            r.spec_index() == index,
            r.spec_participation() == (InlineBoxParticipation::LogicalOwnerStart { width, height }),
            r.spec_bidi_attachment() == InlineBoxBidiAttachment::ToNext,
    {
        InlineBox {
            id,
            index,
            participation: InlineBoxParticipation::LogicalOwnerStart { width, height },
            bidi_attachment: InlineBoxBidiAttachment::ToNext,
        }
    }

    /// A logical inline-end edge which reorders with the preceding content
    /// and retains the advance of a following source space.
    pub fn inline_end_edge(
        id: u64,
        index: usize,
        width: i64,
        height: i64,
        break_affinity: InlineBoxBreakAffinity,
    ) -> (r: Self)
        ensures
            r.spec_id() == id,
            r.spec_index() == index,
            r.spec_participation() == (InlineBoxParticipation::LogicalOwnerEnd {
                width,
                height,
                following_source_space: FollowingSourceSpace::RetainedAdvance,
            }),
            r.spec_bidi_attachment() == InlineBoxBidiAttachment::ToPrevious,
    {
        Self::inline_end_edge_with_following_source_space(
            id,
            index,
            width,
            height,
            FollowingSourceSpace::RetainedAdvance,
            break_affinity,
        )
    }

    /// A logical inline-end edge with explicit following source-space
    /// participation.
    pub fn inline_end_edge_with_following_source_space(
        id: u64,
        index: usize,
        width: i64,
        height: i64,
        following_source_space: FollowingSourceSpace,
        break_affinity: InlineBoxBreakAffinity,
    ) -> (r: Self)
        ensures
            r.spec_id() == id,
            r.spec_index() == index,
            r.spec_participation() == (InlineBoxParticipation::LogicalOwnerEnd { width, height, following_source_space }),
            r.spec_bidi_attachment() == InlineBoxBidiAttachment::ToPrevious,
    {
        InlineBox {
            id,
            index,
            participation: InlineBoxParticipation::LogicalOwnerEnd { width, height, following_source_space },
            bidi_attachment: InlineBoxBidiAttachment::ToPrevious,
        }
    }

    /// The caller-supplied identity of the box.
    pub fn id(&self) -> (r: u64)
        ensures
            r == self.spec_id(),
    {
        self.id
    }

    /// The source byte offset at which the box participates.
    pub fn index(&self) -> (r: usize)
        ensures
            r == self.spec_index(),
    {
        self.index
    }

    /// The inline advance in layout units.
    pub fn width(&self) -> (r: i64)
        ensures
            r == participation_width(self.spec_participation()),
    {
        self.participation.width()
    }

    /// The block extent in layout units.
    pub fn height(&self) -> (r: i64)
        ensures
            r == participation_height(self.spec_participation()),
    {
        self.participation.height()
    }

    pub fn line_break_participation(&self) -> (r: InlineBoxLineBreakParticipation)
        ensures
            r == spec_line_break_participation(self.spec_participation()),
    {
        self.participation.line_break_participation()
    }

    pub fn shaping_participation(&self) -> (r: InlineBoxShapingParticipation)
        ensures
            r == spec_shaping_participation(self.spec_participation()),
    {
        self.participation.shaping_participation()
    }

    pub fn line_metric_participation(&self) -> (r: InlineBoxLineMetricParticipation)
        ensures
            r == match self.spec_participation() {
                InlineBoxParticipation::Atomic { height, .. } => InlineBoxLineMetricParticipation::AtomicBlockExtent(height),
                _ => InlineBoxLineMetricParticipation::BoundaryOnly,
            },
    {
        self.participation.line_metric_participation()
    }

    pub fn bidi_attachment(&self) -> (r: InlineBoxBidiAttachment)
        ensures
            r == self.spec_bidi_attachment(),
    {
        self.bidi_attachment
    }

    pub fn is_transparent_anchor(&self) -> (r: bool)
        ensures
            r <==> self.spec_participation() == InlineBoxParticipation::TransparentAnchor,
    {
        matches!(self.line_break_participation(), InlineBoxLineBreakParticipation::TransparentAnchor)
    }
}

} // verus!
