use vstd::prelude::*;

use crate::analysis::{AuthoredBreakUnit, Boundary, Whitespace};
use crate::inline_box::{
    spec_line_break_participation, FollowingSourceSpace, InlineBox, InlineBoxLineBreakParticipation,
    LogicalInlineEdge,
};
use crate::alignment::JustificationMode;
use crate::style::{IndentOptions, IndentStart, Style, TabSize, TextWrapMode};
use crate::units::{clamp_i64, sat_add, sat_sub};
use crate::unicode::{
    default_ignorable_code_point, is_default_ignorable_code_point, is_white_space_char,
    white_space_char,
};

verus! {

/// Selection policy among normal soft-wrap opportunities.
///
/// This does not create or suppress opportunities. It only decides whether
/// normal punctuation priority classes may displace a later fitting boundary,
/// or whether composition always keeps the latest fitting normal boundary.
#[derive(Clone, Copy, Debug, PartialEq, Eq, Structural)]
pub enum NormalSoftWrapSelection {
    /// Apply the normal punctuation priority classes.
    PriorityClasses,
    /// Keep the latest fitting normal boundary.
    GreedyLatest,
}

impl Default for NormalSoftWrapSelection {
    fn default() -> (r: Self)
        ensures
            r == NormalSoftWrapSelection::PriorityClasses,
    {
        NormalSoftWrapSelection::PriorityClasses
    }
}

/// Provenance-preserving override disposition.
#[derive(Clone, Copy, Debug, PartialEq, Eq, Structural)]
pub enum LineBreakOverrideDisposition {
    Suppress,
    NormalOpportunity,
    UnprioritizedOpportunity,
    ResolvedCollapsedSourceOpportunity,
    ResolvedRetainedSourceOpportunity,
}

/// A caller-supplied soft line-break decision at one UTF-8 byte boundary.
#[derive(Clone, Copy, Debug, PartialEq, Eq, Structural)]
pub struct LineBreakOverride {
    byte_index: usize,
    disposition: LineBreakOverrideDisposition,
}

impl LineBreakOverride {
    pub closed spec fn spec_byte_index(self) -> usize {
        self.byte_index
    }

    pub closed spec fn spec_disposition(self) -> LineBreakOverrideDisposition {
        self.disposition
    }

    /// Suppress a Unicode soft-wrap opportunity at `byte_index`.
    pub fn suppress(byte_index: usize) -> (r: Self)
        ensures
            r.spec_byte_index() == byte_index,
            r.spec_disposition() == LineBreakOverrideDisposition::Suppress,
    {
        LineBreakOverride { byte_index, disposition: LineBreakOverrideDisposition::Suppress }
    }

    /// Add a normal opportunity whose priority is derived from its authored
    /// source unit and the resolved line-breaking policy.
    pub fn opportunity(byte_index: usize) -> (r: Self)
        ensures
            r.spec_byte_index() == byte_index,
            r.spec_disposition() == LineBreakOverrideDisposition::NormalOpportunity,
    {
        LineBreakOverride { byte_index, disposition: LineBreakOverrideDisposition::NormalOpportunity }
    }

    /// Add an explicitly equal-priority opportunity.
    pub fn unprioritized_opportunity(byte_index: usize) -> (r: Self)
        ensures
            r.spec_byte_index() == byte_index,
            r.spec_disposition() == LineBreakOverrideDisposition::UnprioritizedOpportunity,
    {
        LineBreakOverride {
            byte_index,
            disposition: LineBreakOverrideDisposition::UnprioritizedOpportunity,
        }
    }

    /// Add a source opportunity whose wrapping styles were resolved before
    /// text normalisation removed its owning run.
    pub fn resolved_collapsed_source_opportunity(byte_index: usize) -> (r: Self)
        ensures
            r.spec_byte_index() == byte_index,
            r.spec_disposition() == LineBreakOverrideDisposition::ResolvedCollapsedSourceOpportunity,
    {
        LineBreakOverride {
            byte_index,
            disposition: LineBreakOverrideDisposition::ResolvedCollapsedSourceOpportunity,
        }
    }

    /// Add a resolved source opportunity after a retained source space.
    pub fn resolved_retained_source_opportunity(byte_index: usize) -> (r: Self)
        ensures
            r.spec_byte_index() == byte_index,
            r.spec_disposition() == LineBreakOverrideDisposition::ResolvedRetainedSourceOpportunity,
    {
        LineBreakOverride {
            byte_index,
            disposition: LineBreakOverrideDisposition::ResolvedRetainedSourceOpportunity,
        }
    }

    /// UTF-8 byte index of the affected boundary.
    pub fn byte_index(self) -> (r: usize)
        ensures
            r == self.spec_byte_index(),
    {
        self.byte_index
    }

    /// Whether the override adds rather than suppresses an opportunity.
    pub fn allows_break(self) -> (r: bool)
        ensures
            r <==> self.spec_disposition() != LineBreakOverrideDisposition::Suppress,
    {
        !matches!(self.disposition, LineBreakOverrideDisposition::Suppress)
    }

    /// The provenance of the override.
    pub fn disposition(self) -> (r: LineBreakOverrideDisposition)
        ensures
            r == self.spec_disposition(),
    {
        self.disposition
    }
}

/// Who decided that a source boundary is a soft-wrap opportunity.
#[derive(Clone, Copy, Debug, PartialEq, Eq, Structural)]
pub enum SourceSoftWrapAuthority {
    /// The adjoining styles decide; the following side wraps as given.
    AdjoiningStyles { following_wrap_mode: TextWrapMode },
    CallerResolvedCollapsedSpace,
    CallerResolvedRetainedSpace,
}

/// The first source soft-wrap boundary after a logical inline edge.
#[derive(Clone, Copy, Debug, PartialEq, Eq, Structural)]
pub enum SourceSoftWrapBoundary {
    Absent,
    Opportunity { byte_index: usize, authority: SourceSoftWrapAuthority },
}

/// A source boundary that a logical owner edge carries to its own side.
#[derive(Clone, Copy, Debug, PartialEq, Eq, Structural)]
pub enum ProjectedSourceBoundary {
    Exact { byte_index: usize },
    AcrossCollapsibleSpace {
        edge_byte_index: usize,
        source_byte_index: usize,
        following_source_space: FollowingSourceSpace,
    },
}

/// Whether a source cluster keeps its advance on a line selected at a
/// projected boundary.
#[derive(Clone, Copy, Debug, PartialEq, Eq, Structural)]
pub enum ProjectedSourceClusterParticipation {
    Normal,
    CollapsedSourceSpace,
}

/// Whether the owner fragment filled the measure.
#[derive(Clone, Copy, Debug, PartialEq, Eq, Structural)]
pub enum ProjectedSourceLineFill {
    AvailableMeasure,
    FilledMeasure,
}

/// Source-cluster advance selected for one materialised line.
#[derive(Clone, Copy, Debug, PartialEq, Eq, Structural)]
pub enum SelectedSourceClusterAdvance {
    Natural,
    /// Clusters starting in `[start, end)` have no advance on this line.
    Collapsed { start: usize, end: usize },
}

impl Default for SelectedSourceClusterAdvance {
    fn default() -> (r: Self)
        ensures
            r == SelectedSourceClusterAdvance::Natural,
    {
        SelectedSourceClusterAdvance::Natural
    }
}

/// Whether a cluster starting at `byte_index` is collapsed by `s`.
pub open spec fn collapses(s: SelectedSourceClusterAdvance, byte_index: usize) -> bool {
    match s {
        SelectedSourceClusterAdvance::Natural => false,
        SelectedSourceClusterAdvance::Collapsed { start, end } => start <= byte_index < end,
    }
}

impl SelectedSourceClusterAdvance {
    /// The advance of the cluster starting at `byte_index` on this line:
    /// zero inside the collapsed range, else the natural advance.
    pub fn resolve(&self, byte_index: usize, natural_advance: i64) -> (r: i64)
        ensures
            r == if collapses(*self, byte_index) { 0i64 } else { natural_advance },
    {
        match self {
            SelectedSourceClusterAdvance::Collapsed { start, end } => {
                if *start <= byte_index && byte_index < *end {
                    0
                } else {
                    natural_advance
                }
            },
            SelectedSourceClusterAdvance::Natural => natural_advance,
        }
    }
}

pub open spec fn spec_resolve_line_fill(b: ProjectedSourceBoundary, fill: ProjectedSourceLineFill) -> ProjectedSourceBoundary {
    match b {
        ProjectedSourceBoundary::AcrossCollapsibleSpace {
            edge_byte_index,
            source_byte_index,
            following_source_space: FollowingSourceSpace::CollapseAfterFilledOwnerFragment,
        } => ProjectedSourceBoundary::AcrossCollapsibleSpace {
            edge_byte_index,
            source_byte_index,
            following_source_space: match fill {
                ProjectedSourceLineFill::FilledMeasure => FollowingSourceSpace::CollapsedAfterProjectedBreak,
                ProjectedSourceLineFill::AvailableMeasure => FollowingSourceSpace::RetainedAdvance,
            },
        },
        _ => b,
    }
}

pub open spec fn spec_target(b: ProjectedSourceBoundary) -> usize {
    match b {
        ProjectedSourceBoundary::Exact { byte_index } => byte_index,
        ProjectedSourceBoundary::AcrossCollapsibleSpace { source_byte_index, .. } => source_byte_index,
    }
}

pub open spec fn spec_suppresses(b: ProjectedSourceBoundary, byte_index: usize) -> bool {
    match b {
        ProjectedSourceBoundary::Exact { byte_index: p } => byte_index == p,
        ProjectedSourceBoundary::AcrossCollapsibleSpace { edge_byte_index, source_byte_index, .. } =>
            edge_byte_index <= byte_index <= source_byte_index,
    }
}

/// Whether `b` collapses the traversed source space on the line it starts.
pub open spec fn collapses_traversed_space(b: ProjectedSourceBoundary) -> bool {
    b matches ProjectedSourceBoundary::AcrossCollapsibleSpace {
        following_source_space: FollowingSourceSpace::CollapsedAfterProjectedBreak,
        ..
    }
}

impl ProjectedSourceBoundary {
    /// Settles a `CollapseAfterFilledOwnerFragment` participation by how the
    /// owner fragment filled the line; every other boundary is unchanged.
    pub fn resolve_line_fill(self, fill: ProjectedSourceLineFill) -> (r: Self)
        ensures
            r == spec_resolve_line_fill(self, fill),
    {
        match (self, fill) {
            (
                ProjectedSourceBoundary::AcrossCollapsibleSpace {
                    edge_byte_index,
                    source_byte_index,
                    following_source_space: FollowingSourceSpace::CollapseAfterFilledOwnerFragment,
                },
                ProjectedSourceLineFill::FilledMeasure,
            ) => ProjectedSourceBoundary::AcrossCollapsibleSpace {
                edge_byte_index,
                source_byte_index,
                following_source_space: FollowingSourceSpace::CollapsedAfterProjectedBreak,
            },
            (
                ProjectedSourceBoundary::AcrossCollapsibleSpace {
                    edge_byte_index,
                    source_byte_index,
                    following_source_space: FollowingSourceSpace::CollapseAfterFilledOwnerFragment,
                },
                ProjectedSourceLineFill::AvailableMeasure,
            ) => ProjectedSourceBoundary::AcrossCollapsibleSpace {
                edge_byte_index,
                source_byte_index,
                following_source_space: FollowingSourceSpace::RetainedAdvance,
            },
            (boundary, _) => boundary,
        }
    }

    /// The source byte at which the projected break lands.
    pub fn target(self) -> (r: usize)
        ensures
            r == spec_target(self),
    {
        match self {
            ProjectedSourceBoundary::Exact { byte_index } => byte_index,
            ProjectedSourceBoundary::AcrossCollapsibleSpace { source_byte_index, .. } => source_byte_index,
        }
    }

    /// Whether the Unicode opportunity at `byte_index` is replaced by this
    /// projection.
    pub fn suppresses(self, byte_index: usize) -> (r: bool)
        ensures
            r == spec_suppresses(self, byte_index),
    {
        match self {
            ProjectedSourceBoundary::Exact { byte_index: projected_byte_index } => {
                byte_index == projected_byte_index
            },
            ProjectedSourceBoundary::AcrossCollapsibleSpace { edge_byte_index, source_byte_index, .. } => {
                byte_index >= edge_byte_index && byte_index <= source_byte_index
            },
        }
    }

    /// The participation of the cluster starting at `byte_index` on the line
    /// that begins at this projection: collapsed inside the traversed space
    /// of a collapsing end edge, otherwise normal.
    pub fn cluster_participation(self, byte_index: usize) -> (r: ProjectedSourceClusterParticipation)
        ensures
            r == if collapses_traversed_space(self) && match self {
                ProjectedSourceBoundary::AcrossCollapsibleSpace { edge_byte_index, source_byte_index, .. } =>
                    edge_byte_index <= byte_index < source_byte_index,
                _ => false,
            } {
                ProjectedSourceClusterParticipation::CollapsedSourceSpace
            } else {
                ProjectedSourceClusterParticipation::Normal
            },
    {
        match self {
            ProjectedSourceBoundary::AcrossCollapsibleSpace {
                edge_byte_index,
                source_byte_index,
                following_source_space: FollowingSourceSpace::CollapsedAfterProjectedBreak,
            } => {
                if byte_index >= edge_byte_index && byte_index < source_byte_index {
                    ProjectedSourceClusterParticipation::CollapsedSourceSpace
                } else {
                    ProjectedSourceClusterParticipation::Normal
                }
            },
            _ => ProjectedSourceClusterParticipation::Normal,
        }
    }

    /// The line-local cluster advance selection that this projection imposes
    /// on the line it starts.
    pub fn selected_source_cluster_advance(self) -> (r: SelectedSourceClusterAdvance)
        ensures
            r == match self {
                ProjectedSourceBoundary::AcrossCollapsibleSpace {
                    edge_byte_index,
                    source_byte_index,
                    following_source_space: FollowingSourceSpace::CollapsedAfterProjectedBreak,
                } => SelectedSourceClusterAdvance::Collapsed { start: edge_byte_index, end: source_byte_index },
                _ => SelectedSourceClusterAdvance::Natural,
            },
    {
        match self {
            ProjectedSourceBoundary::AcrossCollapsibleSpace {
                edge_byte_index,
                source_byte_index,
                following_source_space: FollowingSourceSpace::CollapsedAfterProjectedBreak,
            } => SelectedSourceClusterAdvance::Collapsed { start: edge_byte_index, end: source_byte_index },
            _ => SelectedSourceClusterAdvance::Natural,
        }
    }
}

pub open spec fn spec_is_available_from(b: SourceSoftWrapBoundary, preceding_wrap_mode: TextWrapMode) -> bool {
    match b {
        SourceSoftWrapBoundary::Absent => false,
        SourceSoftWrapBoundary::Opportunity { authority, .. } => match authority {
            SourceSoftWrapAuthority::AdjoiningStyles { following_wrap_mode } =>
                preceding_wrap_mode == TextWrapMode::Wrap || following_wrap_mode == TextWrapMode::Wrap,
            _ => true,
        },
    }
}

pub open spec fn spec_projection_from(
    b: SourceSoftWrapBoundary,
    edge_byte_index: usize,
    following_source_space: FollowingSourceSpace,
) -> Option<ProjectedSourceBoundary> {
    match b {
        SourceSoftWrapBoundary::Absent => None,
        SourceSoftWrapBoundary::Opportunity { byte_index, authority } => {
            if byte_index == edge_byte_index {
                Some(ProjectedSourceBoundary::Exact { byte_index })
            } else if byte_index > edge_byte_index
                && authority != SourceSoftWrapAuthority::CallerResolvedRetainedSpace
                && following_source_space != FollowingSourceSpace::UnicodeBoundary {
                Some(ProjectedSourceBoundary::AcrossCollapsibleSpace {
                    edge_byte_index,
                    source_byte_index: byte_index,
                    following_source_space,
                })
            } else {
                None
            }
        },
    }
}

impl SourceSoftWrapBoundary {
    /// Whether the boundary is a usable opportunity when the content before
    /// it wraps as `preceding_wrap_mode`: a style-resolved boundary needs one
    /// wrapping side, a caller-resolved one is always usable.
    pub fn is_available_from(self, preceding_wrap_mode: TextWrapMode) -> (r: bool)
        ensures
            r == spec_is_available_from(self, preceding_wrap_mode),
    {
        match self {
            SourceSoftWrapBoundary::Absent => false,
            SourceSoftWrapBoundary::Opportunity {
                authority: SourceSoftWrapAuthority::AdjoiningStyles { following_wrap_mode },
                ..
            } => {
                matches!(preceding_wrap_mode, TextWrapMode::Wrap)
                    || matches!(following_wrap_mode, TextWrapMode::Wrap)
            },
            SourceSoftWrapBoundary::Opportunity { .. } => true,
        }
    }

    /// The projection of this boundary by an edge at `edge_byte_index`: the
    /// boundary itself when it is at the edge; across following collapsible
    /// space when it lies after the edge, unless the boundary belongs to a
    /// retained space or Unicode keeps authority over that space.
    pub fn projection_from(
        self,
        edge_byte_index: usize,
        following_source_space: FollowingSourceSpace,
    ) -> (r: Option<ProjectedSourceBoundary>)
        ensures
            r == spec_projection_from(self, edge_byte_index, following_source_space),
    {
        match self {
            SourceSoftWrapBoundary::Absent => None,
            SourceSoftWrapBoundary::Opportunity { byte_index, authority } => {
                if byte_index == edge_byte_index {
                    Some(ProjectedSourceBoundary::Exact { byte_index })
                } else if byte_index > edge_byte_index {
                    match (authority, following_source_space) {
                        (SourceSoftWrapAuthority::CallerResolvedRetainedSpace, _) => None,
                        (_, FollowingSourceSpace::UnicodeBoundary) => None,
                        _ => Some(ProjectedSourceBoundary::AcrossCollapsibleSpace {
                            edge_byte_index,
                            source_byte_index: byte_index,
                            following_source_space,
                        }),
                    }
                } else {
                    None
                }
            },
        }
    }
}

/// A projection suppresses the Unicode opportunity at its own target, and
/// its target is the byte of the boundary it projects.
pub proof fn lemma_projection_suppresses_its_target(
    b: SourceSoftWrapBoundary,
    edge_byte_index: usize,
    following_source_space: FollowingSourceSpace,
)
    ensures
        spec_projection_from(b, edge_byte_index, following_source_space) matches Some(p) ==> {
            &&& spec_suppresses(p, spec_target(p))
            &&& spec_suppresses(p, edge_byte_index)
            &&& b matches SourceSoftWrapBoundary::Opportunity { byte_index, .. }
                && spec_target(p) == byte_index && byte_index >= edge_byte_index
        },
{
}

/// Settling the line fill twice settles it once.
pub proof fn lemma_resolve_line_fill_idempotent(
    b: ProjectedSourceBoundary,
    first: ProjectedSourceLineFill,
    second: ProjectedSourceLineFill,
)
    ensures
        spec_resolve_line_fill(spec_resolve_line_fill(b, first), second) == spec_resolve_line_fill(b, first),
        spec_target(spec_resolve_line_fill(b, first)) == spec_target(b),
{
}


/// The layout whitespace class of a source character.
pub open spec fn spec_to_whitespace(c: char) -> Whitespace {
    if c == ' ' {
        Whitespace::Space
    } else if c == '\t' {
        Whitespace::Tab
    } else if c == '\n' || c == '\r' || c == '\u{2028}' || c == '\u{2029}' {
        Whitespace::Newline
    } else if c == '\u{00A0}' {
        Whitespace::NoBreakSpace
    } else {
        Whitespace::NonWhitespace
    }
}

/// Classifies a source character: space, tab, newline (including the line
/// and paragraph separators), no-break space, or none of these.
pub fn to_whitespace(c: char) -> (r: Whitespace)
    ensures
        r == spec_to_whitespace(c),
{
    if c == ' ' {
        Whitespace::Space
    } else if c == '\t' {
        Whitespace::Tab
    } else if c == '\n' || c == '\r' || c == '\u{2028}' || c == '\u{2029}' {
        Whitespace::Newline
    } else if c == '\u{00A0}' {
        Whitespace::NoBreakSpace
    } else {
        Whitespace::NonWhitespace
    }
}

/// Whether `c` lies in one of the emoji blocks that layout recognises.
pub open spec fn spec_is_emoji(c: char) -> bool {
    let u = c as u32;
    (0x1F600 <= u <= 0x1F64F) || (0x1F300 <= u <= 0x1F5FF) || (0x1F680 <= u <= 0x1F6FF) || (0x2600
        <= u <= 0x26FF) || (0x2700 <= u <= 0x27BF)
}

/// Segmentation facts about the source character that starts a cluster.
#[derive(Copy, Clone, Debug, PartialEq, Eq, Structural)]
pub struct ClusterInfo {
    pub boundary: Boundary,
    pub source_char: char,
    pub authored_break_unit: AuthoredBreakUnit,
}

impl ClusterInfo {
    pub fn new(boundary: Boundary, source_char: char, authored_break_unit: AuthoredBreakUnit) -> (r: Self)
        ensures
            r == (ClusterInfo { boundary, source_char, authored_break_unit }),
    {
        ClusterInfo { boundary, source_char, authored_break_unit }
    }

    /// The boundary type of the cluster.
    pub fn boundary(self) -> (r: Boundary)
        ensures
            r == self.boundary,
    {
        self.boundary
    }

    /// The whitespace type of the cluster.
    pub fn whitespace(self) -> (r: Whitespace)
        ensures
            r == spec_to_whitespace(self.source_char),
    {
        to_whitespace(self.source_char)
    }

    /// Whether the cluster is a segmentation boundary of any kind.
    pub fn is_boundary(self) -> (r: bool)
        ensures
            r <==> self.boundary != Boundary::NoBoundary,
    {
        self.boundary != Boundary::NoBoundary
    }

    /// Whether the cluster is an emoji.
    pub fn is_emoji(self) -> (r: bool)
        ensures
            r == spec_is_emoji(self.source_char),
    {
        let u = self.source_char as u32;
        (0x1F600 <= u && u <= 0x1F64F) || (0x1F300 <= u && u <= 0x1F5FF) || (0x1F680 <= u && u
            <= 0x1F6FF) || (0x2600 <= u && u <= 0x26FF) || (0x2700 <= u && u <= 0x27BF)
    }

    /// Whether the cluster is any Unicode whitespace.
    pub fn is_whitespace(self) -> (r: bool)
        ensures
            r == white_space_char(self.source_char),
    {
        is_white_space_char(self.source_char)
    }

    /// The cluster's source character.
    pub fn source_char(self) -> (r: char)
        ensures
            r == self.source_char,
    {
        self.source_char
    }

    /// The semantic source-unit class used for wrap-candidate provenance.
    pub fn authored_break_unit(self) -> (r: AuthoredBreakUnit)
        ensures
            r == self.authored_break_unit,
    {
        self.authored_break_unit
    }

    /// Whether the cluster is absent from default rendering, and so is not a
    /// typographic character unit.
    pub fn is_default_ignorable(self) -> (r: bool)
        ensures
            r == default_ignorable_code_point(self.source_char),
    {
        is_default_ignorable_code_point(self.source_char)
    }
}

/// The cluster flag of the first cluster of a ligature.
pub const LIGATURE_START: u16 = 1;

/// The cluster flag of a later component of a ligature.
pub const LIGATURE_COMPONENT: u16 = 2;

/// One shaped cluster: its source character, flags and text position.
#[derive(Copy, Clone, Debug, PartialEq, Eq, Structural)]
pub struct ClusterData {
    pub info: ClusterInfo,
    /// Cluster flags (`LIGATURE_START`, `LIGATURE_COMPONENT`).
    pub flags: u16,
    /// Style index for this cluster.
    pub style_index: u16,
    /// Number of glyphs in this cluster (0xFF = single glyph stored inline).
    pub glyph_len: u8,
    /// Number of text bytes in this cluster.
    pub text_len: u8,
    /// Glyph identifier (inline glyph) or offset into the run's glyphs.
    pub glyph_offset: u32,
    /// Offset into the run's text for this cluster.
    pub text_offset: u16,
    /// Advance width for this cluster.
    pub advance: i64,
    /// Advance used only for greedy line-fit decisions.
    pub line_break_advance: i64,
}

/// One positioned glyph.
#[derive(Copy, Clone, Debug, PartialEq, Eq, Structural)]
pub struct Glyph {
    pub id: u32,
    pub style_index: u16,
    pub x: i64,
    pub y: i64,
    pub advance: i64,
}

impl ClusterData {
    pub fn is_ligature_start(self) -> (r: bool)
        ensures
            r <==> self.flags & LIGATURE_START != 0,
    {
        self.flags & LIGATURE_START != 0
    }

    pub fn is_ligature_component(self) -> (r: bool)
        ensures
            r <==> self.flags & LIGATURE_COMPONENT != 0,
    {
        self.flags & LIGATURE_COMPONENT != 0
    }

    /// The source byte range of the cluster within the text of `run`.
    pub fn text_range(self, run: &RunData) -> (r: (usize, usize))
        requires
            run.text_start + self.text_offset + self.text_len <= usize::MAX,
        ensures
            r.0 == run.text_start + self.text_offset,
            r.1 == r.0 + self.text_len,
    {
        let start = run.text_start + self.text_offset as usize;
        (start, start + self.text_len as usize)
    }
}

/// A shaping run: its source text, bidi level and clusters.
#[derive(Clone, Copy, Debug, PartialEq, Eq, Structural)]
pub struct RunData {
    /// Start of the source text range.
    pub text_start: usize,
    /// End of the source text range.
    pub text_end: usize,
    /// Bidi level for the run.
    pub bidi_level: u8,
    /// Start of the range of clusters.
    pub cluster_start: usize,
    /// End of the range of clusters.
    pub cluster_end: usize,
    /// Base for glyph indices.
    pub glyph_start: usize,
    /// Advance of the space glyph of the run's font.
    pub space_advance: i64,
    /// Glyph identifier of the space glyph.
    pub space_glyph_id: u32,
    /// Additional word spacing.
    pub word_spacing: i64,
    /// Additional letter spacing.
    pub letter_spacing: i64,
    /// Total advance of the run.
    pub advance: i64,
}

/// The cause of a line break.
#[derive(Copy, Clone, Debug, PartialEq, Eq, Structural)]
pub enum BreakReason {
    /// The line is not ended by a break (the last line).
    Unbroken,
    Regular,
    Explicit,
    Emergency,
}

impl Default for BreakReason {
    fn default() -> (r: Self)
        ensures
            r == BreakReason::Unbroken,
    {
        BreakReason::Unbroken
    }
}

/// Whether an item is a text run or an inline box.
#[derive(Debug, Clone, Copy, PartialEq, Eq, Structural)]
pub enum LayoutItemKind {
    TextRun,
    InlineBox,
}

/// One paragraph item before line breaking.
#[derive(Debug, Clone, Copy, PartialEq, Eq, Structural)]
pub struct LayoutItem {
    pub kind: LayoutItemKind,
    /// The index of the run or inline box.
    pub index: usize,
    /// Bidi level for the item.
    pub bidi_level: u8,
    pub text_start: usize,
    pub text_end: usize,
    pub cluster_start: usize,
    pub cluster_end: usize,
}

/// Material inserted only when a discretionary line break is taken.
#[derive(Clone, Copy, Debug, PartialEq, Eq, Structural)]
pub struct DiscretionaryBreak {
    /// UTF-8 byte index of the boundary after the discretionary character.
    pub byte_index: usize,
    /// Advance of the inserted material.
    pub advance: i64,
    /// Maximum number of consecutive lines that may end at this class of
    /// discretionary break. `None` imposes no limit.
    pub max_consecutive_lines: Option<u32>,
}


/// One item of a committed line.
#[derive(Debug, Clone, Copy, PartialEq, Eq, Structural)]
pub struct LineItemData {
    pub kind: LayoutItemKind,
    /// The index of the run or inline box.
    pub index: usize,
    /// Bidi level for the item (used for reordering).
    pub bidi_level: u8,
    /// Stable item identity in the paragraph topology.
    pub layout_item_index: Option<usize>,
    /// Advance (size in direction of text flow) of the item on its line.
    pub advance: i64,
    /// True if the run is composed entirely of whitespace.
    pub is_whitespace: bool,
    /// True if the run ends in whitespace.
    pub has_trailing_whitespace: bool,
    pub text_start: usize,
    pub text_end: usize,
    pub cluster_start: usize,
    pub cluster_end: usize,
}

/// A cluster that is visible non-whitespace content.
pub open spec fn is_content_cluster(c: ClusterData) -> bool {
    !default_ignorable_code_point(c.info.source_char) && !white_space_char(c.info.source_char)
}

/// A cluster that is visible whitespace.
pub open spec fn is_space_cluster(c: ClusterData) -> bool {
    !default_ignorable_code_point(c.info.source_char) && white_space_char(c.info.source_char)
}

/// The clusters of `item` from its logical end backwards: from the front
/// for a right-to-left run, from the back otherwise.
pub open spec fn trailing_scan(item: LineItemData, clusters: Seq<ClusterData>) -> Seq<ClusterData> {
    let cs = clusters.subrange(item.cluster_start as int, item.cluster_end as int);
    if item.bidi_level % 2 == 1 { cs } else { cs.reverse() }
}

/// Whitespace clusters occur in `cs` before the first content cluster.
pub open spec fn leading_space_before_content(cs: Seq<ClusterData>) -> bool {
    exists|q: int|
        0 <= q < cs.len() && is_space_cluster(#[trigger] cs[q]) && forall|r: int|
            0 <= r < q ==> !is_content_cluster(#[trigger] cs[r])
}

impl LineItemData {
    pub fn is_text_run(&self) -> (r: bool)
        ensures
            r <==> self.kind == LayoutItemKind::TextRun,
    {
        self.kind == LayoutItemKind::TextRun
    }

    pub fn is_rtl(&self) -> (r: bool)
        ensures
            r <==> self.bidi_level % 2 == 1,
    {
        let l = self.bidi_level;
        assert(l & 1 != 0 <==> l % 2 == 1) by (bit_vector);
        l & 1 != 0
    }

    /// For a text run, records whether it consists only of whitespace and
    /// default-ignorable clusters, and whether whitespace occurs at its
    /// logical end before any visible content (ignorable clusters are
    /// skipped). A trailing-whitespace flag that is already set stays set.
    pub fn compute_whitespace_properties(&mut self, layout_data: &LayoutData)
        requires
            old(self).cluster_start <= old(self).cluster_end <= layout_data.clusters@.len(),
        ensures
            old(self).kind != LayoutItemKind::TextRun ==> *final(self) == *old(self),
            old(self).kind == LayoutItemKind::TextRun ==> final(self).is_whitespace == (forall|q: int|
                0 <= q < trailing_scan(*old(self), layout_data.clusters@).len()
                    ==> !is_content_cluster(#[trigger] trailing_scan(*old(self), layout_data.clusters@)[q])),
            old(self).kind == LayoutItemKind::TextRun ==> final(self).has_trailing_whitespace == (
                old(self).has_trailing_whitespace || leading_space_before_content(trailing_scan(*old(self), layout_data.clusters@))),
            final(self).kind == old(self).kind,
            final(self).index == old(self).index,
            final(self).bidi_level == old(self).bidi_level,
            final(self).layout_item_index == old(self).layout_item_index,
            final(self).advance == old(self).advance,
            final(self).text_start == old(self).text_start,
            final(self).text_end == old(self).text_end,
            final(self).cluster_start == old(self).cluster_start,
            final(self).cluster_end == old(self).cluster_end,
    {
        if self.kind != LayoutItemKind::TextRun {
            return;
        }
        let ghost cs = trailing_scan(*self, layout_data.clusters@);
        let ghost prior = self.has_trailing_whitespace;
        let start = self.cluster_start;
        let end = self.cluster_end;
        let rtl = self.is_rtl();
        let ghost sub = layout_data.clusters@.subrange(start as int, end as int);
        self.is_whitespace = true;
        let ghost before = *self;
        let mut found_space = false;
        let mut hit_content = false;
        let mut q: usize = 0;
        let len = end - start;
        while q < len && !hit_content
            invariant
                start <= end <= layout_data.clusters@.len(),
                len == end - start,
                sub == layout_data.clusters@.subrange(start as int, end as int),
                cs.len() == len,
                cs == (if rtl { sub } else { sub.reverse() }),
                q <= len,
                *self == (LineItemData { is_whitespace: self.is_whitespace, ..before }),
                hit_content ==> q < len && is_content_cluster(cs[q as int]) && !self.is_whitespace,
                !hit_content ==> self.is_whitespace,
                forall|r: int| 0 <= r < q ==> !is_content_cluster(#[trigger] cs[r]),
                found_space == exists|r: int| 0 <= r < q && is_space_cluster(#[trigger] cs[r]),
            decreases len - q + if hit_content { 0int } else { 1int },
        {
            let c = if rtl { layout_data.clusters[start + q] } else { layout_data.clusters[end - 1 - q] };
            assert(c == cs[q as int]);
            if c.info.is_default_ignorable() {
                q = q + 1;
            } else if c.info.is_whitespace() {
                found_space = true;
                q = q + 1;
            } else {
                self.is_whitespace = false;
                hit_content = true;
            }
        }
        if found_space {
            self.has_trailing_whitespace = true;
        }
        proof {
            if hit_content {
                assert(is_content_cluster(cs[q as int]));
                assert(!(forall|r: int| 0 <= r < cs.len() ==> !is_content_cluster(#[trigger] cs[r])));
            } else {
                assert(q == len);
            }
            if found_space {
                let w = choose|r: int| 0 <= r < q && is_space_cluster(#[trigger] cs[r]);
                assert(forall|r: int| 0 <= r < w ==> !is_content_cluster(#[trigger] cs[r]));
                assert(leading_space_before_content(cs));
            } else if leading_space_before_content(cs) {
                let w = choose|w: int|
                    0 <= w < cs.len() && is_space_cluster(#[trigger] cs[w]) && forall|r: int|
                        0 <= r < w ==> !is_content_cluster(#[trigger] cs[r]);
                if w < q {
                    assert(false);
                } else if !hit_content {
                    assert(false);
                } else {
                    assert(is_content_cluster(cs[q as int]));
                    assert(w > q);
                    assert(false);
                }
            }
        }
    }
}


/// A committed line.
#[derive(Clone, Copy, Debug, PartialEq, Eq, Structural)]
pub struct LineData {
    pub text_start: usize,
    pub text_end: usize,
    pub item_start: usize,
    pub item_end: usize,
    /// The cause of the line break.
    pub break_reason: BreakReason,
    /// Number of justified clusters on the line.
    pub num_spaces: usize,
    /// Source-cluster advance selected for this materialised line.
    pub selected_source_cluster_advance: SelectedSourceClusterAdvance,
    /// Whether this line selected a registered discretionary boundary.
    pub ends_at_discretionary_break: bool,
    /// Advance of the line content.
    pub advance: i64,
    /// Advance of the whitespace that hangs at the line's trailing edge.
    pub trailing_whitespace: i64,
    /// The measure the line was broken against.
    pub max_advance: i64,
    /// Text indent applied to this line.
    pub indent: i64,
    /// Advance inserted only because the line ended at a discretionary break.
    pub discretionary_advance: i64,
    /// Offset of the line from the start edge, set by alignment.
    pub offset: i64,
}

/// The paragraph data that line breaking and bidi reordering read.
#[derive(Clone, Debug, PartialEq, Eq)]
pub struct LayoutData {
    pub normal_soft_wrap_selection: NormalSoftWrapSelection,
    /// Reclaim collapsible trailing whitespace when that lets a following
    /// inline box fit on the current line.
    pub reclaim_space_before_inline_box: bool,
    /// Caller-supplied decisions for specific UTF-8 byte boundaries, in
    /// strictly increasing byte order.
    pub line_break_overrides: Vec<LineBreakOverride>,
    /// Discretionary break material, in strictly increasing byte order.
    pub discretionary_breaks: Vec<DiscretionaryBreak>,
    pub base_level: u8,
    /// The start byte and base bidi level of each paragraph that begins
    /// after the text start, in strictly increasing byte order. A line takes
    /// the level of the last of them that starts at or before its text, and
    /// `base_level` where none does.
    pub paragraph_levels: Vec<(usize, u8)>,
    pub text_len: usize,
    pub styles: Vec<Style>,
    pub inline_boxes: Vec<InlineBox>,
    pub runs: Vec<RunData>,
    pub items: Vec<LayoutItem>,
    pub clusters: Vec<ClusterData>,
    pub glyphs: Vec<Glyph>,
    pub lines: Vec<LineData>,
    pub line_items: Vec<LineItemData>,
    /// The text-indent amount in layout units.
    pub indent_amount: i64,
    pub indent_options: IndentOptions,
    pub indent_start: IndentStart,
    /// Widest line advance, without trailing whitespace.
    pub width: i64,
    /// Widest line advance, with trailing whitespace.
    pub full_width: i64,
    /// The width lines were aligned against.
    pub alignment_width: i64,
    /// Per-line alignment widths; later lines use the last one.
    pub per_line_alignment_widths: Vec<i64>,
    /// The justification applied by the last alignment, if any.
    pub aligned_justification_mode: Option<JustificationMode>,
    /// Whether cluster advances currently carry justification.
    pub is_aligned_justified: bool,
}


/// Override entries are in strictly increasing byte order.
pub open spec fn overrides_sorted(o: Seq<LineBreakOverride>) -> bool {
    forall|i: int, j: int| 0 <= i < j < o.len() ==> o[i].spec_byte_index() < o[j].spec_byte_index()
}

/// The disposition of the override at byte `b`, if there is one.
pub open spec fn override_at(o: Seq<LineBreakOverride>, b: usize) -> Option<LineBreakOverrideDisposition> {
    if exists|i: int| 0 <= i < o.len() && (#[trigger] o[i]).spec_byte_index() == b {
        Some(o[choose|i: int| 0 <= i < o.len() && (#[trigger] o[i]).spec_byte_index() == b].spec_disposition())
    } else {
        None
    }
}

/// Binary search for the override at byte `b`.
pub fn find_override(overrides: &Vec<LineBreakOverride>, b: usize) -> (r: Option<LineBreakOverrideDisposition>)
    requires
        overrides_sorted(overrides@),
    ensures
        r == override_at(overrides@, b),
{
    let mut lo: usize = 0;
    let mut hi: usize = overrides.len();
    while lo < hi
        invariant
            lo <= hi <= overrides@.len(),
            overrides_sorted(overrides@),
            forall|i: int| 0 <= i < lo ==> overrides@[i].spec_byte_index() < b,
            forall|i: int| hi <= i < overrides@.len() ==> overrides@[i].spec_byte_index() > b,
        decreases hi - lo,
    {
        let mid = lo + (hi - lo) / 2;
        let key = overrides[mid].byte_index();
        if key == b {
            let ghost w = choose|i: int| 0 <= i < overrides@.len() && (#[trigger] overrides@[i]).spec_byte_index() == b;
            assert(overrides@[mid as int].spec_byte_index() == b);
            proof {
                if w < mid as int {
                    assert(false);
                } else if w > mid as int {
                    assert(false);
                }
            }
            return Some(overrides[mid].disposition());
        } else if key < b {
            lo = mid + 1;
        } else {
            hi = mid;
        }
    }
    assert(!exists|i: int| 0 <= i < overrides@.len() && (#[trigger] overrides@[i]).spec_byte_index() == b);
    None
}

impl LayoutData {
    /// The invariant of the item stream that scanning relies on: items name
    /// existing runs, boxes and clusters, cluster styles exist, source byte
    /// positions fit in `usize`, and overrides are sorted.
    pub open spec fn wf(&self) -> bool {
        &&& overrides_sorted(self.line_break_overrides@)
        &&& forall|i: int| 0 <= i < self.items@.len() ==> self.item_wf(#[trigger] self.items@[i])
    }

    pub open spec fn item_wf(&self, item: LayoutItem) -> bool {
        match item.kind {
            LayoutItemKind::InlineBox => item.index < self.inline_boxes@.len(),
            LayoutItemKind::TextRun => {
                &&& item.index < self.runs@.len()
                &&& item.cluster_start <= item.cluster_end <= self.clusters@.len()
                &&& forall|c: int| item.cluster_start <= c < item.cluster_end ==> {
                    &&& (#[trigger] self.clusters@[c]).style_index < self.styles@.len()
                    &&& self.runs@[item.index as int].text_start + self.clusters@[c].text_offset
                        + self.clusters@[c].text_len <= usize::MAX
                }
            },
        }
    }

    /// The start of the cluster range of item `i`, or 0 past the end.
    pub open spec fn next_cluster_start(&self, i: int) -> int {
        if 0 <= i < self.items@.len() { self.items@[i].cluster_start as int } else { 0 }
    }

    /// The source byte at which cluster `c` of text item `i` starts.
    pub open spec fn cluster_byte(&self, i: int, c: int) -> int {
        self.runs@[self.items@[i].index as int].text_start + self.clusters@[c].text_offset
    }

    /// The boundary authority that an override disposition, or else the
    /// cluster's own segmentation, gives to the boundary before cluster `c`;
    /// `None` when there is no opportunity there.
    pub open spec fn boundary_authority(
        &self,
        c: int,
        disposition: Option<LineBreakOverrideDisposition>,
    ) -> Option<SourceSoftWrapAuthority> {
        let adjoining = SourceSoftWrapAuthority::AdjoiningStyles {
            following_wrap_mode: self.styles@[self.clusters@[c].style_index as int].text_wrap_mode,
        };
        match disposition {
            Some(LineBreakOverrideDisposition::Suppress) => None,
            Some(LineBreakOverrideDisposition::ResolvedCollapsedSourceOpportunity) =>
                Some(SourceSoftWrapAuthority::CallerResolvedCollapsedSpace),
            Some(LineBreakOverrideDisposition::ResolvedRetainedSourceOpportunity) =>
                Some(SourceSoftWrapAuthority::CallerResolvedRetainedSpace),
            Some(_) => Some(adjoining),
            None => if self.clusters@[c].info.boundary == Boundary::Line { Some(adjoining) } else { None },
        }
    }

    /// Whether an inline box at item `i` stops the search: it lies before
    /// `byte_index` or it is an atomic box.
    pub open spec fn box_stops_scan(&self, i: int, byte_index: usize) -> bool {
        let b = self.inline_boxes@[self.items@[i].index as int];
        b.spec_index() < byte_index || spec_line_break_participation(b.spec_participation()) is Atomic
    }

    /// The first source soft-wrap boundary at or after `byte_index`, scanning
    /// from cluster `c` of item `i` onwards.
    pub open spec fn scan_boundary(&self, i: int, c: int, byte_index: usize, edge: LogicalInlineEdge) -> SourceSoftWrapBoundary
        decreases self.items@.len() - i, self.next_cluster_end(i) - c,
    {
        if i < 0 || i >= self.items@.len() {
            SourceSoftWrapBoundary::Absent
        } else {
            let item = self.items@[i];
            match item.kind {
                LayoutItemKind::InlineBox => {
                    if self.box_stops_scan(i, byte_index) {
                        SourceSoftWrapBoundary::Absent
                    } else {
                        self.scan_boundary(i + 1, self.next_cluster_start(i + 1), byte_index, edge)
                    }
                },
                LayoutItemKind::TextRun => {
                    if c >= item.cluster_end || c < 0 {
                        self.scan_boundary(i + 1, self.next_cluster_start(i + 1), byte_index, edge)
                    } else {
                        let cb = self.cluster_byte(i, c);
                        if cb < byte_index {
                            self.scan_boundary(i, c + 1, byte_index, edge)
                        } else if edge is End && spec_to_whitespace(self.clusters@[c].info.source_char) == Whitespace::Space {
                            self.scan_boundary(i, c + 1, byte_index, edge)
                        } else {
                            match self.boundary_authority(c, override_at(self.line_break_overrides@, cb as usize)) {
                                Some(authority) => SourceSoftWrapBoundary::Opportunity {
                                    byte_index: cb as usize,
                                    authority,
                                },
                                None => SourceSoftWrapBoundary::Absent,
                            }
                        }
                    }
                },
            }
        }
    }

    pub open spec fn next_cluster_end(&self, i: int) -> int {
        if 0 <= i < self.items@.len() { self.items@[i].cluster_end as int } else { 0 }
    }

    /// The first source soft-wrap opportunity after the logical edge at item
    /// `item_index`, at or after `byte_index`. Later logical edges and
    /// transparent anchors at or after `byte_index` are skipped; any other
    /// box, or a box before `byte_index`, ends the search. Inline-end edges
    /// skip following spaces. The first text cluster at or after
    /// `byte_index` decides: a suppressing override gives no opportunity,
    /// a caller-resolved override gives its own authority, and a normal
    /// override or a Unicode line boundary defers to the adjoining styles.
    pub fn source_soft_wrap_boundary_after(
        &self,
        item_index: usize,
        byte_index: usize,
        edge: LogicalInlineEdge,
    ) -> (r: SourceSoftWrapBoundary)
        requires
            self.wf(),
            item_index < self.items@.len(),
        ensures
            r == self.scan_boundary(item_index + 1, self.next_cluster_start(item_index + 1), byte_index, edge),
    {
        let n = self.items.len();
        let mut i: usize = item_index + 1;
        while i < n
            invariant
                self.wf(),
                n == self.items@.len(),
                item_index + 1 <= i <= n,
                self.scan_boundary(item_index + 1, self.next_cluster_start(item_index + 1), byte_index, edge)
                    == self.scan_boundary(i as int, self.next_cluster_start(i as int), byte_index, edge),
            decreases n - i,
        {
            let item = &self.items[i];
            assert(self.item_wf(self.items@[i as int]));
            match item.kind {
                LayoutItemKind::InlineBox => {
                    let inline_box = &self.inline_boxes[item.index];
                    let stops = inline_box.index() < byte_index || match inline_box.line_break_participation() {
                        InlineBoxLineBreakParticipation::Atomic(_) => true,
                        _ => false,
                    };
                    if stops {
                        return SourceSoftWrapBoundary::Absent;
                    }
                },
                LayoutItemKind::TextRun => {
                    let run = &self.runs[item.index];
                    let mut c: usize = item.cluster_start;
                    let end = item.cluster_end;
                    while c < end
                        invariant
                            self.wf(),
                            n == self.items@.len(),
                            item_index + 1 <= i < n,
                            *item == self.items@[i as int],
                            item.kind == LayoutItemKind::TextRun,
                            *run == self.runs@[item.index as int],
                            self.item_wf(*item),
                            end == item.cluster_end,
                            item.cluster_start <= c <= end,
                            self.scan_boundary(item_index + 1, self.next_cluster_start(item_index + 1), byte_index, edge)
                                == self.scan_boundary(i as int, c as int, byte_index, edge),
                        decreases end - c,
                    {
                        let cluster = self.clusters[c];
                        assert(self.clusters@[c as int].style_index < self.styles@.len());
                        let (cluster_index, _) = cluster.text_range(run);
                        if cluster_index >= byte_index {
                            if !(edge.is_end() && cluster.info.whitespace() == Whitespace::Space) {
                                let disposition = find_override(&self.line_break_overrides, cluster_index);
                                let adjoining = SourceSoftWrapAuthority::AdjoiningStyles {
                                    following_wrap_mode: self.styles[cluster.style_index as usize].text_wrap_mode,
                                };
                                let authority = match disposition {
                                    Some(LineBreakOverrideDisposition::Suppress) => None,
                                    Some(LineBreakOverrideDisposition::ResolvedCollapsedSourceOpportunity) => {
                                        Some(SourceSoftWrapAuthority::CallerResolvedCollapsedSpace)
                                    },
                                    Some(LineBreakOverrideDisposition::ResolvedRetainedSourceOpportunity) => {
                                        Some(SourceSoftWrapAuthority::CallerResolvedRetainedSpace)
                                    },
                                    Some(_) => Some(adjoining),
                                    None => {
                                        if cluster.info.boundary() == Boundary::Line {
                                            Some(adjoining)
                                        } else {
                                            None
                                        }
                                    },
                                };
                                return match authority {
                                    Some(authority) => SourceSoftWrapBoundary::Opportunity {
                                        byte_index: cluster_index,
                                        authority,
                                    },
                                    None => SourceSoftWrapBoundary::Absent,
                                };
                            }
                        }
                        c = c + 1;
                    }
                },
            }
            i = i + 1;
        }
        SourceSoftWrapBoundary::Absent
    }
}


/// The first cluster of `run` at or after `from` that starts at or after
/// source byte `boundary`, or the end of the run's clusters.
pub open spec fn first_cluster_at(clusters: Seq<ClusterData>, run: RunData, from: int, boundary: usize) -> int
    decreases run.cluster_end - from,
{
    if from < 0 || from >= run.cluster_end {
        run.cluster_end as int
    } else if run.text_start + clusters[from].text_offset >= boundary {
        from
    } else {
        first_cluster_at(clusters, run, from + 1, boundary)
    }
}

/// The item of a text run from `text_start` to `text_end` over clusters
/// `[cluster_start, cluster_end)`.
pub open spec fn text_item(run_index: usize, level: u8, text_start: usize, text_end: usize, cluster_start: int, cluster_end: int) -> LayoutItem {
    LayoutItem {
        kind: LayoutItemKind::TextRun,
        index: run_index,
        bidi_level: level,
        text_start,
        text_end,
        cluster_start: cluster_start as usize,
        cluster_end: cluster_end as usize,
    }
}

/// The item of the inline box `box_index` at `level`.
pub open spec fn box_item(box_index: usize, level: u8) -> LayoutItem {
    LayoutItem {
        kind: LayoutItemKind::InlineBox,
        index: box_index,
        bidi_level: level,
        text_start: 0,
        text_end: 0,
        cluster_start: 0,
        cluster_end: 0,
    }
}

/// The items that a shaped run contributes when the transparent inline
/// boxes `boxes[k..]` (box index, level, source boundary) fall inside it,
/// continuing from `text_start` and `cluster_start`: each box within the
/// run's text splits the run before the first cluster at its boundary; empty
/// text pieces are dropped.
pub open spec fn shaped_run_items(
    clusters: Seq<ClusterData>,
    run: RunData,
    run_index: usize,
    boxes: Seq<(usize, u8, usize)>,
    k: int,
    text_start: usize,
    cluster_start: int,
) -> Seq<LayoutItem>
    decreases boxes.len() - k,
{
    if k < 0 || k >= boxes.len() {
        if text_start < run.text_end || cluster_start < run.cluster_end {
            seq![text_item(run_index, run.bidi_level, text_start, run.text_end, cluster_start, run.cluster_end as int)]
        } else {
            seq![]
        }
    } else {
        let (box_index, level, boundary) = boxes[k];
        if !(run.text_start <= boundary <= run.text_end) {
            shaped_run_items(clusters, run, run_index, boxes, k + 1, text_start, cluster_start)
        } else {
            let cluster_end = first_cluster_at(clusters, run, cluster_start, boundary);
            let piece = if text_start < boundary || cluster_start < cluster_end {
                seq![text_item(run_index, run.bidi_level, text_start, boundary, cluster_start, cluster_end)]
            } else {
                seq![]
            };
            piece + seq![box_item(box_index, level)] + shaped_run_items(
                clusters,
                run,
                run_index,
                boxes,
                k + 1,
                boundary,
                cluster_end,
            )
        }
    }
}

impl LayoutData {
    /// Appends an inline box item at the given bidi level.
    pub fn push_inline_box(&mut self, index: usize, surrounding_level: u8)
        ensures
            final(self).items@ == old(self).items@.push(box_item(index, surrounding_level)),
            *final(self) == (LayoutData { items: final(self).items, ..*old(self) }),
    {
        self.items.push(LayoutItem {
            kind: LayoutItemKind::InlineBox,
            index,
            bidi_level: surrounding_level,
            text_start: 0,
            text_end: 0,
            cluster_start: 0,
            cluster_end: 0,
        });
    }

    /// Appends a shaped run and its items: the transparent inline boxes that
    /// fall inside the run's text split it into pieces, each box between the
    /// piece before and after its source boundary.
    pub fn push_shaped_run(&mut self, run: RunData, transparent_inline_boxes: &[(usize, u8, usize)])
        requires
            run.cluster_start <= run.cluster_end <= old(self).clusters@.len(),
            forall|c: int| run.cluster_start <= c < run.cluster_end ==>
                run.text_start + (#[trigger] old(self).clusters@[c]).text_offset <= usize::MAX,
        ensures
            final(self).runs@ == old(self).runs@.push(run),
            final(self).items@ == old(self).items@ + shaped_run_items(
                old(self).clusters@,
                run,
                old(self).runs@.len() as usize,
                transparent_inline_boxes@,
                0,
                run.text_start,
                run.cluster_start as int,
            ),
            *final(self) == (LayoutData { items: final(self).items, runs: final(self).runs, ..*old(self) }),
    {
        let ghost old_self = *self;
        let run_index = self.runs.len();
        let run_text_start = run.text_start;
        let run_text_end = run.text_end;
        let run_cluster_start = run.cluster_start;
        let run_cluster_end = run.cluster_end;
        let bidi_level = run.bidi_level;
        let ghost r = run;
        self.runs.push(run);
        let ghost boxes = transparent_inline_boxes@;
        let ghost whole = shaped_run_items(old_self.clusters@, r, run_index, boxes, 0, run_text_start, run_cluster_start as int);
        let mut text_start = run_text_start;
        let mut cluster_start = run_cluster_start;
        let mut k: usize = 0;
        while k < transparent_inline_boxes.len()
            invariant
                k <= boxes.len(),
                boxes == transparent_inline_boxes@,
                self.clusters@ == old_self.clusters@,
                self.runs@ == old_self.runs@.push(r),
                run_index == old_self.runs@.len(),
                r.text_start == run_text_start,
                r.text_end == run_text_end,
                r.cluster_start == run_cluster_start,
                r.cluster_end == run_cluster_end,
                r.bidi_level == bidi_level,
                r.cluster_start <= r.cluster_end <= old_self.clusters@.len(),
                forall|c: int| r.cluster_start <= c < r.cluster_end ==>
                    r.text_start + (#[trigger] old_self.clusters@[c]).text_offset <= usize::MAX,
                run_cluster_start <= cluster_start <= run_cluster_end,
                *self == (LayoutData { items: self.items, runs: self.runs, ..old_self }),
                old_self.items@ + whole == self.items@ + shaped_run_items(
                    old_self.clusters@, r, run_index, boxes, k as int, text_start, cluster_start as int),
            decreases boxes.len() - k,
        {
            let (box_index, surrounding_level, boundary) = transparent_inline_boxes[k];
            if run_text_start <= boundary && boundary <= run_text_end {
                let mut cluster_end = cluster_start;
                while cluster_end < run_cluster_end
                    && (run_text_start + self.clusters[cluster_end].text_offset as usize) < boundary
                    invariant
                        self.clusters@ == old_self.clusters@,
                        r.cluster_end == run_cluster_end,
                        r.cluster_start == run_cluster_start,
                        r.text_start == run_text_start,
                        run_cluster_end <= old_self.clusters@.len(),
                        forall|c: int| r.cluster_start <= c < r.cluster_end ==>
                            r.text_start + (#[trigger] old_self.clusters@[c]).text_offset <= usize::MAX,
                        run_cluster_start <= cluster_start <= cluster_end <= run_cluster_end,
                        first_cluster_at(old_self.clusters@, r, cluster_start as int, boundary)
                            == first_cluster_at(old_self.clusters@, r, cluster_end as int, boundary),
                    decreases run_cluster_end - cluster_end,
                {
                    cluster_end = cluster_end + 1;
                }
                let ghost before = self.items@;
                if text_start < boundary || cluster_start < cluster_end {
                    self.items.push(LayoutItem {
                        kind: LayoutItemKind::TextRun,
                        index: run_index,
                        bidi_level,
                        text_start,
                        text_end: boundary,
                        cluster_start,
                        cluster_end,
                    });
                }
                self.push_inline_box(box_index, surrounding_level);
                proof {
                    let piece = if text_start < boundary || cluster_start < cluster_end {
                        seq![text_item(run_index, bidi_level, text_start, boundary, cluster_start as int, cluster_end as int)]
                    } else {
                        seq![]
                    };
                    assert(self.items@ == before + piece + seq![box_item(box_index, surrounding_level)]);
                    let rest = shaped_run_items(old_self.clusters@, r, run_index, boxes, k + 1, boundary, cluster_end as int);
                    assert(shaped_run_items(old_self.clusters@, r, run_index, boxes, k as int, text_start, cluster_start as int)
                        == piece + seq![box_item(box_index, surrounding_level)] + rest);
                    assert(before + (piece + seq![box_item(box_index, surrounding_level)] + rest)
                        =~= self.items@ + rest);
                }
                text_start = boundary;
                cluster_start = cluster_end;
            }
            k = k + 1;
        }
        let ghost before = self.items@;
        if text_start < run_text_end || cluster_start < run_cluster_end {
            self.items.push(LayoutItem {
                kind: LayoutItemKind::TextRun,
                index: run_index,
                bidi_level,
                text_start,
                text_end: run_text_end,
                cluster_start,
                cluster_end: run_cluster_end,
            });
        }
        proof {
            let tail = shaped_run_items(old_self.clusters@, r, run_index, boxes, k as int, text_start, cluster_start as int);
            if text_start < run_text_end || cluster_start < run_cluster_end {
                assert(self.items@ =~= before + tail);
            } else {
                assert(tail =~= seq![]);
                assert(self.items@ =~= before + tail);
            }
        }
    }
}


/// The letter and word spacing that `run` adds to cluster `c`: letter
/// spacing unless the cluster is default-ignorable, plus word spacing on a
/// space or no-break space.
pub open spec fn cluster_spacing(c: ClusterData, run: RunData) -> int {
    (if default_ignorable_code_point(c.info.source_char) { 0 } else { run.letter_spacing as int })
        + (if run.word_spacing != 0 && (spec_to_whitespace(c.info.source_char) == Whitespace::Space
            || spec_to_whitespace(c.info.source_char) == Whitespace::NoBreakSpace) {
        run.word_spacing as int
    } else {
        0
    })
}

/// Cluster `c` after `run`'s spacing is applied to its advances.
pub open spec fn spaced_cluster(c: ClusterData, run: RunData) -> ClusterData {
    let spacing = clamp_i64(cluster_spacing(c, run));
    if (run.word_spacing == 0 && run.letter_spacing == 0) || spacing == 0 {
        c
    } else {
        ClusterData {
            advance: clamp_i64(c.advance + spacing),
            line_break_advance: clamp_i64(c.line_break_advance + spacing),
            ..c
        }
    }
}

/// `cs` with `f` applied to the clusters of `[start, end)`.
pub open spec fn map_range(cs: Seq<ClusterData>, start: int, end: int, f: spec_fn(ClusterData) -> ClusterData) -> Seq<ClusterData> {
    Seq::new(cs.len(), |i: int| if start <= i < end { f(cs[i]) } else { cs[i] })
}

/// The clusters after the spacing of the first `k` runs is applied, run by
/// run.
pub open spec fn spacing_pass(cs: Seq<ClusterData>, runs: Seq<RunData>, k: int) -> Seq<ClusterData>
    decreases k,
{
    if k <= 0 {
        cs
    } else {
        let prev = spacing_pass(cs, runs, k - 1);
        let run = runs[k - 1];
        map_range(prev, run.cluster_start as int, run.cluster_end as int, |c: ClusterData| spaced_cluster(c, run))
    }
}

/// Without letter spacing, spacing keeps the length, the characters, and
/// the advance of every cluster that is not a space or no-break space.
proof fn lemma_spacing_pass_keeps_other_advances(cs: Seq<ClusterData>, runs: Seq<RunData>, k: int)
    requires
        forall|r: int| 0 <= r < runs.len() ==> (#[trigger] runs[r]).letter_spacing == 0,
        k <= runs.len(),
    ensures
        spacing_pass(cs, runs, k).len() == cs.len(),
        forall|c: int| 0 <= c < cs.len() ==> (#[trigger] spacing_pass(cs, runs, k)[c]).info == cs[c].info,
        forall|c: int|
            0 <= c < cs.len() && spec_to_whitespace(cs[c].info.source_char) != Whitespace::Space
                && spec_to_whitespace(cs[c].info.source_char) != Whitespace::NoBreakSpace
                ==> (#[trigger] spacing_pass(cs, runs, k)[c]).advance == cs[c].advance,
    decreases k,
{
    if k > 0 {
        lemma_spacing_pass_keeps_other_advances(cs, runs, k - 1);
        let prev = spacing_pass(cs, runs, k - 1);
        let run = runs[k - 1];
        assert forall|c: int| 0 <= c < cs.len() implies (#[trigger] spacing_pass(cs, runs, k)[c]).info == cs[c].info
            && (spec_to_whitespace(cs[c].info.source_char) != Whitespace::Space && spec_to_whitespace(
            cs[c].info.source_char,
        ) != Whitespace::NoBreakSpace ==> spacing_pass(cs, runs, k)[c].advance == cs[c].advance) by {
            assert(prev[c].info == cs[c].info);
            if run.cluster_start <= c < run.cluster_end {
                assert(spacing_pass(cs, runs, k)[c] == spaced_cluster(prev[c], run));
            } else {
                assert(spacing_pass(cs, runs, k)[c] == prev[c]);
            }
        }
    }
}

/// Default tab advances keep the length, the characters, and the advance
/// of every cluster that is not a tab.
proof fn lemma_tab_pass_keeps_other_advances(cs: Seq<ClusterData>, styles: Seq<Style>, runs: Seq<RunData>, k: int)
    requires
        k <= runs.len(),
    ensures
        tab_pass(cs, styles, runs, k).len() == cs.len(),
        forall|c: int| 0 <= c < cs.len() ==> (#[trigger] tab_pass(cs, styles, runs, k)[c]).info == cs[c].info,
        forall|c: int|
            0 <= c < cs.len() && spec_to_whitespace(cs[c].info.source_char) != Whitespace::Tab
                ==> (#[trigger] tab_pass(cs, styles, runs, k)[c]).advance == cs[c].advance,
    decreases k,
{
    if k > 0 {
        lemma_tab_pass_keeps_other_advances(cs, styles, runs, k - 1);
        let prev = tab_pass(cs, styles, runs, k - 1);
        let run = runs[k - 1];
        let interval = run_tab_size(prev, styles, run).spec_interval(run.space_advance);
        assert forall|c: int| 0 <= c < cs.len() implies (#[trigger] tab_pass(cs, styles, runs, k)[c]).info
            == cs[c].info && (spec_to_whitespace(cs[c].info.source_char) != Whitespace::Tab ==> tab_pass(
            cs,
            styles,
            runs,
            k,
        )[c].advance == cs[c].advance) by {
            assert(prev[c].info == cs[c].info);
            if run.cluster_start <= c < run.cluster_end {
                assert(tab_pass(cs, styles, runs, k)[c] == tabbed_cluster(prev[c], interval, run.space_glyph_id));
            } else {
                assert(tab_pass(cs, styles, runs, k)[c] == prev[c]);
            }
        }
    }
}

/// Without letter spacing, finishing a layout changes the advance of no
/// cluster but spaces, no-break spaces and tabs: word spacing widens word
/// separators only, and only tabs take tab stops. Every other cluster keeps
/// its advance, whatever the word spacing.
pub proof fn lemma_finish_without_letter_spacing_keeps_other_advances(
    cs: Seq<ClusterData>,
    styles: Seq<Style>,
    runs: Seq<RunData>,
)
    requires
        forall|r: int| 0 <= r < runs.len() ==> (#[trigger] runs[r]).letter_spacing == 0,
    ensures
        tab_pass(spacing_pass(cs, runs, runs.len() as int), styles, runs, runs.len() as int).len() == cs.len(),
        forall|c: int|
            0 <= c < cs.len() && spec_to_whitespace(cs[c].info.source_char) != Whitespace::Space
                && spec_to_whitespace(cs[c].info.source_char) != Whitespace::NoBreakSpace && spec_to_whitespace(
                cs[c].info.source_char,
            ) != Whitespace::Tab ==> (#[trigger] tab_pass(
                spacing_pass(cs, runs, runs.len() as int),
                styles,
                runs,
                runs.len() as int,
            )[c]).advance == cs[c].advance,
{
    let n = runs.len() as int;
    lemma_spacing_pass_keeps_other_advances(cs, runs, n);
    let spaced = spacing_pass(cs, runs, n);
    lemma_tab_pass_keeps_other_advances(spaced, styles, runs, n);
    assert forall|c: int|
        0 <= c < cs.len() && spec_to_whitespace(cs[c].info.source_char) != Whitespace::Space
            && spec_to_whitespace(cs[c].info.source_char) != Whitespace::NoBreakSpace && spec_to_whitespace(
            cs[c].info.source_char,
        ) != Whitespace::Tab implies (#[trigger] tab_pass(spaced, styles, runs, n)[c]).advance == cs[c].advance by {
        assert(spaced[c].info == cs[c].info);
        assert(spaced[c].advance == cs[c].advance);
    }
}

/// A cluster inside exactly one run is spaced by that run alone.
proof fn lemma_spacing_pass_single_run(cs: Seq<ClusterData>, runs: Seq<RunData>, k: int, c: int, r: int)
    requires
        0 <= c < cs.len(),
        0 <= r < runs.len(),
        0 <= k <= runs.len(),
        runs[r].cluster_start <= c < runs[r].cluster_end,
        forall|q: int| 0 <= q < runs.len() && q != r ==> !((#[trigger] runs[q]).cluster_start <= c < runs[q].cluster_end),
    ensures
        spacing_pass(cs, runs, k)[c] == if k > r { spaced_cluster(cs[c], runs[r]) } else { cs[c] },
    decreases k,
{
    if k > 0 {
        lemma_spacing_pass_single_run(cs, runs, k - 1, c, r);
        lemma_spacing_pass_len(cs, runs, k - 1);
        if k - 1 != r {
            assert(!(runs[k - 1].cluster_start <= c < runs[k - 1].cluster_end));
        }
    }
}

/// Finishing spaces each cluster of exactly one run by that run: a visible
/// cluster that is not whitespace widens by the letter spacing, a space or
/// no-break space by the letter and the word spacing together; a
/// default-ignorable cluster takes no letter spacing.
pub proof fn lemma_finish_spaces_clusters(cs: Seq<ClusterData>, styles: Seq<Style>, runs: Seq<RunData>, c: int, r: int)
    requires
        0 <= c < cs.len(),
        0 <= r < runs.len(),
        runs[r].cluster_start <= c < runs[r].cluster_end,
        forall|q: int| 0 <= q < runs.len() && q != r ==> !((#[trigger] runs[q]).cluster_start <= c < runs[q].cluster_end),
        !default_ignorable_code_point(cs[c].info.source_char),
        spec_to_whitespace(cs[c].info.source_char) != Whitespace::Tab,
    ensures
        ({
            let f = tab_pass(spacing_pass(cs, runs, runs.len() as int), styles, runs, runs.len() as int)[c];
            let ws = spec_to_whitespace(cs[c].info.source_char);
            if ws == Whitespace::Space || ws == Whitespace::NoBreakSpace {
                f.advance == clamp_i64(cs[c].advance + clamp_i64(runs[r].letter_spacing + runs[r].word_spacing))
            } else {
                f.advance == clamp_i64(cs[c].advance + runs[r].letter_spacing)
            }
        }),
{
    let n = runs.len() as int;
    lemma_spacing_pass_single_run(cs, runs, n, c, r);
    lemma_spacing_pass_len(cs, runs, n);
    let spaced = spacing_pass(cs, runs, n);
    lemma_tab_pass_keeps_other_advances(spaced, styles, runs, n);
    assert(spaced[c] == spaced_cluster(cs[c], runs[r]));
    assert(spaced[c].info == cs[c].info);
}

/// Cluster `c` with a tab's default advance: the tab grid interval when
/// positive, else zero; a tab renders the space glyph.
pub open spec fn tabbed_cluster(c: ClusterData, interval: i64, space_glyph_id: u32) -> ClusterData {
    if spec_to_whitespace(c.info.source_char) == Whitespace::Tab {
        ClusterData {
            advance: if interval > 0 { interval } else { 0 },
            glyph_offset: if c.glyph_len == 0xFF { space_glyph_id } else { c.glyph_offset },
            ..c
        }
    } else {
        c
    }
}

/// The tab size of a run: that of the style of its first cluster, or the
/// default for an empty run.
pub open spec fn run_tab_size(cs: Seq<ClusterData>, styles: Seq<Style>, run: RunData) -> TabSize {
    if run.cluster_start < run.cluster_end && run.cluster_start < cs.len() {
        styles[cs[run.cluster_start as int].style_index as int].tab_size
    } else {
        TabSize::Spaces(8)
    }
}

/// The clusters after the default tab advances of the first `k` runs.
pub open spec fn tab_pass(cs: Seq<ClusterData>, styles: Seq<Style>, runs: Seq<RunData>, k: int) -> Seq<ClusterData>
    decreases k,
{
    if k <= 0 {
        cs
    } else {
        let prev = tab_pass(cs, styles, runs, k - 1);
        let run = runs[k - 1];
        let interval = run_tab_size(prev, styles, run).spec_interval(run.space_advance);
        map_range(prev, run.cluster_start as int, run.cluster_end as int, |c: ClusterData| tabbed_cluster(c, interval, run.space_glyph_id))
    }
}

/// `gs` with `delta` added to the advance of the last glyph of cluster `c`
/// of `run`, where the cluster owns glyphs.
pub open spec fn glyphs_with_last_advanced(gs: Seq<Glyph>, run: RunData, c: ClusterData, delta: i64) -> Seq<Glyph> {
    let start = run.glyph_start + c.glyph_offset;
    let end = start + c.glyph_len;
    if c.glyph_len != 0xFF && start < end && end <= gs.len() {
        gs.update(end - 1, Glyph { advance: clamp_i64(gs[end - 1].advance + delta), ..gs[end - 1] })
    } else {
        gs
    }
}

/// `gs` with the glyphs of cluster `c` of `run` showing glyph `id`, where
/// the cluster owns glyphs.
pub open spec fn glyphs_with_id(gs: Seq<Glyph>, run: RunData, c: ClusterData, id: u32) -> Seq<Glyph> {
    let start = run.glyph_start + c.glyph_offset;
    let end = start + c.glyph_len;
    if c.glyph_len != 0xFF {
        Seq::new(gs.len(), |i: int| if start <= i < end { Glyph { id, ..gs[i] } } else { gs[i] })
    } else {
        gs
    }
}

/// The glyphs after the clusters of `run` before `c` got their spacing:
/// the last glyph of each spaced cluster grows by the same amount.
pub open spec fn spaced_run_glyphs(gs: Seq<Glyph>, cs: Seq<ClusterData>, run: RunData, c: int) -> Seq<Glyph>
    decreases c - run.cluster_start,
{
    if c <= run.cluster_start {
        gs
    } else {
        let prev = spaced_run_glyphs(gs, cs, run, c - 1);
        let spacing = clamp_i64(cluster_spacing(cs[c - 1], run));
        if spacing != 0 {
            glyphs_with_last_advanced(prev, run, cs[c - 1], spacing)
        } else {
            prev
        }
    }
}

/// The glyphs after the spacing of the first `k` runs (see `spacing_pass`).
pub open spec fn spacing_glyphs(gs: Seq<Glyph>, cs: Seq<ClusterData>, runs: Seq<RunData>, k: int) -> Seq<Glyph>
    decreases k,
{
    if k <= 0 {
        gs
    } else {
        let prev = spacing_glyphs(gs, cs, runs, k - 1);
        let run = runs[k - 1];
        if run.word_spacing == 0 && run.letter_spacing == 0 {
            prev
        } else {
            spaced_run_glyphs(prev, spacing_pass(cs, runs, k - 1), run, run.cluster_end as int)
        }
    }
}

/// The glyphs after the tab clusters of `run` before `c` got the default
/// tab advance `interval`: the last glyph of a tab keeps in step with its
/// cluster's advance, and the glyphs of a tab show the space glyph.
pub open spec fn tabbed_run_glyphs(gs: Seq<Glyph>, cs: Seq<ClusterData>, run: RunData, interval: i64, c: int) -> Seq<Glyph>
    decreases c - run.cluster_start,
{
    if c <= run.cluster_start {
        gs
    } else {
        let prev = tabbed_run_glyphs(gs, cs, run, interval, c - 1);
        let cl = cs[c - 1];
        if spec_to_whitespace(cl.info.source_char) == Whitespace::Tab {
            let delta = clamp_i64(interval - cl.advance);
            let advanced = if interval > 0 && delta != 0 {
                glyphs_with_last_advanced(prev, run, cl, delta)
            } else {
                prev
            };
            glyphs_with_id(advanced, run, cl, run.space_glyph_id)
        } else {
            prev
        }
    }
}

/// The glyphs after the tab pass over the first `k` runs (see `tab_pass`).
pub open spec fn tab_glyphs(gs: Seq<Glyph>, cs: Seq<ClusterData>, styles: Seq<Style>, runs: Seq<RunData>, k: int) -> Seq<Glyph>
    decreases k,
{
    if k <= 0 {
        gs
    } else {
        let prev_cs = tab_pass(cs, styles, runs, k - 1);
        let run = runs[k - 1];
        tabbed_run_glyphs(
            tab_glyphs(gs, cs, styles, runs, k - 1),
            prev_cs,
            run,
            run_tab_size(prev_cs, styles, run).spec_interval(run.space_advance),
            run.cluster_end as int,
        )
    }
}

impl LayoutData {
    /// Runs and their clusters are consistent: cluster ranges lie within the
    /// clusters, cluster styles exist, and glyph ranges lie within the glyphs.
    pub open spec fn runs_wf(&self) -> bool {
        forall|r: int| 0 <= r < self.runs@.len() ==> {
            let run = #[trigger] self.runs@[r];
            &&& run.cluster_start <= run.cluster_end <= self.clusters@.len()
            &&& forall|c: int| run.cluster_start <= c < run.cluster_end ==> {
                let cl = #[trigger] self.clusters@[c];
                &&& cl.style_index < self.styles@.len()
                &&& cl.glyph_len != 0xFF ==> run.glyph_start + cl.glyph_offset + cl.glyph_len <= self.glyphs@.len()
            }
        }
    }

    /// Applies each run's letter and word spacing to its clusters' advances,
    /// then gives every tab cluster the default advance of its tab grid and
    /// the space glyph. Spacing never goes to a default-ignorable cluster.
    pub fn finish(&mut self)
        requires
            old(self).runs_wf(),
        ensures
            final(self).clusters@ == tab_pass(
                spacing_pass(old(self).clusters@, old(self).runs@, old(self).runs@.len() as int),
                old(self).styles@,
                old(self).runs@,
                old(self).runs@.len() as int,
            ),
            final(self).glyphs@ == tab_glyphs(
                spacing_glyphs(old(self).glyphs@, old(self).clusters@, old(self).runs@, old(self).runs@.len() as int),
                spacing_pass(old(self).clusters@, old(self).runs@, old(self).runs@.len() as int),
                old(self).styles@,
                old(self).runs@,
                old(self).runs@.len() as int,
            ),
            final(self).glyphs@.len() == old(self).glyphs@.len(),
            final(self).runs@ == old(self).runs@,
            final(self).styles@ == old(self).styles@,
            final(self).items@ == old(self).items@,
            final(self).inline_boxes@ == old(self).inline_boxes@,
    {
        let ghost orig = *self;
        let nruns = self.runs.len();
        let mut k: usize = 0;
        while k < nruns
            invariant
                nruns == self.runs@.len(),
                k <= nruns,
                self.runs@ == orig.runs@,
                self.styles@ == orig.styles@,
                self.items@ == orig.items@,
                self.inline_boxes@ == orig.inline_boxes@,
                self.glyphs@.len() == orig.glyphs@.len(),
                self.glyphs@ == spacing_glyphs(orig.glyphs@, orig.clusters@, orig.runs@, k as int),
                self.clusters@ == spacing_pass(orig.clusters@, orig.runs@, k as int),
                orig.runs_wf(),
                self.clusters@.len() == orig.clusters@.len(),
            decreases nruns - k,
        {
            let run = self.runs[k].clone();
            let word = run.word_spacing;
            let letter = run.letter_spacing;
            let ghost prev = self.clusters@;
            assert(prev.len() == orig.clusters@.len()) by {
                assert(spacing_pass(orig.clusters@, orig.runs@, k as int).len() == orig.clusters@.len()) by {
                    lemma_spacing_pass_len(orig.clusters@, orig.runs@, k as int);
                }
            }
            proof {
                assert forall|i: int| run.cluster_start <= i < run.cluster_end implies prev[i].glyph_len
                    == orig.clusters@[i].glyph_len && prev[i].glyph_offset == orig.clusters@[i].glyph_offset by {
                    assert(orig.runs_wf());
                    assert(orig.runs@[k as int].cluster_end <= orig.clusters@.len());
                    lemma_spacing_pass_keeps(orig.clusters@, orig.runs@, k as int, i);
                }
            }
            let ghost glyphs_before = self.glyphs@;
            if !(word == 0 && letter == 0) {
                let mut c = run.cluster_start;
                while c < run.cluster_end
                    invariant
                        run == orig.runs@[k as int],
                        k < nruns,
                        nruns == orig.runs@.len(),
                        orig.runs_wf(),
                        prev.len() == orig.clusters@.len(),
                        self.clusters@.len() == orig.clusters@.len(),
                        self.glyphs@.len() == orig.glyphs@.len(),
                        self.runs@ == orig.runs@,
                        self.styles@ == orig.styles@,
                        self.items@ == orig.items@,
                        self.inline_boxes@ == orig.inline_boxes@,
                        word == run.word_spacing,
                        letter == run.letter_spacing,
                        self.glyphs@ == spaced_run_glyphs(glyphs_before, prev, run, c as int),
                        prev == spacing_pass(orig.clusters@, orig.runs@, k as int),
                        !(word == 0 && letter == 0),
                        run.cluster_start <= c <= run.cluster_end,
                        forall|i: int| 0 <= i < prev.len() ==> self.clusters@[i] == if run.cluster_start <= i < c {
                            spaced_cluster(prev[i], run)
                        } else {
                            prev[i]
                        },
                        forall|i: int| run.cluster_start <= i < run.cluster_end ==> prev[i].glyph_len == orig.clusters@[i].glyph_len
                            && prev[i].glyph_offset == orig.clusters@[i].glyph_offset,
                    decreases run.cluster_end - c,
                {
                    assert(orig.runs_wf());
                    assert(orig.runs@[k as int].cluster_end <= orig.clusters@.len());
                    let cluster = self.clusters[c];
                    assert(cluster == prev[c as int]);
                    assert(orig.clusters@[c as int].glyph_len != 0xFF ==> run.glyph_start + orig.clusters@[c as int].glyph_offset
                        + orig.clusters@[c as int].glyph_len <= orig.glyphs@.len());
                    let mut spacing: i64 = if cluster.info.is_default_ignorable() { 0 } else { letter };
                    let ws = cluster.info.whitespace();
                    if word != 0 && ws.is_space_or_nbsp() {
                        spacing = sat_add(spacing, word);
                    }
                    if spacing != 0 {
                        let mut nc = cluster;
                        nc.advance = sat_add(nc.advance, spacing);
                        nc.line_break_advance = sat_add(nc.line_break_advance, spacing);
                        if cluster.glyph_len != 0xFF {
                            assert(orig.clusters@[c as int].glyph_len != 0xFF);
                            let glyph_count = self.glyphs.len();
                            assert(run.glyph_start + cluster.glyph_offset + cluster.glyph_len <= glyph_count);
                            let start = run.glyph_start + cluster.glyph_offset as usize;
                            let end = start + cluster.glyph_len as usize;
                            if start < end {
                                let mut g = self.glyphs[end - 1];
                                g.advance = sat_add(g.advance, spacing);
                                self.glyphs.set(end - 1, g);
                            }
                        }
                        self.clusters.set(c, nc);
                    }
                    c = c + 1;
                }
            }
            proof {
                assert(self.clusters@ =~= spacing_pass(orig.clusters@, orig.runs@, k + 1));
                assert(self.glyphs@ == spacing_glyphs(orig.glyphs@, orig.clusters@, orig.runs@, k + 1));
            }
            k = k + 1;
        }
        let ghost spaced = self.clusters@;
        let ghost spaced_glyphs = self.glyphs@;
        assert(spaced.len() == orig.clusters@.len());
        k = 0;
        while k < nruns
            invariant
                nruns == self.runs@.len(),
                k <= nruns,
                self.runs@ == orig.runs@,
                self.styles@ == orig.styles@,
                self.items@ == orig.items@,
                self.inline_boxes@ == orig.inline_boxes@,
                self.glyphs@.len() == orig.glyphs@.len(),
                self.glyphs@ == tab_glyphs(spaced_glyphs, spaced, orig.styles@, orig.runs@, k as int),
                self.clusters@ == tab_pass(spaced, orig.styles@, orig.runs@, k as int),
                spaced == spacing_pass(orig.clusters@, orig.runs@, nruns as int),
                spaced.len() == orig.clusters@.len(),
                orig.runs_wf(),
                self.clusters@.len() == orig.clusters@.len(),
            decreases nruns - k,
        {
            let run = self.runs[k].clone();
            let ghost prev = self.clusters@;
            assert(orig.runs_wf());
            assert(run.cluster_end <= orig.clusters@.len());
            let tab_size = if run.cluster_start < run.cluster_end && run.cluster_start < self.clusters.len() {
                let si = self.clusters[run.cluster_start].style_index;
                assert(si == orig.clusters@[run.cluster_start as int].style_index) by {
                    lemma_tab_pass_keeps(spaced, orig.styles@, orig.runs@, k as int, run.cluster_start as int);
                    lemma_spacing_pass_keeps(orig.clusters@, orig.runs@, nruns as int, run.cluster_start as int);
                }
                self.styles[si as usize].tab_size
            } else {
                TabSize::Spaces(8)
            };
            let default_advance = tab_size.interval(run.space_advance);
            let ghost glyphs_before = self.glyphs@;
            proof {
                assert forall|i: int| run.cluster_start <= i < run.cluster_end implies prev[i].glyph_len
                    == orig.clusters@[i].glyph_len && (orig.clusters@[i].glyph_len != 0xFF ==> prev[i].glyph_offset
                    == orig.clusters@[i].glyph_offset) by {
                    lemma_tab_pass_keeps(spaced, orig.styles@, orig.runs@, k as int, i);
                    lemma_spacing_pass_keeps(orig.clusters@, orig.runs@, nruns as int, i);
                }
            }
            let mut c = run.cluster_start;
            while c < run.cluster_end
                invariant
                    run == orig.runs@[k as int],
                    k < nruns,
                    nruns == orig.runs@.len(),
                    orig.runs_wf(),
                    prev.len() == orig.clusters@.len(),
                    self.clusters@.len() == orig.clusters@.len(),
                    self.glyphs@.len() == orig.glyphs@.len(),
                    self.runs@ == orig.runs@,
                    self.styles@ == orig.styles@,
                    self.items@ == orig.items@,
                    self.inline_boxes@ == orig.inline_boxes@,
                    default_advance == run_tab_size(prev, orig.styles@, run).spec_interval(run.space_advance),
                    self.glyphs@ == tabbed_run_glyphs(glyphs_before, prev, run, default_advance, c as int),
                    prev == tab_pass(spaced, orig.styles@, orig.runs@, k as int),
                    run.cluster_start <= c <= run.cluster_end,
                    forall|i: int| 0 <= i < prev.len() ==> self.clusters@[i] == if run.cluster_start <= i < c {
                        tabbed_cluster(prev[i], default_advance, run.space_glyph_id)
                    } else {
                        prev[i]
                    },
                    forall|i: int| run.cluster_start <= i < run.cluster_end ==> prev[i].glyph_len == orig.clusters@[i].glyph_len
                        && (orig.clusters@[i].glyph_len != 0xFF ==> prev[i].glyph_offset == orig.clusters@[i].glyph_offset),
                decreases run.cluster_end - c,
            {
                let cluster = self.clusters[c];
                assert(cluster == prev[c as int]);
                assert(orig.clusters@[c as int].glyph_len != 0xFF ==> run.glyph_start + orig.clusters@[c as int].glyph_offset
                    + orig.clusters@[c as int].glyph_len <= orig.glyphs@.len());
                if cluster.info.whitespace() == Whitespace::Tab {
                    let mut nc = cluster;
                    if default_advance > 0 {
                        let delta = sat_sub(default_advance, cluster.advance);
                        nc.advance = default_advance;
                        if cluster.glyph_len != 0xFF && delta != 0 {
                            let glyph_count = self.glyphs.len();
                            assert(run.glyph_start + cluster.glyph_offset + cluster.glyph_len <= glyph_count);
                            let start = run.glyph_start + cluster.glyph_offset as usize;
                            let end = start + cluster.glyph_len as usize;
                            if start < end {
                                let mut g = self.glyphs[end - 1];
                                g.advance = sat_add(g.advance, delta);
                                self.glyphs.set(end - 1, g);
                            }
                        }
                    } else {
                        nc.advance = 0;
                    }
                    if cluster.glyph_len == 0xFF {
                        nc.glyph_offset = run.space_glyph_id;
                    } else {
                        let glyph_count = self.glyphs.len();
                        assert(run.glyph_start + cluster.glyph_offset + cluster.glyph_len <= glyph_count);
                        let start = run.glyph_start + cluster.glyph_offset as usize;
                        let end = start + cluster.glyph_len as usize;
                        let mut gi = start;
                        let ghost cl_before = self.clusters@;
                        let ghost advanced = self.glyphs@;
                        while gi < end
                            invariant
                                start <= gi <= end <= self.glyphs@.len(),
                                self.glyphs@.len() == orig.glyphs@.len(),
                                advanced.len() == self.glyphs@.len(),
                                forall|i: int| 0 <= i < advanced.len() ==> self.glyphs@[i] == if start <= i < gi {
                                    Glyph { id: run.space_glyph_id, ..advanced[i] }
                                } else {
                                    advanced[i]
                                },
                                self.clusters@ == cl_before,
                                self.runs@ == orig.runs@,
                                self.styles@ == orig.styles@,
                                self.items@ == orig.items@,
                                self.inline_boxes@ == orig.inline_boxes@,
                            decreases end - gi,
                        {
                            let mut g = self.glyphs[gi];
                            g.id = run.space_glyph_id;
                            self.glyphs.set(gi, g);
                            gi = gi + 1;
                        }
                        assert(self.glyphs@ =~= glyphs_with_id(advanced, run, cluster, run.space_glyph_id));
                    }
                    self.clusters.set(c, nc);
                }
                c = c + 1;
            }
            proof {
                assert(self.clusters@ =~= tab_pass(spaced, orig.styles@, orig.runs@, k + 1));
                assert(self.glyphs@ == tab_glyphs(spaced_glyphs, spaced, orig.styles@, orig.runs@, k + 1));
            }
            k = k + 1;
        }
    }
}

/// Spacing keeps the number of clusters.
pub proof fn lemma_spacing_pass_len(cs: Seq<ClusterData>, runs: Seq<RunData>, k: int)
    ensures
        spacing_pass(cs, runs, k).len() == cs.len(),
    decreases k,
{
    if k > 0 {
        lemma_spacing_pass_len(cs, runs, k - 1);
    }
}

/// Spacing changes only advances: styles, glyph references and source
/// characters of clusters stay as they were.
pub proof fn lemma_spacing_pass_keeps(cs: Seq<ClusterData>, runs: Seq<RunData>, k: int, i: int)
    requires
        0 <= i < cs.len(),
    ensures
        spacing_pass(cs, runs, k).len() == cs.len(),
        spacing_pass(cs, runs, k)[i].style_index == cs[i].style_index,
        spacing_pass(cs, runs, k)[i].glyph_len == cs[i].glyph_len,
        spacing_pass(cs, runs, k)[i].glyph_offset == cs[i].glyph_offset,
        spacing_pass(cs, runs, k)[i].info == cs[i].info,
    decreases k,
{
    if k > 0 {
        lemma_spacing_pass_keeps(cs, runs, k - 1, i);
    }
}

/// The tab pass keeps styles and source characters of clusters.
pub proof fn lemma_tab_pass_keeps(cs: Seq<ClusterData>, styles: Seq<Style>, runs: Seq<RunData>, k: int, i: int)
    requires
        0 <= i < cs.len(),
    ensures
        tab_pass(cs, styles, runs, k).len() == cs.len(),
        tab_pass(cs, styles, runs, k)[i].style_index == cs[i].style_index,
        tab_pass(cs, styles, runs, k)[i].glyph_len == cs[i].glyph_len,
        cs[i].glyph_len != 0xFF ==> tab_pass(cs, styles, runs, k)[i].glyph_offset == cs[i].glyph_offset,
        tab_pass(cs, styles, runs, k)[i].info == cs[i].info,
    decreases k,
{
    if k > 0 {
        lemma_tab_pass_keeps(cs, styles, runs, k - 1, i);
    }
}


/// Discretionary breaks are in strictly increasing byte order.
pub open spec fn discretionary_sorted(d: Seq<DiscretionaryBreak>) -> bool {
    forall|i: int, j: int| 0 <= i < j < d.len() ==> d[i].byte_index < d[j].byte_index
}

/// The discretionary break registered at byte `b`, if any.
pub open spec fn discretionary_at(d: Seq<DiscretionaryBreak>, b: usize) -> Option<DiscretionaryBreak> {
    if exists|i: int| 0 <= i < d.len() && (#[trigger] d[i]).byte_index == b {
        Some(d[choose|i: int| 0 <= i < d.len() && (#[trigger] d[i]).byte_index == b])
    } else {
        None
    }
}

/// Binary search for the discretionary break at byte `b`.
pub fn find_discretionary(d: &Vec<DiscretionaryBreak>, b: usize) -> (r: Option<DiscretionaryBreak>)
    requires
        discretionary_sorted(d@),
    ensures
        r == discretionary_at(d@, b),
{
    let mut lo: usize = 0;
    let mut hi: usize = d.len();
    while lo < hi
        invariant
            lo <= hi <= d@.len(),
            discretionary_sorted(d@),
            forall|i: int| 0 <= i < lo ==> d@[i].byte_index < b,
            forall|i: int| hi <= i < d@.len() ==> d@[i].byte_index > b,
        decreases hi - lo,
    {
        let mid = lo + (hi - lo) / 2;
        let key = d[mid].byte_index;
        if key == b {
            let ghost w = choose|i: int| 0 <= i < d@.len() && (#[trigger] d@[i]).byte_index == b;
            assert(d@[mid as int].byte_index == b);
            proof {
                if w < mid as int {
                    assert(false);
                } else if w > mid as int {
                    assert(false);
                }
            }
            return Some(d[mid]);
        } else if key < b {
            lo = mid + 1;
        } else {
            hi = mid;
        }
    }
    assert(!exists|i: int| 0 <= i < d@.len() && (#[trigger] d@[i]).byte_index == b);
    None
}

impl LayoutData {
    /// Everything that line breaking relies on: the item stream and runs are
    /// consistent, source byte positions of run clusters fit in `usize`, and
    /// discretionary breaks are sorted.
    pub open spec fn break_wf(&self) -> bool {
        &&& self.wf()
        &&& self.items@.len() < usize::MAX
        &&& self.clusters@.len() < usize::MAX
        &&& self.runs_wf()
        &&& discretionary_sorted(self.discretionary_breaks@)
        &&& forall|r: int| 0 <= r < self.runs@.len() ==> {
            let run = #[trigger] self.runs@[r];
            forall|c: int| run.cluster_start <= c < run.cluster_end ==>
                run.text_start + (#[trigger] self.clusters@[c]).text_offset + self.clusters@[c].text_len <= usize::MAX
        }
    }
}


impl LayoutData {
    /// Sets the advances of cluster `c`; everything else stays as it was.
    pub fn set_cluster_advances(&mut self, c: usize, advance: i64, line_break_advance: i64)
        requires
            c < old(self).clusters@.len(),
        ensures
            final(self).clusters@ == old(self).clusters@.update(
                c as int,
                ClusterData { advance, line_break_advance, ..old(self).clusters@[c as int] },
            ),
            *final(self) == (LayoutData { clusters: final(self).clusters, ..*old(self) }),
            old(self).break_wf() ==> final(self).break_wf(),
    {
        let mut cl = self.clusters[c];
        cl.advance = advance;
        cl.line_break_advance = line_break_advance;
        self.clusters.set(c, cl);
        proof {
            let o = *old(self);
            if o.break_wf() {
                assert forall|i: int| 0 <= i < self.items@.len() implies self.item_wf(#[trigger] self.items@[i]) by {
                    assert(o.item_wf(o.items@[i]));
                    let item = self.items@[i];
                    if item.kind == LayoutItemKind::TextRun {
                        assert forall|cc: int| item.cluster_start <= cc < item.cluster_end implies {
                            &&& (#[trigger] self.clusters@[cc]).style_index < self.styles@.len()
                            &&& self.runs@[item.index as int].text_start + self.clusters@[cc].text_offset
                                + self.clusters@[cc].text_len <= usize::MAX
                        } by {
                            assert(o.clusters@[cc].style_index < o.styles@.len());
                        }
                    }
                }
                assert forall|r: int| 0 <= r < self.runs@.len() implies {
                    let run = #[trigger] self.runs@[r];
                    &&& run.cluster_start <= run.cluster_end <= self.clusters@.len()
                    &&& forall|cc: int| run.cluster_start <= cc < run.cluster_end ==> {
                        let cl = #[trigger] self.clusters@[cc];
                        &&& cl.style_index < self.styles@.len()
                        &&& cl.glyph_len != 0xFF ==> run.glyph_start + cl.glyph_offset + cl.glyph_len <= self.glyphs@.len()
                    }
                } by {
                    let run = self.runs@[r];
                    assert(o.runs@[r] == run);
                    assert forall|cc: int| run.cluster_start <= cc < run.cluster_end implies {
                        let cl = #[trigger] self.clusters@[cc];
                        &&& cl.style_index < self.styles@.len()
                        &&& cl.glyph_len != 0xFF ==> run.glyph_start + cl.glyph_offset + cl.glyph_len <= self.glyphs@.len()
                    } by {
                        assert(o.clusters@[cc].style_index < o.styles@.len());
                    }
                }
                assert forall|r: int| 0 <= r < self.runs@.len() implies {
                    let run = #[trigger] self.runs@[r];
                    forall|cc: int| run.cluster_start <= cc < run.cluster_end ==>
                        run.text_start + (#[trigger] self.clusters@[cc]).text_offset + self.clusters@[cc].text_len <= usize::MAX
                } by {
                    let run = self.runs@[r];
                    assert(o.runs@[r] == run);
                    assert forall|cc: int| run.cluster_start <= cc < run.cluster_end implies
                        run.text_start + (#[trigger] self.clusters@[cc]).text_offset + self.clusters@[cc].text_len <= usize::MAX by {
                        assert(run.text_start + o.clusters@[cc].text_offset + o.clusters@[cc].text_len <= usize::MAX);
                    }
                }
            }
        }
    }

    /// Adds `delta` to the advance of glyph `g`; everything else stays.
    pub fn add_glyph_advance(&mut self, g: usize, delta: i64)
        requires
            g < old(self).glyphs@.len(),
        ensures
            final(self).glyphs@ == old(self).glyphs@.update(
                g as int,
                Glyph { advance: clamp_i64(old(self).glyphs@[g as int].advance + delta), ..old(self).glyphs@[g as int] },
            ),
            final(self).glyphs@.len() == old(self).glyphs@.len(),
            *final(self) == (LayoutData { glyphs: final(self).glyphs, ..*old(self) }),
            old(self).break_wf() ==> final(self).break_wf(),
    {
        let mut gl = self.glyphs[g];
        gl.advance = sat_add(gl.advance, delta);
        self.glyphs.set(g, gl);
        proof {
            let o = *old(self);
            if o.break_wf() {
                assert forall|i: int| 0 <= i < self.items@.len() implies self.item_wf(#[trigger] self.items@[i]) by {
                    assert(o.item_wf(o.items@[i]));
                }
                assert forall|r: int| 0 <= r < self.runs@.len() implies {
                    let run = #[trigger] self.runs@[r];
                    &&& run.cluster_start <= run.cluster_end <= self.clusters@.len()
                    &&& forall|cc: int| run.cluster_start <= cc < run.cluster_end ==> {
                        let cl = #[trigger] self.clusters@[cc];
                        &&& cl.style_index < self.styles@.len()
                        &&& cl.glyph_len != 0xFF ==> run.glyph_start + cl.glyph_offset + cl.glyph_len <= self.glyphs@.len()
                    }
                } by {
                    assert(o.runs@[r] == self.runs@[r]);
                }
            }
        }
    }
}


/// The base bidi level of the paragraph that holds byte `pos`: that of the
/// last paragraph in `levels` starting at or before it, else `base`.
pub open spec fn paragraph_level_at(levels: Seq<(usize, u8)>, base: u8, pos: usize) -> u8
    decreases levels.len(),
{
    if levels.len() == 0 {
        base
    } else if levels.last().0 <= pos {
        levels.last().1
    } else {
        paragraph_level_at(levels.drop_last(), base, pos)
    }
}

/// Whether `line` belongs to a right-to-left paragraph.
pub open spec fn line_is_rtl(d: LayoutData, line: LineData) -> bool {
    paragraph_level_at(d.paragraph_levels@, d.base_level, line.text_start) % 2 == 1
}

impl LayoutData {
    /// The base bidi level of the paragraph that holds byte `pos`.
    pub fn paragraph_level(&self, pos: usize) -> (r: u8)
        ensures
            r == paragraph_level_at(self.paragraph_levels@, self.base_level, pos),
    {
        let mut k: usize = self.paragraph_levels.len();
        assert(self.paragraph_levels@.subrange(0, k as int) == self.paragraph_levels@);
        while k > 0
            invariant
                k <= self.paragraph_levels@.len(),
                paragraph_level_at(self.paragraph_levels@, self.base_level, pos) == paragraph_level_at(
                    self.paragraph_levels@.subrange(0, k as int),
                    self.base_level,
                    pos,
                ),
            decreases k,
        {
            let ghost prefix = self.paragraph_levels@.subrange(0, k as int);
            assert(prefix.drop_last() == self.paragraph_levels@.subrange(0, k - 1));
            let (start, level) = self.paragraph_levels[k - 1];
            if start <= pos {
                return level;
            }
            k = k - 1;
        }
        assert(self.paragraph_levels@.subrange(0, 0).len() == 0);
        self.base_level
    }
}

impl LayoutData {
    /// A paragraph with nothing in it.
    pub fn new() -> (r: Self)
        ensures
            r.break_wf(),
            r.items@.len() == 0,
            r.runs@.len() == 0,
            r.clusters@.len() == 0,
            r.lines@.len() == 0,
            r.line_items@.len() == 0,
            r.text_len == 0,
    {
        LayoutData {
            normal_soft_wrap_selection: NormalSoftWrapSelection::PriorityClasses,
            reclaim_space_before_inline_box: false,
            line_break_overrides: Vec::new(),
            discretionary_breaks: Vec::new(),
            base_level: 0,
            paragraph_levels: Vec::new(),
            text_len: 0,
            styles: Vec::new(),
            inline_boxes: Vec::new(),
            runs: Vec::new(),
            items: Vec::new(),
            clusters: Vec::new(),
            glyphs: Vec::new(),
            lines: Vec::new(),
            line_items: Vec::new(),
            indent_amount: 0,
            indent_options: IndentOptions { each_line: false, hanging: false },
            indent_start: IndentStart::ElementStart,
            width: 0,
            full_width: 0,
            alignment_width: 0,
            per_line_alignment_widths: Vec::new(),
            aligned_justification_mode: None,
            is_aligned_justified: false,
        }
    }
}


impl LayoutData {
    /// Empties the paragraph for reuse: every item, run, cluster, glyph,
    /// line, style, box and override is dropped and every setting returns
    /// to its default. Registered discretionary breaks stay.
    pub fn clear(&mut self)
        ensures
            final(self).normal_soft_wrap_selection == NormalSoftWrapSelection::PriorityClasses,
            !final(self).reclaim_space_before_inline_box,
            final(self).line_break_overrides@.len() == 0,
            final(self).discretionary_breaks == old(self).discretionary_breaks,
            final(self).base_level == 0,
            final(self).paragraph_levels@.len() == 0,
            final(self).text_len == 0,
            final(self).width == 0,
            final(self).full_width == 0,
            final(self).styles@.len() == 0,
            final(self).inline_boxes@.len() == 0,
            final(self).runs@.len() == 0,
            final(self).items@.len() == 0,
            final(self).clusters@.len() == 0,
            final(self).glyphs@.len() == 0,
            final(self).lines@.len() == 0,
            final(self).line_items@.len() == 0,
            !final(self).is_aligned_justified,
            final(self).aligned_justification_mode is None,
            final(self).alignment_width == 0,
            final(self).per_line_alignment_widths@.len() == 0,
            final(self).indent_amount == 0,
            final(self).indent_options == (IndentOptions { each_line: false, hanging: false }),
            final(self).indent_start == IndentStart::ElementStart,
    {
        self.normal_soft_wrap_selection = NormalSoftWrapSelection::default();
        self.reclaim_space_before_inline_box = false;
        self.line_break_overrides.clear();
        self.base_level = 0;
        self.paragraph_levels.clear();
        self.text_len = 0;
        self.width = 0;
        self.full_width = 0;
        self.styles.clear();
        self.inline_boxes.clear();
        self.runs.clear();
        self.items.clear();
        self.clusters.clear();
        self.glyphs.clear();
        self.lines.clear();
        self.line_items.clear();
        self.is_aligned_justified = false;
        self.aligned_justification_mode = None;
        self.alignment_width = 0;
        self.per_line_alignment_widths.clear();
        self.indent_amount = 0;
        self.indent_options = IndentOptions::default();
        self.indent_start = IndentStart::default();
    }
}

} // verus!
