use vstd::prelude::*;

use crate::analysis::Whitespace;
use crate::data::{line_is_rtl, spec_to_whitespace, BreakReason, ClusterData, LayoutData, LayoutItemKind, LineData, LineItemData};
use crate::line_break::{line_items_wf, lines_wf};
use crate::unicode::white_space_char;
use crate::units::{clamp_i64, sat_add, sat_sub};

verus! {

/// Alignment of a layout.
#[derive(Copy, Clone, PartialEq, Eq, Debug, Structural)]
pub enum Alignment {
    /// Left for left-to-right text and right for right-to-left text.
    Start,
    /// Right for left-to-right text and left for right-to-left text.
    End,
    /// Align content to the left edge.
    Left,
    /// Center each line within the container.
    Center,
    /// Align content to the right edge.
    Right,
    /// Justify each line by spacing out content, except for the last line.
    Justify,
}

impl Default for Alignment {
    fn default() -> (r: Self)
        ensures
            r == Alignment::Start,
    {
        Alignment::Start
    }
}

/// Policy used when justification expands line advances.
#[derive(Copy, Clone, PartialEq, Eq, Debug, Structural)]
pub enum JustificationMode {
    /// Expand inter-word separators only.
    InterWord,
    /// Expand advances between eligible non-whitespace clusters.
    InterCharacter,
    /// Do not expand cluster advances; fall back to start alignment.
    NoExpansion,
}

impl Default for JustificationMode {
    fn default() -> (r: Self)
        ensures
            r == JustificationMode::InterWord,
    {
        JustificationMode::InterWord
    }
}

/// Additional options to fine tune alignment.
#[derive(Debug, Clone, Copy, PartialEq, Eq, Structural)]
pub struct AlignmentOptions {
    /// Whether end and center alignment apply to lines wider than the
    /// alignment width; otherwise overflowing lines are start aligned.
    pub align_when_overflowing: bool,
    /// Which justification strategy justified alignment applies.
    pub justification_mode: JustificationMode,
}

impl Default for AlignmentOptions {
    fn default() -> (r: Self)
        ensures
            r == (AlignmentOptions { align_when_overflowing: false, justification_mode: JustificationMode::InterWord }),
    {
        AlignmentOptions { align_when_overflowing: false, justification_mode: JustificationMode::InterWord }
    }
}

/// Whether justification in `mode` may expand the advance of `c`: a space or
/// no-break space between words, any non-whitespace cluster between
/// characters.
pub open spec fn spec_is_justification_opportunity(c: ClusterData, mode: JustificationMode) -> bool {
    match mode {
        JustificationMode::InterWord => spec_to_whitespace(c.info.source_char) == Whitespace::Space || spec_to_whitespace(
            c.info.source_char,
        ) == Whitespace::NoBreakSpace,
        JustificationMode::InterCharacter => !white_space_char(c.info.source_char),
        JustificationMode::NoExpansion => false,
    }
}

/// Whether justification in `justification_mode` may expand `cluster`.
pub fn cluster_is_justification_opportunity(cluster: &ClusterData, justification_mode: JustificationMode) -> (r:
    bool)
    ensures
        r == spec_is_justification_opportunity(*cluster, justification_mode),
{
    match justification_mode {
        JustificationMode::InterWord => cluster.info.whitespace().is_space_or_nbsp(),
        JustificationMode::InterCharacter => !cluster.info.is_whitespace(),
        JustificationMode::NoExpansion => false,
    }
}

/// The clusters of a text line item in visual order: reversed for a
/// right-to-left item.
pub open spec fn item_cluster_order(li: LineItemData) -> Seq<int> {
    let forward = Seq::new(
        if li.cluster_start <= li.cluster_end { (li.cluster_end - li.cluster_start) as nat } else { 0 },
        |j: int| li.cluster_start + j,
    );
    if li.bidi_level % 2 == 1 { forward.reverse() } else { forward }
}

/// The clusters of the text items of `items`, item by item.
pub open spec fn visit_order(items: Seq<LineItemData>) -> Seq<int>
    decreases items.len(),
{
    if items.len() == 0 {
        seq![]
    } else {
        visit_order(items.drop_last()) + if items.last().kind == LayoutItemKind::TextRun {
            item_cluster_order(items.last())
        } else {
            seq![]
        }
    }
}

/// The order in which justification visits the clusters of a line: the
/// line's items from its logical start, or from its end in a right-to-left
/// paragraph, each item's clusters in visual order.
pub open spec fn justification_order(items: Seq<LineItemData>, rtl: bool) -> Seq<int> {
    visit_order(if rtl { items.reverse() } else { items })
}

/// The number of clusters at positions of `order` that `mode` may expand.
pub open spec fn count_eligible(clusters: Seq<ClusterData>, order: Seq<int>, mode: JustificationMode) -> nat
    decreases order.len(),
{
    if order.len() == 0 {
        0
    } else {
        count_eligible(clusters, order.drop_last(), mode) + if spec_is_justification_opportunity(
            clusters[order.last()],
            mode,
        ) {
            1nat
        } else {
            0nat
        }
    }
}

/// The clusters after justification has visited the first `k` positions of
/// `order`, with the number of clusters expanded so far: each eligible
/// cluster gets `adjustment` until `opportunities` clusters have.
pub open spec fn justify_prefix(
    clusters: Seq<ClusterData>,
    order: Seq<int>,
    mode: JustificationMode,
    opportunities: nat,
    adjustment: i64,
    k: int,
) -> (Seq<ClusterData>, nat)
    decreases k,
{
    if k <= 0 {
        (clusters, 0)
    } else {
        let (cs, applied) = justify_prefix(clusters, order, mode, opportunities, adjustment, k - 1);
        let idx = order[k - 1];
        if applied < opportunities && spec_is_justification_opportunity(cs[idx], mode) {
            (cs.update(idx, ClusterData { advance: clamp_i64(cs[idx].advance + adjustment), ..cs[idx] }), applied + 1)
        } else {
            (cs, applied)
        }
    }
}

/// `v / 2`, rounded toward zero.
pub open spec fn half(v: i64) -> i64 {
    if v >= 0 { (v / 2) as i64 } else { (-((-v) / 2)) as i64 }
}

/// The alignment width of line `i`: its own width, else the layout's.
pub open spec fn line_alignment_width(d: LayoutData, i: int) -> i64 {
    if i < d.per_line_alignment_widths@.len() { d.per_line_alignment_widths@[i] } else { d.alignment_width }
}

/// The space a line leaves in `width`: the width less its indent and
/// advance, with its hanging whitespace given back.
pub open spec fn free_space(width: i64, line: LineData) -> i64 {
    clamp_i64(clamp_i64(clamp_i64(width - line.indent) - line.advance) + line.trailing_whitespace)
}

/// The justification opportunities of a line: its spaces between words,
/// or the gaps between its eligible clusters.
pub open spec fn line_opportunities(d: LayoutData, clusters: Seq<ClusterData>, line: LineData, mode: JustificationMode) -> nat {
    match mode {
        JustificationMode::InterWord => line.num_spaces as nat,
        JustificationMode::InterCharacter => {
            let order = justification_order(
                d.line_items@.subrange(line.item_start as int, line.item_end as int),
                line_is_rtl(d, line),
            );
            let n = count_eligible(clusters, order, mode);
            if n == 0 { 0 } else { (n - 1) as nat }
        },
        JustificationMode::NoExpansion => 0,
    }
}

/// Whether line `line` is justified: justified alignment with free space,
/// an expanding mode, opportunities, and a line ended by a soft break.
pub open spec fn line_is_justified(
    d: LayoutData,
    clusters: Seq<ClusterData>,
    line: LineData,
    free: i64,
    alignment: Alignment,
    options: AlignmentOptions,
) -> bool {
    &&& alignment == Alignment::Justify
    &&& free > 0
    &&& options.justification_mode != JustificationMode::NoExpansion
    &&& line.break_reason != BreakReason::Unbroken
    &&& line.break_reason != BreakReason::Explicit
    &&& line_opportunities(d, clusters, line, options.justification_mode) > 0
    &&& !visits_tab(
        clusters,
        justification_order(
            d.line_items@.subrange(line.item_start as int, line.item_end as int),
            line_is_rtl(d, line),
        ),
    )
}

/// Whether justification visits a tab cluster: a line with a preserved tab
/// keeps its tab stops and is not justified.
pub open spec fn visits_tab(clusters: Seq<ClusterData>, order: Seq<int>) -> bool {
    exists|q: int|
        0 <= q < order.len() && spec_to_whitespace((#[trigger] clusters[order[q]]).info.source_char)
            == Whitespace::Tab
}

/// Whether justification, visiting `order`, meets a tab cluster.
fn order_visits_tab(clusters: &Vec<ClusterData>, order: &Vec<usize>) -> (r: bool)
    requires
        forall|i: int| 0 <= i < order@.len() ==> (#[trigger] order@[i]) < clusters@.len(),
    ensures
        r == visits_tab(clusters@, order@.map_values(|c: usize| c as int)),
{
    let ghost ord = order@.map_values(|c: usize| c as int);
    let mut q: usize = 0;
    while q < order.len()
        invariant
            q <= order@.len(),
            ord == order@.map_values(|c: usize| c as int),
            forall|i: int| 0 <= i < order@.len() ==> (#[trigger] order@[i]) < clusters@.len(),
            forall|i: int| 0 <= i < q ==> spec_to_whitespace(clusters@[ord[i]].info.source_char) != Whitespace::Tab,
        decreases order@.len() - q,
    {
        assert(ord[q as int] == order@[q as int] as int);
        if clusters[order[q]].info.whitespace() == Whitespace::Tab {
            assert(spec_to_whitespace(clusters@[ord[q as int]].info.source_char) == Whitespace::Tab);
            return true;
        }
        q = q + 1;
    }
    false
}

/// The offset of `line` from the start edge when aligned within `width`.
/// Hanging whitespace sits past the line's end; overflowing lines are start
/// aligned unless `align_when_overflowing`; justified lines, and lines that
/// justification falls back from, are start aligned.
pub open spec fn aligned_offset(
    d: LayoutData,
    clusters: Seq<ClusterData>,
    line: LineData,
    width: i64,
    alignment: Alignment,
    options: AlignmentOptions,
) -> i64 {
    let rtl = line_is_rtl(d, line);
    let base = if rtl { clamp_i64(0 - line.trailing_whitespace) } else { line.indent };
    let free = free_space(width, line);
    let to_end = clamp_i64(base + free);
    if !options.align_when_overflowing && free <= 0 {
        if rtl { to_end } else { base }
    } else {
        match alignment {
            Alignment::Left => base,
            Alignment::Right => to_end,
            Alignment::Start => if rtl { to_end } else { base },
            Alignment::End => if rtl { base } else { to_end },
            Alignment::Center => clamp_i64(base + half(free)),
            Alignment::Justify => if free <= 0 || line_is_justified(d, clusters, line, free, alignment, options) {
                base
            } else if rtl {
                to_end
            } else {
                base
            },
        }
    }
}

/// The clusters of `d` after its line `line` has been justified (or the
/// justification undone, with `undo`) within `width`.
pub open spec fn justified_clusters(
    d: LayoutData,
    clusters: Seq<ClusterData>,
    line: LineData,
    width: i64,
    alignment: Alignment,
    options: AlignmentOptions,
    undo: bool,
) -> Seq<ClusterData> {
    let free = free_space(width, line);
    if (options.align_when_overflowing || free > 0) && line_is_justified(d, clusters, line, free, alignment, options) {
        let mode = options.justification_mode;
        let opportunities = line_opportunities(d, clusters, line, mode);
        let adjustment = ((free as int) / (opportunities as int)) as i64;
        let signed = if undo { (-adjustment) as i64 } else { adjustment };
        let order = justification_order(
            d.line_items@.subrange(line.item_start as int, line.item_end as int),
            line_is_rtl(d, line),
        );
        justify_prefix(clusters, order, mode, opportunities, signed, order.len() as int).0
    } else {
        clusters
    }
}

/// The lines and line items of `d` agree with its clusters.
pub open spec fn aligned_lines_wf(d: LayoutData) -> bool {
    &&& line_items_wf(d, d.line_items@)
    &&& lines_wf(d.lines@, d.line_items@)
}

/// `v / 2`, rounded toward zero.
fn half_toward_zero(v: i64) -> (r: i64)
    ensures
        r == half(v),
{
    if v >= 0 {
        v / 2
    } else {
        let m = (-(v + 1)) as u64;
        let h = ((m + 1) / 2) as i64;
        -h
    }
}

/// The clusters of `items` in the order justification visits them.
fn collect_justification_order(items: &Vec<LineItemData>, start: usize, end: usize, rtl: bool, n_clusters: usize) -> (r:
    Vec<usize>)
    requires
        start <= end <= items@.len(),
        forall|j: int| start <= j < end && (#[trigger] items@[j]).kind == LayoutItemKind::TextRun
            ==> items@[j].cluster_end <= n_clusters,
    ensures
        r@.len() == justification_order(items@.subrange(start as int, end as int), rtl).len(),
        forall|q: int| 0 <= q < r@.len() ==> r@[q] as int == #[trigger] justification_order(
            items@.subrange(start as int, end as int),
            rtl,
        )[q],
        forall|q: int| 0 <= q < r@.len() ==> (#[trigger] r@[q]) < n_clusters,
{
    let ghost seg = items@.subrange(start as int, end as int);
    let ghost visit = if rtl { seg.reverse() } else { seg };
    let n = end - start;
    let mut order: Vec<usize> = Vec::new();
    let mut m: usize = 0;
    while m < n
        invariant
            start <= end <= items@.len(),
            n == end - start,
            seg == items@.subrange(start as int, end as int),
            visit == (if rtl { seg.reverse() } else { seg }),
            forall|j: int| start <= j < end && (#[trigger] items@[j]).kind == LayoutItemKind::TextRun
                ==> items@[j].cluster_end <= n_clusters,
            m <= n,
            order@.len() == visit_order(visit.take(m as int)).len(),
            forall|q: int| 0 <= q < order@.len() ==> order@[q] as int == #[trigger] visit_order(visit.take(m as int))[q],
            forall|q: int| 0 <= q < order@.len() ==> (#[trigger] order@[q]) < n_clusters,
        decreases n - m,
    {
        let idx = if rtl { end - 1 - m } else { start + m };
        let li = items[idx];
        assert(visit[m as int] == li);
        assert(visit.take(m + 1).drop_last() =~= visit.take(m as int));
        assert(visit.take(m + 1).last() == li);
        let ghost before = order@;
        if li.kind == LayoutItemKind::TextRun {
            let ghost cl = item_cluster_order(li);
            if li.cluster_start <= li.cluster_end {
                let len = li.cluster_end - li.cluster_start;
                let mut j: usize = 0;
                while j < len
                    invariant
                        li.cluster_start <= li.cluster_end <= n_clusters,
                        len == li.cluster_end - li.cluster_start,
                        cl == item_cluster_order(li),
                        cl.len() == len,
                        j <= len,
                        order@.len() == before.len() + j,
                        forall|q: int| 0 <= q < before.len() ==> order@[q] == before[q],
                        forall|q: int| 0 <= q < j ==> order@[before.len() + q] as int == #[trigger] cl[q],
                        forall|q: int| 0 <= q < order@.len() ==> (#[trigger] order@[q]) < n_clusters,
                    decreases len - j,
                {
                    let c = if li.bidi_level % 2 == 1 {
                        li.cluster_end - 1 - j
                    } else {
                        li.cluster_start + j
                    };
                    order.push(c);
                    j = j + 1;
                }
            }
            proof {
                let next = visit_order(visit.take(m + 1));
                assert(next == visit_order(visit.take(m as int)) + cl);
                assert forall|q: int| 0 <= q < order@.len() implies order@[q] as int == #[trigger] next[q] by {
                    if q < before.len() {
                    } else {
                        assert(order@[before.len() + (q - before.len())] as int == cl[q - before.len()]);
                    }
                }
            }
        } else {
            proof {
                let next = visit_order(visit.take(m + 1));
                assert(next =~= visit_order(visit.take(m as int)));
            }
        }
        m = m + 1;
    }
    assert(visit.take(n as int) =~= visit);
    order
}

/// The number of gaps between the clusters of `items` that inter-character
/// justification may expand: one less than the eligible clusters.
pub fn count_inter_character_opportunities(
    items: &Vec<LineItemData>,
    start: usize,
    end: usize,
    clusters: &Vec<ClusterData>,
    rtl: bool,
) -> (r: usize)
    requires
        start <= end <= items@.len(),
        forall|j: int| start <= j < end && (#[trigger] items@[j]).kind == LayoutItemKind::TextRun
            ==> items@[j].cluster_end <= clusters@.len(),
    ensures
        r == ({
            let n = count_eligible(
                clusters@,
                justification_order(items@.subrange(start as int, end as int), rtl),
                JustificationMode::InterCharacter,
            );
            if n == 0 { 0 } else { n - 1 }
        }),
{
    let order = collect_justification_order(items, start, end, rtl, clusters.len());
    let ghost full = justification_order(items@.subrange(start as int, end as int), rtl);
    let mut eligible: usize = 0;
    let mut q: usize = 0;
    while q < order.len()
        invariant
            order@.len() == full.len(),
            forall|i: int| 0 <= i < order@.len() ==> order@[i] as int == #[trigger] full[i],
            forall|i: int| 0 <= i < order@.len() ==> (#[trigger] order@[i]) < clusters@.len(),
            q <= order@.len(),
            eligible == count_eligible(clusters@, full.take(q as int), JustificationMode::InterCharacter),
            eligible <= q,
        decreases order@.len() - q,
    {
        assert(full.take(q + 1).drop_last() =~= full.take(q as int));
        assert(full.take(q + 1).last() == full[q as int]);
        if cluster_is_justification_opportunity(&clusters[order[q]], JustificationMode::InterCharacter) {
            eligible = eligible + 1;
        }
        q = q + 1;
    }
    assert(full.take(order@.len() as int) =~= full);
    eligible.saturating_sub(1)
}

/// Expands (or, with a negative adjustment, shrinks back) the first
/// `opportunities` clusters that `mode` may expand, visiting `order`.
fn justify_clusters(
    clusters: &mut Vec<ClusterData>,
    order: &Vec<usize>,
    mode: JustificationMode,
    opportunities: usize,
    adjustment: i64,
)
    requires
        forall|i: int| 0 <= i < order@.len() ==> (#[trigger] order@[i]) < old(clusters)@.len(),
    ensures
        final(clusters)@ == justify_prefix(
            old(clusters)@,
            order@.map_values(|c: usize| c as int),
            mode,
            opportunities as nat,
            adjustment,
            order@.len() as int,
        ).0,
        final(clusters)@.len() == old(clusters)@.len(),
{
    let ghost ord = order@.map_values(|c: usize| c as int);
    let ghost orig = clusters@;
    let mut applied: usize = 0;
    let mut q: usize = 0;
    while q < order.len()
        invariant
            ord == order@.map_values(|c: usize| c as int),
            forall|i: int| 0 <= i < order@.len() ==> (#[trigger] order@[i]) < orig.len(),
            clusters@.len() == orig.len(),
            q <= order@.len(),
            (clusters@, applied as nat) == justify_prefix(orig, ord, mode, opportunities as nat, adjustment, q as int),
            applied <= q,
        decreases order@.len() - q,
    {
        let idx = order[q];
        assert(ord[q as int] == idx as int);
        if applied < opportunities {
            let cluster = clusters[idx];
            if cluster_is_justification_opportunity(&cluster, mode) {
                let mut c = cluster;
                c.advance = sat_add(cluster.advance, adjustment);
                clusters.set(idx, c);
                applied = applied + 1;
            }
        }
        q = q + 1;
    }
}

impl LayoutData {
    /// Aligns line `line_index` within its alignment width: sets its offset
    /// and, for a justified line, expands the advances of its first
    /// eligible clusters by an equal share of the free space (or, with
    /// `undo`, takes that share back).
    fn align_line(&mut self, line_index: usize, alignment: Alignment, options: AlignmentOptions, undo: bool)
        requires
            aligned_lines_wf(*old(self)),
            line_index < old(self).lines@.len(),
        ensures
            aligned_lines_wf(*final(self)),
            final(self).lines@ == old(self).lines@.update(
                line_index as int,
                LineData {
                    offset: aligned_offset(
                        *old(self),
                        old(self).clusters@,
                        old(self).lines@[line_index as int],
                        line_alignment_width(*old(self), line_index as int),
                        alignment,
                        options,
                    ),
                    ..old(self).lines@[line_index as int]
                },
            ),
            final(self).clusters@ == justified_clusters(
                *old(self),
                old(self).clusters@,
                old(self).lines@[line_index as int],
                line_alignment_width(*old(self), line_index as int),
                alignment,
                options,
                undo,
            ),
            *final(self) == (LayoutData { lines: final(self).lines, clusters: final(self).clusters, ..*old(self) }),
    {
        let ghost d0 = *self;
        let line = self.lines[line_index];
        let base_level = self.paragraph_level(line.text_start);
        let rtl = base_level & 1 == 1;
        assert(base_level & 1 == 1 <==> base_level % 2 == 1) by (bit_vector);
        let alignment_width = if line_index < self.per_line_alignment_widths.len() {
            self.per_line_alignment_widths[line_index]
        } else {
            self.alignment_width
        };
        let free_space = sat_add(sat_sub(sat_sub(alignment_width, line.indent), line.advance), line.trailing_whitespace);
        let base = if rtl { sat_sub(0, line.trailing_whitespace) } else { line.indent };
        let to_end = sat_add(base, free_space);
        let mut justify = false;
        let offset = if !options.align_when_overflowing && free_space <= 0 {
            if rtl { to_end } else { base }
        } else {
            match alignment {
                Alignment::Left => base,
                Alignment::Right => to_end,
                Alignment::Start => if rtl { to_end } else { base },
                Alignment::End => if rtl { base } else { to_end },
                Alignment::Center => sat_add(base, half_toward_zero(free_space)),
                Alignment::Justify => {
                    if free_space <= 0 {
                        base
                    } else {
                        let mode = options.justification_mode;
                        let opportunities = match mode {
                            JustificationMode::InterWord => line.num_spaces,
                            JustificationMode::InterCharacter => {
                                proof {
                                    assert forall|j: int| line.item_start <= j < line.item_end && (#[trigger] self.line_items@[j]).kind
                                        == LayoutItemKind::TextRun implies self.line_items@[j].cluster_end <= self.clusters@.len() by {}
                                }
                                count_inter_character_opportunities(
                                    &self.line_items,
                                    line.item_start,
                                    line.item_end,
                                    &self.clusters,
                                    rtl,
                                )
                            },
                            JustificationMode::NoExpansion => 0,
                        };
                        proof {
                            assert forall|j: int| line.item_start <= j < line.item_end && (#[trigger] self.line_items@[j]).kind
                                == LayoutItemKind::TextRun implies self.line_items@[j].cluster_end <= self.clusters@.len() by {}
                        }
                        let order = collect_justification_order(
                            &self.line_items,
                            line.item_start,
                            line.item_end,
                            rtl,
                            self.clusters.len(),
                        );
                        proof {
                            let ord = order@.map_values(|c: usize| c as int);
                            let full = justification_order(
                                d0.line_items@.subrange(line.item_start as int, line.item_end as int),
                                rtl,
                            );
                            assert(ord =~= full);
                        }
                        let has_tab = order_visits_tab(&self.clusters, &order);
                        if mode == JustificationMode::NoExpansion || line.break_reason == BreakReason::Unbroken
                            || line.break_reason == BreakReason::Explicit || opportunities == 0 || has_tab {
                            if rtl { to_end } else { base }
                        } else {
                            justify = true;
                            let adjustment = ((free_space as u64) / (opportunities as u64)) as i64;
                            let signed = if undo { -adjustment } else { adjustment };
                            proof {
                                assert((free_space as u64) / (opportunities as u64) == (free_space as int) / (opportunities as int));
                            }
                            justify_clusters(&mut self.clusters, &order, mode, opportunities, signed);
                            base
                        }
                    }
                },
            }
        };
        let mut aligned = line;
        aligned.offset = offset;
        self.lines.set(line_index, aligned);
        proof {
            assert forall|j: int| 0 <= j < self.line_items@.len() implies {
                let li = #[trigger] self.line_items@[j];
                &&& li.kind == LayoutItemKind::TextRun ==> li.index < self.runs@.len()
                &&& li.kind == LayoutItemKind::TextRun ==> li.cluster_end <= self.clusters@.len()
                &&& li.kind == LayoutItemKind::InlineBox ==> li.index < self.inline_boxes@.len()
            } by {
                assert(line_items_wf(d0, d0.line_items@));
                assert(d0.line_items@[j] == self.line_items@[j]);
            }
            assert forall|j: int| 0 <= j < self.lines@.len() implies (#[trigger] self.lines@[j]).item_start
                <= self.lines@[j].item_end <= self.line_items@.len() by {
                assert(lines_wf(d0.lines@, d0.line_items@));
                if j != line_index {
                    assert(self.lines@[j] == d0.lines@[j]);
                }
            }
            if !justify {
                assert(self.clusters@ == d0.clusters@);
            }
        }
    }
}


/// Where an aligned line that fits its width sits: in a left-to-right
/// paragraph, left and start alignment put its indented start at the start
/// edge, right and end alignment put the end of its content (before its
/// hanging whitespace) at the end edge, and centring splits the free space
/// evenly (the start side getting the smaller half). In a right-to-left
/// paragraph start and right alignment put the line against the right edge
/// with its indent, end and left alignment let its hanging whitespace pass
/// the left edge.
pub proof fn lemma_aligned_offset_of_fitting_line(
    d: LayoutData,
    clusters: Seq<ClusterData>,
    line: LineData,
    width: i64,
    alignment: Alignment,
    options: AlignmentOptions,
)
    requires
        0 <= line.indent <= 0x1000_0000_0000_0000,
        0 <= line.trailing_whitespace <= line.advance <= 0x1000_0000_0000_0000,
        0 <= width <= 0x1000_0000_0000_0000,
        width - line.indent - line.advance + line.trailing_whitespace > 0,
        alignment != Alignment::Justify,
    ensures
        ({
            let offset = aligned_offset(d, clusters, line, width, alignment, options) as int;
            let free = width - line.indent - line.advance + line.trailing_whitespace;
            if !line_is_rtl(d, line) {
                &&& (alignment == Alignment::Left || alignment == Alignment::Start) ==> offset == line.indent
                &&& (alignment == Alignment::Right || alignment == Alignment::End) ==> offset + line.advance
                    - line.trailing_whitespace == width
                &&& alignment == Alignment::Center ==> offset - line.indent == free / 2
            } else {
                &&& (alignment == Alignment::Right || alignment == Alignment::Start) ==> offset + line.advance
                    + line.indent == width
                &&& (alignment == Alignment::Left || alignment == Alignment::End) ==> offset == -line.trailing_whitespace
                &&& alignment == Alignment::Center ==> offset + line.trailing_whitespace == free / 2
            }
        }),
{
}

/// A line ended by a newline or by the end of the paragraph is never
/// stretched: aligning it, or undoing its justification, leaves every
/// cluster advance as it was, whatever the alignment, width and
/// justification mode.
pub proof fn lemma_last_lines_keep_their_advances(
    d: LayoutData,
    clusters: Seq<ClusterData>,
    line: LineData,
    width: i64,
    alignment: Alignment,
    options: AlignmentOptions,
    undo: bool,
)
    requires
        line.break_reason == BreakReason::Explicit || line.break_reason == BreakReason::Unbroken,
    ensures
        justified_clusters(d, clusters, line, width, alignment, options, undo) == clusters,
{
}

/// The lines and clusters of `d` after its first `k` lines have been
/// aligned (or their justification undone, with `undo`).
pub open spec fn align_lines(
    d: LayoutData,
    alignment: Alignment,
    options: AlignmentOptions,
    undo: bool,
    k: int,
) -> (Seq<LineData>, Seq<ClusterData>)
    decreases k,
{
    if k <= 0 {
        (d.lines@, d.clusters@)
    } else {
        let (lines, clusters) = align_lines(d, alignment, options, undo, k - 1);
        let line = d.lines@[k - 1];
        let width = line_alignment_width(d, k - 1);
        (
            lines.update(k - 1, LineData { offset: aligned_offset(d, clusters, line, width, alignment, options), ..line }),
            justified_clusters(d, clusters, line, width, alignment, options, undo),
        )
    }
}

/// The justification that aligning with `alignment` and `options` leaves
/// on the clusters.
pub open spec fn spec_justification_applied(alignment: Alignment, options: AlignmentOptions) -> Option<JustificationMode> {
    if alignment == Alignment::Justify && options.justification_mode != JustificationMode::NoExpansion {
        Some(options.justification_mode)
    } else {
        None
    }
}

/// `d1` is `d0` aligned within `alignment_width` (the layout's width when
/// absent): the alignment settings are recorded, and the lines' offsets and
/// the clusters are those of aligning every line (see `align_lines`).
pub open spec fn aligned_from(
    d0: LayoutData,
    d1: LayoutData,
    alignment_width: Option<i64>,
    alignment: Alignment,
    options: AlignmentOptions,
) -> bool {
    let prepared = LayoutData {
        alignment_width: d1.alignment_width,
        per_line_alignment_widths: d1.per_line_alignment_widths,
        aligned_justification_mode: d1.aligned_justification_mode,
        is_aligned_justified: d1.is_aligned_justified,
        ..d0
    };
    &&& d1.lines@.len() == d0.lines@.len()
    &&& d1.alignment_width == match alignment_width {
        Some(w) => w,
        None => d0.width,
    }
    &&& d1.per_line_alignment_widths@ == Seq::<i64>::empty()
    &&& d1.aligned_justification_mode == spec_justification_applied(alignment, options)
    &&& d1.is_aligned_justified == spec_justification_applied(alignment, options) is Some
    &&& (d1.lines@, d1.clusters@) == align_lines(prepared, alignment, options, false, d0.lines@.len() as int)
    &&& d1 == (LayoutData {
        lines: d1.lines,
        clusters: d1.clusters,
        alignment_width: d1.alignment_width,
        per_line_alignment_widths: d1.per_line_alignment_widths,
        aligned_justification_mode: d1.aligned_justification_mode,
        is_aligned_justified: d1.is_aligned_justified,
        ..d0
    })
}

/// `d1` is `d0` with the justification of its last alignment taken back:
/// with a recorded justification mode, the lines are aligned again with
/// justification undone (see `align_lines`) and the mode is cleared;
/// without one nothing changes.
pub open spec fn unjustified_from(d0: LayoutData, d1: LayoutData) -> bool {
    &&& d1.lines@.len() == d0.lines@.len()
    &&& d1.aligned_justification_mode is None
    &&& match d0.aligned_justification_mode {
        Some(mode) => {
            &&& !d1.is_aligned_justified
            &&& (d1.lines@, d1.clusters@) == align_lines(
                d0,
                Alignment::Justify,
                AlignmentOptions { align_when_overflowing: false, justification_mode: mode },
                true,
                d0.lines@.len() as int,
            )
            &&& d1 == (LayoutData {
                lines: d1.lines,
                clusters: d1.clusters,
                is_aligned_justified: false,
                aligned_justification_mode: None,
                ..d0
            })
        },
        None => d1 == d0,
    }
}

impl LayoutData {
    /// Aligns every line (or, with `undo`, takes back the justification
    /// that aligning with the same settings applied).
    fn align_impl(&mut self, alignment: Alignment, options: AlignmentOptions, undo: bool)
        requires
            aligned_lines_wf(*old(self)),
        ensures
            aligned_lines_wf(*final(self)),
            (final(self).lines@, final(self).clusters@) == align_lines(
                *old(self),
                alignment,
                options,
                undo,
                old(self).lines@.len() as int,
            ),
            *final(self) == (LayoutData { lines: final(self).lines, clusters: final(self).clusters, ..*old(self) }),
            final(self).lines@.len() == old(self).lines@.len(),
    {
        let ghost d0 = *self;
        let n = self.lines.len();
        let mut i: usize = 0;
        while i < n
            invariant
                n == d0.lines@.len(),
                i <= n,
                aligned_lines_wf(*self),
                self.lines@.len() == n,
                *self == (LayoutData { lines: self.lines, clusters: self.clusters, ..d0 }),
                (self.lines@, self.clusters@) == align_lines(d0, alignment, options, undo, i as int),
                forall|j: int| i <= j < n ==> #[trigger] self.lines@[j] == d0.lines@[j],
                forall|j: int| 0 <= j < n ==> (LineData { offset: 0, ..#[trigger] self.lines@[j] }) == (LineData {
                    offset: 0,
                    ..d0.lines@[j]
                }),
            decreases n - i,
        {
            let ghost before = *self;
            self.align_line(i, alignment, options, undo);
            proof {
                assert(before.lines@[i as int] == d0.lines@[i as int]);
                assert(line_alignment_width(before, i as int) == line_alignment_width(d0, i as int));
                let line = d0.lines@[i as int];
                let width = line_alignment_width(d0, i as int);
                assert(aligned_offset(before, before.clusters@, line, width, alignment, options) == aligned_offset(
                    d0,
                    before.clusters@,
                    line,
                    width,
                    alignment,
                    options,
                ));
                assert(justified_clusters(before, before.clusters@, line, width, alignment, options, undo)
                    == justified_clusters(d0, before.clusters@, line, width, alignment, options, undo));
                assert forall|j: int| 0 <= j < n implies (LineData { offset: 0, ..#[trigger] self.lines@[j] })
                    == (LineData { offset: 0, ..d0.lines@[j] }) by {
                    if j != i {
                        assert(self.lines@[j] == before.lines@[j]);
                    }
                }
            }
            i = i + 1;
        }
    }

    /// Aligns the lines within `alignment_width`, or the layout's width when
    /// absent. Justified alignment expands cluster advances; `unjustify`
    /// takes that back before the layout is broken or aligned again.
    pub fn align(&mut self, alignment_width: Option<i64>, alignment: Alignment, options: AlignmentOptions)
        requires
            aligned_lines_wf(*old(self)),
        ensures
            aligned_lines_wf(*final(self)),
            aligned_from(*old(self), *final(self), alignment_width, alignment, options),
    {
        self.alignment_width = match alignment_width {
            Some(w) => w,
            None => self.width,
        };
        self.per_line_alignment_widths = Vec::new();
        self.aligned_justification_mode = if alignment == Alignment::Justify {
            match options.justification_mode {
                JustificationMode::NoExpansion => None,
                mode => Some(mode),
            }
        } else {
            None
        };
        self.is_aligned_justified = self.aligned_justification_mode.is_some();
        self.align_impl(alignment, options, false);
    }

    /// Aligns the lines, each within its own width from `alignment_widths`;
    /// lines beyond the list use its last width, and an empty list uses the
    /// layout's width.
    pub fn align_per_line(&mut self, alignment_widths: &Vec<i64>, alignment: Alignment, options: AlignmentOptions)
        requires
            aligned_lines_wf(*old(self)),
        ensures
            aligned_lines_wf(*final(self)),
            final(self).alignment_width == if alignment_widths@.len() > 0 {
                alignment_widths@.last()
            } else {
                old(self).width
            },
            final(self).per_line_alignment_widths@ == alignment_widths@,
            final(self).aligned_justification_mode == spec_justification_applied(alignment, options),
            final(self).is_aligned_justified == spec_justification_applied(alignment, options) is Some,
            ({
                let prepared = LayoutData {
                    alignment_width: final(self).alignment_width,
                    per_line_alignment_widths: final(self).per_line_alignment_widths,
                    aligned_justification_mode: final(self).aligned_justification_mode,
                    is_aligned_justified: final(self).is_aligned_justified,
                    ..*old(self)
                };
                (final(self).lines@, final(self).clusters@) == align_lines(
                    prepared,
                    alignment,
                    options,
                    false,
                    old(self).lines@.len() as int,
                )
            }),
    {
        self.alignment_width = if alignment_widths.len() > 0 {
            alignment_widths[alignment_widths.len() - 1]
        } else {
            self.width
        };
        self.per_line_alignment_widths = alignment_widths.clone();
        self.aligned_justification_mode = if alignment == Alignment::Justify {
            match options.justification_mode {
                JustificationMode::NoExpansion => None,
                mode => Some(mode),
            }
        } else {
            None
        };
        self.is_aligned_justified = self.aligned_justification_mode.is_some();
        self.align_impl(alignment, options, false);
    }

    /// Takes back the justification that the last alignment applied to the
    /// clusters, in preparation for breaking or aligning the layout again.
    pub fn unjustify(&mut self)
        requires
            aligned_lines_wf(*old(self)),
        ensures
            aligned_lines_wf(*final(self)),
            unjustified_from(*old(self), *final(self)),
    {
        if let Some(mode) = self.aligned_justification_mode {
            self.align_impl(
                Alignment::Justify,
                AlignmentOptions { align_when_overflowing: false, justification_mode: mode },
                true,
            );
            self.is_aligned_justified = false;
            self.aligned_justification_mode = None;
        }
    }
}

} // verus!
