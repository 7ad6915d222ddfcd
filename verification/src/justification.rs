use vstd::prelude::*;

use crate::alignment::{
    align_lines, aligned_from, aligned_lines_wf, count_eligible, unjustified_from, free_space, item_cluster_order, justification_order,
    justified_clusters, justify_prefix, line_alignment_width, line_is_justified, line_opportunities,
    spec_is_justification_opportunity, spec_justification_applied, visit_order, visits_tab, Alignment, AlignmentOptions,
    JustificationMode,
};
use crate::analysis::Whitespace;
use crate::data::{line_is_rtl, spec_to_whitespace, ClusterData, LayoutData, LayoutItemKind, LineData, LineItemData};
use crate::units::clamp_i64;

verus! {

/// Two cluster sequences that differ at most in their advances.
pub open spec fn same_but_advances(a: Seq<ClusterData>, b: Seq<ClusterData>) -> bool {
    &&& a.len() == b.len()
    &&& forall|i: int|
        0 <= i < a.len() ==> (ClusterData { advance: 0, ..#[trigger] a[i] }) == (ClusterData { advance: 0, ..b[i] })
}

/// Every position of `order` names one of `n` clusters.
pub open spec fn order_in_range(order: Seq<int>, n: int) -> bool {
    forall|q: int| 0 <= q < order.len() ==> 0 <= #[trigger] order[q] < n
}

/// The text items of `items` name clusters below `n`.
pub open spec fn items_in_range(items: Seq<LineItemData>, n: int) -> bool {
    forall|j: int|
        0 <= j < items.len() && (#[trigger] items[j]).kind == LayoutItemKind::TextRun ==> items[j].cluster_end <= n
}

proof fn lemma_visit_order_in_range(items: Seq<LineItemData>, n: int)
    requires
        items_in_range(items, n),
    ensures
        order_in_range(visit_order(items), n),
    decreases items.len(),
{
    if items.len() > 0 {
        let rest = items.drop_last();
        assert forall|j: int| 0 <= j < rest.len() && (#[trigger] rest[j]).kind == LayoutItemKind::TextRun implies rest[j].cluster_end
            <= n by {
            assert(rest[j] == items[j]);
        }
        lemma_visit_order_in_range(rest, n);
        let li = items.last();
        assert(li == items[items.len() - 1]);
        if li.kind == LayoutItemKind::TextRun {
            let cl = item_cluster_order(li);
            assert(order_in_range(cl, n)) by {
                let len: nat = if li.cluster_start <= li.cluster_end {
                    (li.cluster_end - li.cluster_start) as nat
                } else {
                    0
                };
                let forward = Seq::new(len, |j: int| li.cluster_start + j);
                assert forall|q: int| 0 <= q < cl.len() implies 0 <= #[trigger] cl[q] < n by {
                    if li.bidi_level % 2 == 1 {
                        assert(cl == forward.reverse());
                        assert(cl[q] == forward[forward.len() - 1 - q]);
                    }
                }
            }
            let all = visit_order(items);
            assert(all == visit_order(rest) + cl);
            assert forall|q: int| 0 <= q < all.len() implies 0 <= #[trigger] all[q] < n by {
                if q >= visit_order(rest).len() {
                    assert(all[q] == cl[q - visit_order(rest).len()]);
                }
            }
        } else {
            assert(visit_order(items) == visit_order(rest) + Seq::<int>::empty());
            assert(visit_order(items) =~= visit_order(rest));
        }
    }
}

/// The clusters that justification visits are clusters of the line's text
/// items.
pub proof fn lemma_justification_order_in_range(items: Seq<LineItemData>, rtl: bool, n: int)
    requires
        items_in_range(items, n),
    ensures
        order_in_range(justification_order(items, rtl), n),
{
    if rtl {
        let r = items.reverse();
        assert forall|j: int| 0 <= j < r.len() && (#[trigger] r[j]).kind == LayoutItemKind::TextRun implies r[j].cluster_end
            <= n by {
            assert(r[j] == items[items.len() - 1 - j]);
        }
        lemma_visit_order_in_range(r, n);
    } else {
        lemma_visit_order_in_range(items, n);
    }
}

/// Eligibility for justification does not read advances.
pub proof fn lemma_count_eligible_ignores_advances(
    a: Seq<ClusterData>,
    b: Seq<ClusterData>,
    order: Seq<int>,
    mode: JustificationMode,
)
    requires
        same_but_advances(a, b),
        order_in_range(order, a.len() as int),
    ensures
        count_eligible(a, order, mode) == count_eligible(b, order, mode),
    decreases order.len(),
{
    if order.len() > 0 {
        let rest = order.drop_last();
        assert forall|q: int| 0 <= q < rest.len() implies 0 <= #[trigger] rest[q] < a.len() by {
            assert(rest[q] == order[q]);
        }
        lemma_count_eligible_ignores_advances(a, b, rest, mode);
        let i = order.last();
        assert(0 <= order[order.len() - 1] < a.len());
        assert((ClusterData { advance: 0, ..a[i] }) == (ClusterData { advance: 0, ..b[i] }));
        assert(a[i].info == b[i].info);
    }
}

/// Whether justification meets a tab does not read advances.
pub proof fn lemma_visits_tab_ignores_advances(a: Seq<ClusterData>, b: Seq<ClusterData>, order: Seq<int>)
    requires
        same_but_advances(a, b),
        order_in_range(order, a.len() as int),
    ensures
        visits_tab(a, order) == visits_tab(b, order),
{
    assert forall|q: int| 0 <= q < order.len() implies a[order[q]].info == b[order[q]].info by {
        let i = order[q];
        assert(0 <= i < a.len());
        assert((ClusterData { advance: 0, ..a[i] }) == (ClusterData { advance: 0, ..b[i] }));
    }
    if visits_tab(a, order) {
        let q = choose|q: int|
            0 <= q < order.len() && spec_to_whitespace((#[trigger] a[order[q]]).info.source_char) == Whitespace::Tab;
        assert(a[order[q]].info == b[order[q]].info);
        assert(spec_to_whitespace(b[order[q]].info.source_char) == Whitespace::Tab);
    }
    if visits_tab(b, order) {
        let q = choose|q: int|
            0 <= q < order.len() && spec_to_whitespace((#[trigger] b[order[q]]).info.source_char) == Whitespace::Tab;
        assert(a[order[q]].info == b[order[q]].info);
        assert(spec_to_whitespace(a[order[q]].info.source_char) == Whitespace::Tab);
    }
}

/// Whether justification expands the cluster at position `q` of `order`: it
/// is eligible, and fewer than `opportunities` eligible clusters come before
/// it.
pub open spec fn is_expanded(
    cs: Seq<ClusterData>,
    order: Seq<int>,
    mode: JustificationMode,
    opportunities: nat,
    q: int,
) -> bool {
    &&& spec_is_justification_opportunity(cs[order[q]], mode)
    &&& count_eligible(cs, order.take(q), mode) < opportunities
}

/// The change that visiting the first `k` positions of `order` makes to the
/// advance of cluster `i`: `adjustment` for each expanded position naming it.
pub open spec fn expansion_delta(
    cs: Seq<ClusterData>,
    order: Seq<int>,
    mode: JustificationMode,
    opportunities: nat,
    adjustment: i64,
    i: int,
    k: int,
) -> int
    decreases k,
{
    if k <= 0 {
        0
    } else {
        expansion_delta(cs, order, mode, opportunities, adjustment, i, k - 1) + if order[k - 1] == i
            && is_expanded(cs, order, mode, opportunities, k - 1) {
            adjustment as int
        } else {
            0
        }
    }
}

/// Visiting the first `k` positions of `order` changes only advances: each
/// cluster's advance grows by its expansion delta, as long as no advance
/// leaves the range of `i64` on the way.
pub proof fn lemma_justify_prefix(
    cs: Seq<ClusterData>,
    order: Seq<int>,
    mode: JustificationMode,
    opportunities: nat,
    adjustment: i64,
    k: int,
)
    requires
        0 <= k <= order.len(),
        order_in_range(order, cs.len() as int),
        forall|i: int, q: int|
            0 <= i < cs.len() && 0 <= q <= k ==> i64::MIN <= cs[i].advance + #[trigger] expansion_delta(
                cs,
                order,
                mode,
                opportunities,
                adjustment,
                i,
                q,
            ) <= i64::MAX,
    ensures
        same_but_advances(justify_prefix(cs, order, mode, opportunities, adjustment, k).0, cs),
        justify_prefix(cs, order, mode, opportunities, adjustment, k).1 == if count_eligible(
            cs,
            order.take(k),
            mode,
        ) < opportunities {
            count_eligible(cs, order.take(k), mode)
        } else {
            opportunities
        },
        forall|i: int|
            0 <= i < cs.len() ==> (#[trigger] justify_prefix(cs, order, mode, opportunities, adjustment, k).0[i]).advance
                == cs[i].advance + expansion_delta(cs, order, mode, opportunities, adjustment, i, k),
    decreases k,
{
    if k == 0 {
        assert(order.take(0) =~= Seq::<int>::empty());
    } else {
        lemma_justify_prefix(cs, order, mode, opportunities, adjustment, k - 1);
        let (prev, applied) = justify_prefix(cs, order, mode, opportunities, adjustment, k - 1);
        let idx = order[k - 1];
        assert(0 <= idx < cs.len());
        assert(order.take(k).drop_last() =~= order.take(k - 1));
        assert(order.take(k).last() == idx);
        assert((ClusterData { advance: 0, ..prev[idx] }) == (ClusterData { advance: 0, ..cs[idx] }));
        assert(prev[idx].info == cs[idx].info);
        let (r, applied2) = justify_prefix(cs, order, mode, opportunities, adjustment, k);
        if applied < opportunities && spec_is_justification_opportunity(prev[idx], mode) {
            assert(is_expanded(cs, order, mode, opportunities, k - 1));
            assert(expansion_delta(cs, order, mode, opportunities, adjustment, idx, k) == expansion_delta(
                cs,
                order,
                mode,
                opportunities,
                adjustment,
                idx,
                k - 1,
            ) + adjustment);
            assert(r == prev.update(idx, ClusterData { advance: clamp_i64(prev[idx].advance + adjustment), ..prev[idx] }));
            assert forall|i: int| 0 <= i < cs.len() implies (ClusterData { advance: 0, ..#[trigger] r[i] }) == (
            ClusterData { advance: 0, ..cs[i] }) by {
                if i != idx {
                    assert(r[i] == prev[i]);
                }
            }
            assert forall|i: int| 0 <= i < cs.len() implies (#[trigger] r[i]).advance == cs[i].advance
                + expansion_delta(cs, order, mode, opportunities, adjustment, i, k) by {
                if i != idx {
                    assert(r[i] == prev[i]);
                } else {
                    assert(i64::MIN <= cs[i].advance + expansion_delta(cs, order, mode, opportunities, adjustment, i, k)
                        <= i64::MAX);
                }
            }
        } else {
            assert(!is_expanded(cs, order, mode, opportunities, k - 1));
            assert forall|i: int| 0 <= i < cs.len() implies (#[trigger] r[i]).advance == cs[i].advance
                + expansion_delta(cs, order, mode, opportunities, adjustment, i, k) by {
                assert(expansion_delta(cs, order, mode, opportunities, adjustment, i, k) == expansion_delta(
                    cs,
                    order,
                    mode,
                    opportunities,
                    adjustment,
                    i,
                    k - 1,
                ));
            }
        }
    }
}


/// Expansion deltas grow with the positions visited when the adjustment is
/// not negative.
pub proof fn lemma_expansion_delta_monotone(
    cs: Seq<ClusterData>,
    order: Seq<int>,
    mode: JustificationMode,
    opportunities: nat,
    adjustment: i64,
    i: int,
    q: int,
    k: int,
)
    requires
        0 <= adjustment,
        0 <= q <= k,
    ensures
        0 <= expansion_delta(cs, order, mode, opportunities, adjustment, i, q) <= expansion_delta(
            cs,
            order,
            mode,
            opportunities,
            adjustment,
            i,
            k,
        ),
    decreases k,
{
    if k > q {
        lemma_expansion_delta_monotone(cs, order, mode, opportunities, adjustment, i, q, k - 1);
    } else if q > 0 {
        lemma_expansion_delta_monotone(cs, order, mode, opportunities, adjustment, i, q - 1, q - 1);
    }
}

/// Negating the adjustment negates the expansion delta.
pub proof fn lemma_expansion_delta_negated(
    cs: Seq<ClusterData>,
    order: Seq<int>,
    mode: JustificationMode,
    opportunities: nat,
    adjustment: i64,
    i: int,
    k: int,
)
    requires
        0 <= adjustment,
    ensures
        expansion_delta(cs, order, mode, opportunities, (-adjustment) as i64, i, k) == -expansion_delta(
            cs,
            order,
            mode,
            opportunities,
            adjustment,
            i,
            k,
        ),
    decreases k,
{
    if k > 0 {
        lemma_expansion_delta_negated(cs, order, mode, opportunities, adjustment, i, k - 1);
    }
}

/// Which positions are expanded does not depend on advances.
pub proof fn lemma_expansion_delta_ignores_advances(
    a: Seq<ClusterData>,
    b: Seq<ClusterData>,
    order: Seq<int>,
    mode: JustificationMode,
    opportunities: nat,
    adjustment: i64,
    i: int,
    k: int,
)
    requires
        same_but_advances(a, b),
        order_in_range(order, a.len() as int),
        k <= order.len(),
    ensures
        expansion_delta(a, order, mode, opportunities, adjustment, i, k) == expansion_delta(
            b,
            order,
            mode,
            opportunities,
            adjustment,
            i,
            k,
        ),
    decreases k,
{
    if k > 0 {
        lemma_expansion_delta_ignores_advances(a, b, order, mode, opportunities, adjustment, i, k - 1);
        let t = order.take(k - 1);
        assert forall|q: int| 0 <= q < t.len() implies 0 <= #[trigger] t[q] < a.len() by {
            assert(t[q] == order[q]);
        }
        lemma_count_eligible_ignores_advances(a, b, t, mode);
        let idx = order[k - 1];
        assert((ClusterData { advance: 0, ..a[idx] }) == (ClusterData { advance: 0, ..b[idx] }));
        assert(a[idx].info == b[idx].info);
    }
}


/// The clusters that justification visits on `line`.
pub open spec fn line_order(d: LayoutData, line: LineData) -> Seq<int> {
    justification_order(d.line_items@.subrange(line.item_start as int, line.item_end as int), line_is_rtl(d, line))
}

/// Whether aligning `line` within `width` justifies it.
pub open spec fn line_justifies(
    d: LayoutData,
    cs: Seq<ClusterData>,
    line: LineData,
    width: i64,
    alignment: Alignment,
    options: AlignmentOptions,
) -> bool {
    let free = free_space(width, line);
    (options.align_when_overflowing || free > 0) && line_is_justified(d, cs, line, free, alignment, options)
}

/// The share of free space that justification adds to each expanded
/// cluster of `line` (taken away, with `undo`).
pub open spec fn line_adjustment(
    d: LayoutData,
    cs: Seq<ClusterData>,
    line: LineData,
    width: i64,
    options: AlignmentOptions,
    undo: bool,
) -> i64 {
    let free = free_space(width, line);
    let opportunities = line_opportunities(d, cs, line, options.justification_mode);
    let adjustment = ((free as int) / (opportunities as int)) as i64;
    if undo {
        (-adjustment) as i64
    } else {
        adjustment
    }
}

/// The change that justifying `line` makes to the advance of cluster `i`
/// over the first `q` positions it visits.
pub open spec fn partial_line_delta(
    d: LayoutData,
    cs: Seq<ClusterData>,
    line: LineData,
    width: i64,
    alignment: Alignment,
    options: AlignmentOptions,
    undo: bool,
    i: int,
    q: int,
) -> int {
    if line_justifies(d, cs, line, width, alignment, options) {
        expansion_delta(
            cs,
            line_order(d, line),
            options.justification_mode,
            line_opportunities(d, cs, line, options.justification_mode),
            line_adjustment(d, cs, line, width, options, undo),
            i,
            q,
        )
    } else {
        0
    }
}

/// The items of `line` name clusters below `n`.
pub open spec fn line_items_in_range(d: LayoutData, line: LineData, n: int) -> bool {
    items_in_range(d.line_items@.subrange(line.item_start as int, line.item_end as int), n)
}

/// Justifying a line changes only advances, each by its line delta, as long
/// as no advance leaves the range of `i64` on the way.
pub proof fn lemma_justified_clusters(
    d: LayoutData,
    cs: Seq<ClusterData>,
    line: LineData,
    width: i64,
    alignment: Alignment,
    options: AlignmentOptions,
    undo: bool,
)
    requires
        line_items_in_range(d, line, cs.len() as int),
        forall|i: int, q: int|
            0 <= i < cs.len() && 0 <= q <= line_order(d, line).len() ==> i64::MIN <= cs[i].advance
                + #[trigger] partial_line_delta(d, cs, line, width, alignment, options, undo, i, q) <= i64::MAX,
    ensures
        same_but_advances(justified_clusters(d, cs, line, width, alignment, options, undo), cs),
        forall|i: int|
            0 <= i < cs.len() ==> (#[trigger] justified_clusters(d, cs, line, width, alignment, options, undo)[i]).advance
                == cs[i].advance + partial_line_delta(
                d,
                cs,
                line,
                width,
                alignment,
                options,
                undo,
                i,
                line_order(d, line).len() as int,
            ),
{
    let order = line_order(d, line);
    lemma_justification_order_in_range(
        d.line_items@.subrange(line.item_start as int, line.item_end as int),
        line_is_rtl(d, line),
        cs.len() as int,
    );
    if line_justifies(d, cs, line, width, alignment, options) {
        let mode = options.justification_mode;
        let opportunities = line_opportunities(d, cs, line, mode);
        let adjustment = line_adjustment(d, cs, line, width, options, undo);
        assert forall|i: int, q: int| 0 <= i < cs.len() && 0 <= q <= order.len() implies i64::MIN <= cs[i].advance
            + #[trigger] expansion_delta(cs, order, mode, opportunities, adjustment, i, q) <= i64::MAX by {
            assert(partial_line_delta(d, cs, line, width, alignment, options, undo, i, q) == expansion_delta(
                cs,
                order,
                mode,
                opportunities,
                adjustment,
                i,
                q,
            ));
        }
        lemma_justify_prefix(cs, order, mode, opportunities, adjustment, order.len() as int);
    } else {
        assert(justified_clusters(d, cs, line, width, alignment, options, undo) == cs);
    }
}

/// What justifying a line decides does not depend on advances.
pub proof fn lemma_line_delta_ignores_advances(
    d: LayoutData,
    a: Seq<ClusterData>,
    b: Seq<ClusterData>,
    line: LineData,
    width: i64,
    alignment: Alignment,
    options: AlignmentOptions,
    undo: bool,
)
    requires
        same_but_advances(a, b),
        line_items_in_range(d, line, a.len() as int),
    ensures
        line_opportunities(d, a, line, options.justification_mode) == line_opportunities(
            d,
            b,
            line,
            options.justification_mode,
        ),
        line_justifies(d, a, line, width, alignment, options) == line_justifies(d, b, line, width, alignment, options),
        forall|i: int, q: int|
            0 <= q <= line_order(d, line).len() ==> #[trigger] partial_line_delta(
                d,
                a,
                line,
                width,
                alignment,
                options,
                undo,
                i,
                q,
            ) == partial_line_delta(d, b, line, width, alignment, options, undo, i, q),
{
    let order = line_order(d, line);
    let mode = options.justification_mode;
    lemma_justification_order_in_range(
        d.line_items@.subrange(line.item_start as int, line.item_end as int),
        line_is_rtl(d, line),
        a.len() as int,
    );
    lemma_count_eligible_ignores_advances(a, b, order, mode);
    lemma_visits_tab_ignores_advances(a, b, order);
    assert forall|i: int, q: int| 0 <= q <= line_order(d, line).len() implies #[trigger] partial_line_delta(
        d,
        a,
        line,
        width,
        alignment,
        options,
        undo,
        i,
        q,
    ) == partial_line_delta(d, b, line, width, alignment, options, undo, i, q) by {
        if line_justifies(d, a, line, width, alignment, options) {
            lemma_expansion_delta_ignores_advances(
                a,
                b,
                order,
                mode,
                line_opportunities(d, a, line, mode),
                line_adjustment(d, a, line, width, options, undo),
                i,
                q,
            );
        }
    }
}


/// The lines of a well-formed layout name its clusters.
pub proof fn lemma_line_items_in_range(d: LayoutData, l: int)
    requires
        aligned_lines_wf(d),
        0 <= l < d.lines@.len(),
    ensures
        line_items_in_range(d, d.lines@[l], d.clusters@.len() as int),
{
    let line = d.lines@[l];
    assert(line.item_start <= line.item_end <= d.line_items@.len());
    let items = d.line_items@.subrange(line.item_start as int, line.item_end as int);
    assert forall|j: int| 0 <= j < items.len() && (#[trigger] items[j]).kind == LayoutItemKind::TextRun implies items[j].cluster_end
        <= d.clusters@.len() by {
        assert(items[j] == d.line_items@[line.item_start + j]);
    }
}

/// The change that justifying the first `k` lines of `d` makes to the
/// advance of cluster `i`.
pub open spec fn justification_delta(
    d: LayoutData,
    alignment: Alignment,
    options: AlignmentOptions,
    undo: bool,
    i: int,
    k: int,
) -> int
    decreases k,
{
    if k <= 0 {
        0
    } else {
        justification_delta(d, alignment, options, undo, i, k - 1) + partial_line_delta(
            d,
            d.clusters@,
            d.lines@[k - 1],
            line_alignment_width(d, k - 1),
            alignment,
            options,
            undo,
            i,
            line_order(d, d.lines@[k - 1]).len() as int,
        )
    }
}

/// No advance leaves the range of `i64` while the first `k` lines of `d`
/// are justified.
pub open spec fn justification_fits(
    d: LayoutData,
    alignment: Alignment,
    options: AlignmentOptions,
    undo: bool,
    k: int,
) -> bool {
    forall|i: int, l: int, q: int|
        0 <= i < d.clusters@.len() && 0 <= l < k && 0 <= q <= line_order(d, d.lines@[l]).len() ==> i64::MIN
            <= d.clusters@[i].advance + justification_delta(d, alignment, options, undo, i, l)
            + #[trigger] partial_line_delta(
            d,
            d.clusters@,
            d.lines@[l],
            line_alignment_width(d, l),
            alignment,
            options,
            undo,
            i,
            q,
        ) <= i64::MAX
}

/// Aligning the first `k` lines changes only advances, each by its
/// justification delta, as long as no advance leaves the range of `i64`.
pub proof fn lemma_align_lines_clusters(
    d: LayoutData,
    alignment: Alignment,
    options: AlignmentOptions,
    undo: bool,
    k: int,
)
    requires
        aligned_lines_wf(d),
        0 <= k <= d.lines@.len(),
        justification_fits(d, alignment, options, undo, k),
    ensures
        same_but_advances(align_lines(d, alignment, options, undo, k).1, d.clusters@),
        forall|i: int|
            0 <= i < d.clusters@.len() ==> (#[trigger] align_lines(d, alignment, options, undo, k).1[i]).advance
                == d.clusters@[i].advance + justification_delta(d, alignment, options, undo, i, k),
    decreases k,
{
    if k > 0 {
        lemma_align_lines_clusters(d, alignment, options, undo, k - 1);
        let cs = align_lines(d, alignment, options, undo, k - 1).1;
        let line = d.lines@[k - 1];
        let width = line_alignment_width(d, k - 1);
        lemma_line_items_in_range(d, k - 1);
        lemma_line_delta_ignores_advances(d, cs, d.clusters@, line, width, alignment, options, undo);
        assert forall|i: int, q: int| 0 <= i < cs.len() && 0 <= q <= line_order(d, line).len() implies i64::MIN
            <= cs[i].advance + #[trigger] partial_line_delta(d, cs, line, width, alignment, options, undo, i, q)
            <= i64::MAX by {
            assert(partial_line_delta(d, cs, line, width, alignment, options, undo, i, q) == partial_line_delta(
                d,
                d.clusters@,
                line,
                width,
                alignment,
                options,
                undo,
                i,
                q,
            ));
            assert(partial_line_delta(d, d.clusters@, d.lines@[k - 1], line_alignment_width(d, k - 1), alignment, options, undo, i, q)
                == partial_line_delta(d, d.clusters@, line, width, alignment, options, undo, i, q));
        }
        lemma_justified_clusters(d, cs, line, width, alignment, options, undo);
        let r = align_lines(d, alignment, options, undo, k).1;
        assert(r == justified_clusters(d, cs, line, width, alignment, options, undo));
        assert forall|i: int| 0 <= i < d.clusters@.len() implies (#[trigger] r[i]).advance == d.clusters@[i].advance
            + justification_delta(d, alignment, options, undo, i, k) by {
            let n = line_order(d, line).len() as int;
            assert(partial_line_delta(d, cs, line, width, alignment, options, undo, i, n) == partial_line_delta(
                d,
                d.clusters@,
                line,
                width,
                alignment,
                options,
                undo,
                i,
                n,
            ));
        }
        assert forall|i: int| 0 <= i < r.len() implies (ClusterData { advance: 0, ..#[trigger] r[i] }) == (
        ClusterData { advance: 0, ..d.clusters@[i] }) by {
            assert((ClusterData { advance: 0, ..r[i] }) == (ClusterData { advance: 0, ..cs[i] }));
            assert((ClusterData { advance: 0, ..cs[i] }) == (ClusterData { advance: 0, ..d.clusters@[i] }));
        }
    }
}


/// Aligning changes nothing of the lines but their offsets.
pub proof fn lemma_align_lines_lines(
    d: LayoutData,
    alignment: Alignment,
    options: AlignmentOptions,
    undo: bool,
    k: int,
)
    requires
        0 <= k <= d.lines@.len(),
    ensures
        align_lines(d, alignment, options, undo, k).0.len() == d.lines@.len(),
        forall|l: int|
            0 <= l < d.lines@.len() ==> (LineData { offset: 0, ..#[trigger] align_lines(d, alignment, options, undo, k).0[l] })
                == (LineData { offset: 0, ..d.lines@[l] }),
    decreases k,
{
    if k > 0 {
        lemma_align_lines_lines(d, alignment, options, undo, k - 1);
        let prev = align_lines(d, alignment, options, undo, k - 1).0;
        let r = align_lines(d, alignment, options, undo, k).0;
        assert forall|l: int| 0 <= l < d.lines@.len() implies (LineData { offset: 0, ..#[trigger] r[l] }) == (LineData {
            offset: 0,
            ..d.lines@[l]
        }) by {
            if l != k - 1 {
                assert(r[l] == prev[l]);
            }
        }
    }
}

/// A justified line expands: its adjustment is not negative.
proof fn lemma_line_adjustment_not_negative(
    d: LayoutData,
    cs: Seq<ClusterData>,
    line: LineData,
    width: i64,
    alignment: Alignment,
    options: AlignmentOptions,
)
    requires
        line_justifies(d, cs, line, width, alignment, options),
    ensures
        0 <= line_adjustment(d, cs, line, width, options, false),
{
    let free = free_space(width, line);
    let opportunities = line_opportunities(d, cs, line, options.justification_mode);
    assert(free > 0 && opportunities > 0);
    assert(0 <= (free as int) / (opportunities as int) <= free) by (nonlinear_arith)
        requires
            free > 0,
            opportunities > 0,
    ;
}

/// Justifying (not undoing) a line only grows advances, the more the more
/// positions it visits.
proof fn lemma_partial_line_delta_grows(
    d: LayoutData,
    alignment: Alignment,
    options: AlignmentOptions,
    i: int,
    l: int,
    q: int,
)
    requires
        0 <= l < d.lines@.len(),
        0 <= q <= line_order(d, d.lines@[l]).len(),
    ensures
        0 <= partial_line_delta(
            d,
            d.clusters@,
            d.lines@[l],
            line_alignment_width(d, l),
            alignment,
            options,
            false,
            i,
            q,
        ) <= partial_line_delta(
            d,
            d.clusters@,
            d.lines@[l],
            line_alignment_width(d, l),
            alignment,
            options,
            false,
            i,
            line_order(d, d.lines@[l]).len() as int,
        ),
{
    let line = d.lines@[l];
    let width = line_alignment_width(d, l);
    if line_justifies(d, d.clusters@, line, width, alignment, options) {
        lemma_line_adjustment_not_negative(d, d.clusters@, line, width, alignment, options);
        lemma_expansion_delta_monotone(
            d.clusters@,
            line_order(d, line),
            options.justification_mode,
            line_opportunities(d, d.clusters@, line, options.justification_mode),
            line_adjustment(d, d.clusters@, line, width, options, false),
            i,
            q,
            line_order(d, line).len() as int,
        );
    }
}

/// Justifying (not undoing) more lines only grows advances.
proof fn lemma_justification_delta_grows(
    d: LayoutData,
    alignment: Alignment,
    options: AlignmentOptions,
    i: int,
    a: int,
    b: int,
)
    requires
        0 <= a <= b <= d.lines@.len(),
    ensures
        0 <= justification_delta(d, alignment, options, false, i, a) <= justification_delta(
            d,
            alignment,
            options,
            false,
            i,
            b,
        ),
    decreases b,
{
    if b > 0 {
        lemma_partial_line_delta_grows(d, alignment, options, i, b - 1, 0);
        if a < b {
            lemma_justification_delta_grows(d, alignment, options, i, a, b - 1);
        } else {
            lemma_justification_delta_grows(d, alignment, options, i, b - 1, b - 1);
        }
    }
}


/// The options with which justification is taken back.
pub open spec fn undo_options(mode: JustificationMode) -> AlignmentOptions {
    AlignmentOptions { align_when_overflowing: false, justification_mode: mode }
}

/// Taking justification back with the settings that applied it removes,
/// line by line, exactly what it added.
proof fn lemma_undo_line_delta(
    d: LayoutData,
    d1: LayoutData,
    alignment: Alignment,
    options: AlignmentOptions,
    l: int,
    i: int,
    q: int,
)
    requires
        aligned_lines_wf(d),
        0 <= l < d.lines@.len(),
        d1 == (LayoutData { lines: d1.lines, clusters: d1.clusters, ..d }),
        d1.lines@.len() == d.lines@.len(),
        (LineData { offset: 0, ..d1.lines@[l] }) == (LineData { offset: 0, ..d.lines@[l] }),
        same_but_advances(d1.clusters@, d.clusters@),
        spec_justification_applied(alignment, options) is Some,
        0 <= q <= line_order(d, d.lines@[l]).len(),
    ensures
        line_order(d1, d1.lines@[l]) == line_order(d, d.lines@[l]),
        partial_line_delta(
            d1,
            d1.clusters@,
            d1.lines@[l],
            line_alignment_width(d1, l),
            Alignment::Justify,
            undo_options(options.justification_mode),
            true,
            i,
            q,
        ) == -partial_line_delta(
            d,
            d.clusters@,
            d.lines@[l],
            line_alignment_width(d, l),
            alignment,
            options,
            false,
            i,
            q,
        ),
{
    let line = d.lines@[l];
    let line1 = d1.lines@[l];
    let width = line_alignment_width(d, l);
    let mode = options.justification_mode;
    let options1 = undo_options(mode);
    assert(line1.item_start == line.item_start && line1.item_end == line.item_end);
    assert(line_alignment_width(d1, l) == width);
    assert(line_order(d1, line1) == line_order(d, line));
    lemma_line_items_in_range(d, l);
    lemma_line_delta_ignores_advances(d, d1.clusters@, d.clusters@, line, width, alignment, options, false);
    assert(line_opportunities(d1, d1.clusters@, line1, mode) == line_opportunities(d, d1.clusters@, line, mode));
    assert(free_space(width, line1) == free_space(width, line));
    assert(line_justifies(d1, d1.clusters@, line1, width, Alignment::Justify, options1) == line_justifies(
        d,
        d.clusters@,
        line,
        width,
        alignment,
        options,
    ));
    if line_justifies(d, d.clusters@, line, width, alignment, options) {
        let order = line_order(d, line);
        let opportunities = line_opportunities(d, d.clusters@, line, mode);
        let adjustment = line_adjustment(d, d.clusters@, line, width, options, false);
        lemma_line_adjustment_not_negative(d, d.clusters@, line, width, alignment, options);
        assert(line_adjustment(d1, d1.clusters@, line1, width, options1, true) == (-adjustment) as i64);
        lemma_justification_order_in_range(
            d.line_items@.subrange(line.item_start as int, line.item_end as int),
            line_is_rtl(d, line),
            d.clusters@.len() as int,
        );
        lemma_expansion_delta_ignores_advances(
            d1.clusters@,
            d.clusters@,
            order,
            mode,
            opportunities,
            (-adjustment) as i64,
            i,
            q,
        );
        lemma_expansion_delta_negated(d.clusters@, order, mode, opportunities, adjustment, i, q);
    }
}

/// Taking justification back removes, over every prefix of the lines,
/// exactly what justifying them added.
proof fn lemma_undo_delta(d: LayoutData, d1: LayoutData, alignment: Alignment, options: AlignmentOptions, i: int, k: int)
    requires
        aligned_lines_wf(d),
        0 <= k <= d.lines@.len(),
        d1 == (LayoutData { lines: d1.lines, clusters: d1.clusters, ..d }),
        d1.lines@.len() == d.lines@.len(),
        forall|l: int|
            0 <= l < d.lines@.len() ==> (LineData { offset: 0, ..#[trigger] d1.lines@[l] }) == (LineData {
                offset: 0,
                ..d.lines@[l]
            }),
        same_but_advances(d1.clusters@, d.clusters@),
        spec_justification_applied(alignment, options) is Some,
    ensures
        justification_delta(d1, Alignment::Justify, undo_options(options.justification_mode), true, i, k)
            == -justification_delta(d, alignment, options, false, i, k),
    decreases k,
{
    if k > 0 {
        lemma_undo_delta(d, d1, alignment, options, i, k - 1);
        assert((LineData { offset: 0, ..d1.lines@[k - 1] }) == (LineData { offset: 0, ..d.lines@[k - 1] }));
        lemma_undo_line_delta(d, d1, alignment, options, k - 1, i, line_order(d, d.lines@[k - 1]).len() as int);
    }
}

/// Taking justification back restores the clusters: after the lines of `d`
/// are aligned with justified alignment in an expanding mode, giving `d1`,
/// undoing that justification (as `unjustify` does) brings every cluster
/// back to what it was in `d`, as long as no advance leaves the range of
/// `i64`.
pub proof fn lemma_unjustify_restores_clusters(
    d: LayoutData,
    d1: LayoutData,
    alignment: Alignment,
    options: AlignmentOptions,
)
    requires
        aligned_lines_wf(d),
        spec_justification_applied(alignment, options) is Some,
        forall|i: int|
            0 <= i < d.clusters@.len() ==> d.clusters@[i].advance + #[trigger] justification_delta(
                d,
                alignment,
                options,
                false,
                i,
                d.lines@.len() as int,
            ) <= i64::MAX,
        (d1.lines@, d1.clusters@) == align_lines(d, alignment, options, false, d.lines@.len() as int),
        d1 == (LayoutData { lines: d1.lines, clusters: d1.clusters, ..d }),
    ensures
        align_lines(
            d1,
            Alignment::Justify,
            undo_options(options.justification_mode),
            true,
            d1.lines@.len() as int,
        ).1 == d.clusters@,
{
    let n = d.lines@.len() as int;
    let mode = options.justification_mode;
    assert forall|i: int, l: int, q: int|
        0 <= i < d.clusters@.len() && 0 <= l < n && 0 <= q <= line_order(d, d.lines@[l]).len() implies i64::MIN
        <= d.clusters@[i].advance + justification_delta(d, alignment, options, false, i, l)
        + #[trigger] partial_line_delta(
        d,
        d.clusters@,
        d.lines@[l],
        line_alignment_width(d, l),
        alignment,
        options,
        false,
        i,
        q,
    ) <= i64::MAX by {
        lemma_partial_line_delta_grows(d, alignment, options, i, l, q);
        lemma_justification_delta_grows(d, alignment, options, i, l, l + 1);
        lemma_justification_delta_grows(d, alignment, options, i, l + 1, n);
        lemma_justification_delta_grows(d, alignment, options, i, l, n);
    }
    lemma_align_lines_clusters(d, alignment, options, false, n);
    lemma_align_lines_lines(d, alignment, options, false, n);
    assert(aligned_lines_wf(d1)) by {
        assert forall|j: int| 0 <= j < d1.lines@.len() implies (#[trigger] d1.lines@[j]).item_start
            <= d1.lines@[j].item_end <= d1.line_items@.len() by {
            assert((LineData { offset: 0, ..d1.lines@[j] }) == (LineData { offset: 0, ..d.lines@[j] }));
        }
    }
    assert forall|i: int, l: int, q: int|
        0 <= i < d1.clusters@.len() && 0 <= l < n && 0 <= q <= line_order(d1, d1.lines@[l]).len() implies i64::MIN
        <= d1.clusters@[i].advance + justification_delta(d1, Alignment::Justify, undo_options(mode), true, i, l)
        + #[trigger] partial_line_delta(
        d1,
        d1.clusters@,
        d1.lines@[l],
        line_alignment_width(d1, l),
        Alignment::Justify,
        undo_options(mode),
        true,
        i,
        q,
    ) <= i64::MAX by {
        assert((LineData { offset: 0, ..d1.lines@[l] }) == (LineData { offset: 0, ..d.lines@[l] }));
        lemma_undo_line_delta(d, d1, alignment, options, l, i, q);
        lemma_undo_delta(d, d1, alignment, options, i, l);
        lemma_partial_line_delta_grows(d, alignment, options, i, l, q);
        lemma_justification_delta_grows(d, alignment, options, i, l, l + 1);
        lemma_justification_delta_grows(d, alignment, options, i, l + 1, n);
    }
    lemma_align_lines_clusters(d1, Alignment::Justify, undo_options(mode), true, n);
    let r = align_lines(d1, Alignment::Justify, undo_options(mode), true, n).1;
    assert forall|i: int| 0 <= i < d.clusters@.len() implies #[trigger] r[i] == d.clusters@[i] by {
        lemma_undo_delta(d, d1, alignment, options, i, n);
        assert((ClusterData { advance: 0, ..r[i] }) == (ClusterData { advance: 0, ..d1.clusters@[i] }));
        assert((ClusterData { advance: 0, ..d1.clusters@[i] }) == (ClusterData { advance: 0, ..d.clusters@[i] }));
    }
    assert(r =~= d.clusters@);
}


/// Aligning a layout with justified alignment in an expanding mode and then
/// calling `unjustify` gives back the clusters the layout had before
/// aligning, as long as no advance leaves the range of `i64`.
pub proof fn lemma_align_then_unjustify_restores_clusters(
    d0: LayoutData,
    d1: LayoutData,
    d2: LayoutData,
    alignment_width: Option<i64>,
    alignment: Alignment,
    options: AlignmentOptions,
)
    requires
        aligned_lines_wf(d0),
        spec_justification_applied(alignment, options) is Some,
        aligned_from(d0, d1, alignment_width, alignment, options),
        unjustified_from(d1, d2),
        ({
            let prepared = LayoutData {
                alignment_width: d1.alignment_width,
                per_line_alignment_widths: d1.per_line_alignment_widths,
                aligned_justification_mode: d1.aligned_justification_mode,
                is_aligned_justified: d1.is_aligned_justified,
                ..d0
            };
            forall|i: int|
                0 <= i < d0.clusters@.len() ==> d0.clusters@[i].advance + #[trigger] justification_delta(
                    prepared,
                    alignment,
                    options,
                    false,
                    i,
                    d0.lines@.len() as int,
                ) <= i64::MAX
        }),
    ensures
        d2.clusters@ == d0.clusters@,
{
    let prepared = LayoutData {
        alignment_width: d1.alignment_width,
        per_line_alignment_widths: d1.per_line_alignment_widths,
        aligned_justification_mode: d1.aligned_justification_mode,
        is_aligned_justified: d1.is_aligned_justified,
        ..d0
    };
    assert(aligned_lines_wf(prepared)) by {
        assert(prepared.line_items == d0.line_items && prepared.lines == d0.lines && prepared.clusters == d0.clusters);
    }
    assert(d1 == (LayoutData { lines: d1.lines, clusters: d1.clusters, ..prepared }));
    lemma_unjustify_restores_clusters(prepared, d1, alignment, options);
}

} // verus!
