use vstd::prelude::*;

use crate::data::{LayoutData, LayoutItemKind};
use crate::inline_box::InlineBoxBidiAttachment;
use crate::layout::Layout;
use vstd::multiset::Multiset;

verus! {

/// The sequence `s` with the elements of `[start, end)` in reverse order.
pub open spec fn reverse_range<T>(s: Seq<T>, start: int, end: int) -> Seq<T> {
    s.take(start) + s.subrange(start, end).reverse() + s.skip(end)
}

/// Reverses `indices[start..end]` in place.
fn reverse_slice_range(indices: &mut [usize], start: usize, end: usize)
    requires
        start <= end <= old(indices)@.len(),
    ensures
        final(indices)@ == reverse_range(old(indices)@, start as int, end as int),
{
    let ghost orig = indices@;
    let mut i = start;
    let mut j = end;
    while i < j && i + 1 < j
        invariant
            start <= i <= j <= end,
            end <= orig.len(),
            i - start == end - j,
            indices@.len() == orig.len(),
            forall|k: int| 0 <= k < start ==> indices@[k] == orig[k],
            forall|k: int| end <= k < orig.len() ==> indices@[k] == orig[k],
            forall|k: int| i <= k < j ==> indices@[k] == orig[k],
            forall|k: int| start <= k < i ==> indices@[k] == orig[end - 1 - (k - start)],
            forall|k: int| j <= k < end ==> indices@[k] == orig[end - 1 - (k - start)],
        decreases j - i,
    {
        let a = indices[i];
        let b = indices[j - 1];
        indices[i] = b;
        indices[j - 1] = a;
        i = i + 1;
        j = j - 1;
    }
    assert(indices@ =~= reverse_range(orig, start as int, end as int));
}


/// Reversing a range keeps the sequence's length and its multiset of elements.
pub proof fn lemma_reverse_range_permutes<T>(s: Seq<T>, start: int, end: int)
    requires
        0 <= start <= end <= s.len(),
    ensures
        reverse_range(s, start, end).len() == s.len(),
        reverse_range(s, start, end).to_multiset() =~= s.to_multiset(),
{
    let a = s.take(start);
    let b = s.subrange(start, end);
    let c = s.skip(end);
    assert(s =~= a + b + c);
    vstd::seq_lib::lemma_multiset_commutative(a + b, c);
    vstd::seq_lib::lemma_multiset_commutative(a, b);
    vstd::seq_lib::lemma_multiset_commutative(a + b.reverse(), c);
    vstd::seq_lib::lemma_multiset_commutative(a, b.reverse());
    b.lemma_reverse_to_multiset();
}

/// The level that `levels` assigns to element `x`.
pub open spec fn level_of(levels: Seq<u8>, x: usize) -> int {
    levels[x as int] as int
}

/// Every element of `s` is a valid index into `levels`.
pub open spec fn all_leveled(s: Seq<usize>, levels: Seq<u8>) -> bool {
    forall|i: int| 0 <= i < s.len() ==> (#[trigger] s[i]) < levels.len()
}

/// The first position at or after `j` whose element has a level below `k`
/// (or the length of `s`): the end of the run at level `k` or higher.
pub open spec fn run_end(s: Seq<usize>, levels: Seq<u8>, k: int, j: int) -> int
    decreases s.len() - j,
{
    if j < 0 || j >= s.len() || level_of(levels, s[j]) < k {
        j
    } else {
        run_end(s, levels, k, j + 1)
    }
}

/// A run of high-level elements ends between its start and the end.
pub proof fn lemma_run_end_bounds(s: Seq<usize>, levels: Seq<u8>, k: int, j: int)
    requires
        0 <= j <= s.len(),
    ensures
        j <= run_end(s, levels, k, j) <= s.len(),
    decreases s.len() - j,
{
    if j < s.len() && level_of(levels, s[j]) >= k {
        lemma_run_end_bounds(s, levels, k, j + 1);
    }
}

/// Reverses, from position `start` on, every maximal run of elements whose
/// level is at least `k` (one pass of rule L2 of UAX #9).
pub open spec fn reverse_runs_from(s: Seq<usize>, levels: Seq<u8>, k: int, start: int) -> Seq<usize>
    decreases s.len() - start,
{
    if start < 0 || start >= s.len() {
        s
    } else if level_of(levels, s[start]) < k {
        reverse_runs_from(s, levels, k, start + 1)
    } else {
        let end = run_end(s, levels, k, start + 1);
        proof {
            lemma_run_end_bounds(s, levels, k, start + 1);
            lemma_reverse_range_permutes(s, start, end);
        }
        reverse_runs_from(reverse_range(s, start, end), levels, k, end)
    }
}

/// Applies the passes for every level from `k` down to `low`.
pub open spec fn reverse_levels_down(s: Seq<usize>, levels: Seq<u8>, k: int, low: int) -> Seq<usize>
    decreases k - low + 1,
{
    if k < low {
        s
    } else {
        reverse_levels_down(reverse_runs_from(s, levels, k, 0), levels, k - 1, low)
    }
}

/// The highest level of the elements of `s` (0 for an empty sequence).
pub open spec fn max_level(s: Seq<usize>, levels: Seq<u8>) -> int
    decreases s.len(),
{
    if s.len() == 0 {
        0
    } else {
        let rest = max_level(s.drop_last(), levels);
        let l = level_of(levels, s.last());
        if l > rest { l } else { rest }
    }
}

/// The lowest odd level among the elements of `s`, if any element is odd.
pub open spec fn lowest_odd_level(s: Seq<usize>, levels: Seq<u8>) -> Option<int>
    decreases s.len(),
{
    if s.len() == 0 {
        None
    } else {
        let rest = lowest_odd_level(s.drop_last(), levels);
        let l = level_of(levels, s.last());
        if l % 2 == 1 {
            match rest {
                Some(r) => if r < l { Some(r) } else { Some(l) },
                None => Some(l),
            }
        } else {
            rest
        }
    }
}

/// Visual order of `s` by rule L2 of UAX #9: from the highest level down to
/// the lowest odd level, reverse every maximal run at that level or higher.
/// A sequence without an odd level keeps its order.
pub open spec fn reorder_spec(s: Seq<usize>, levels: Seq<u8>) -> Seq<usize> {
    match lowest_odd_level(s, levels) {
        None => s,
        Some(low) => reverse_levels_down(s, levels, max_level(s, levels), low),
    }
}


/// Reversing a range keeps every element within the levels table.
pub proof fn lemma_reverse_range_leveled(s: Seq<usize>, levels: Seq<u8>, start: int, end: int)
    requires
        0 <= start <= end <= s.len(),
        all_leveled(s, levels),
    ensures
        all_leveled(reverse_range(s, start, end), levels),
{
    let r = reverse_range(s, start, end);
    lemma_reverse_range_permutes(s, start, end);
    assert forall|i: int| 0 <= i < r.len() implies (#[trigger] r[i]) < levels.len() by {
        if i < start {
            assert(r[i] == s[i]);
        } else if i < end {
            assert(r[i] == s[end - 1 - (i - start)]);
        } else {
            assert(r[i] == s[i]);
        }
    }
}

/// One pass of rule L2 at level `k`: reverses every maximal run of indices
/// whose level is at least `k`.
fn reverse_runs_pass(indices: &mut [usize], levels: &[u8], k: u8)
    requires
        all_leveled(old(indices)@, levels@),
    ensures
        final(indices)@ == reverse_runs_from(old(indices)@, levels@, k as int, 0),
        final(indices)@.to_multiset() == old(indices)@.to_multiset(),
        all_leveled(final(indices)@, levels@),
{
    let ghost orig = indices@;
    let n = indices.len();
    let mut start: usize = 0;
    while start < n
        invariant
            n == indices@.len(),
            n == orig.len(),
            start <= n,
            reverse_runs_from(indices@, levels@, k as int, start as int)
                == reverse_runs_from(orig, levels@, k as int, 0),
            indices@.to_multiset() == orig.to_multiset(),
            all_leveled(indices@, levels@),
        decreases n - start,
    {
        if levels[indices[start]] < k {
            start = start + 1;
        } else {
            let mut end: usize = start + 1;
            while end < n && levels[indices[end]] >= k
                invariant
                    n == indices@.len(),
                    all_leveled(indices@, levels@),
                    start < end <= n,
                    run_end(indices@, levels@, k as int, start + 1)
                        == run_end(indices@, levels@, k as int, end as int),
                decreases n - end,
            {
                end = end + 1;
            }
            proof {
                lemma_reverse_range_permutes(indices@, start as int, end as int);
                lemma_reverse_range_leveled(indices@, levels@, start as int, end as int);
            }
            reverse_slice_range(indices, start, end);
            start = end;
        }
    }
}

/// The highest level fits in a `u8`, and the lowest odd level is odd and at
/// most the highest.
pub proof fn lemma_lowest_odd_bounds(s: Seq<usize>, levels: Seq<u8>)
    requires
        all_leveled(s, levels),
    ensures
        0 <= max_level(s, levels) <= 255,
        lowest_odd_level(s, levels) matches Some(low) ==> 1 <= low <= max_level(s, levels) && low % 2 == 1,
    decreases s.len(),
{
    if s.len() > 0 {
        lemma_lowest_odd_bounds(s.drop_last(), levels);
    }
}

/// Reorders `indices` into visual order by the levels that `levels` assigns
/// to each index (rule L2 of UAX #9): from the highest level down to the
/// lowest odd level, every maximal run at that level or higher is reversed.
pub fn reorder_by_level(indices: &mut [usize], levels: &[u8])
    requires
        all_leveled(old(indices)@, levels@),
    ensures
        final(indices)@ == reorder_spec(old(indices)@, levels@),
{
    let ghost orig = indices@;
    let n = indices.len();
    let mut max: u8 = 0;
    let mut low: u8 = 0;
    let mut has_odd = false;
    let mut i: usize = 0;
    while i < n
        invariant
            n == indices@.len(),
            indices@ == orig,
            all_leveled(orig, levels@),
            i <= n,
            max as int == max_level(orig.take(i as int), levels@),
            lowest_odd_level(orig.take(i as int), levels@) == (if has_odd { Some(low as int) } else { None::<int> }),
        decreases n - i,
    {
        assert(orig.take(i + 1).drop_last() =~= orig.take(i as int));
        let l = levels[indices[i]];
        if l > max {
            max = l;
        }
        if l % 2 == 1 && (!has_odd || l < low) {
            low = l;
            has_odd = true;
        }
        i = i + 1;
    }
    assert(orig.take(n as int) =~= orig);
    if !has_odd {
        return;
    }
    proof {
        lemma_lowest_odd_bounds(orig, levels@);
    }
    let mut level: u8 = max;
    loop
        invariant_except_break
            low <= level <= max,
            all_leveled(indices@, levels@),
            reorder_spec(orig, levels@) == reverse_levels_down(indices@, levels@, level as int, low as int),
        ensures
            indices@ == reorder_spec(orig, levels@),
        decreases level,
    {
        let ghost before = indices@;
        reverse_runs_pass(indices, levels, level);
        assert(reverse_levels_down(before, levels@, level as int, low as int)
            == reverse_levels_down(indices@, levels@, level - 1, low as int));
        if level == low {
            assert(reverse_levels_down(indices@, levels@, level - 1, low as int) == indices@);
            break;
        }
        level = level - 1;
    }
}


/// Reversing the runs at or above a level only permutes the elements.
pub proof fn lemma_reverse_runs_from_permutes(s: Seq<usize>, levels: Seq<u8>, k: int, start: int)
    requires
        0 <= start,
    ensures
        reverse_runs_from(s, levels, k, start).to_multiset() =~= s.to_multiset(),
    decreases s.len() - start,
{
    if start < s.len() {
        if level_of(levels, s[start]) < k {
            lemma_reverse_runs_from_permutes(s, levels, k, start + 1);
        } else {
            let end = run_end(s, levels, k, start + 1);
            lemma_run_end_bounds(s, levels, k, start + 1);
            lemma_reverse_range_permutes(s, start, end);
            lemma_reverse_runs_from_permutes(reverse_range(s, start, end), levels, k, end);
        }
    }
}

/// Reversing runs level by level, from the highest down, only permutes the
/// elements.
pub proof fn lemma_reverse_levels_down_permutes(s: Seq<usize>, levels: Seq<u8>, k: int, low: int)
    ensures
        reverse_levels_down(s, levels, k, low).to_multiset() =~= s.to_multiset(),
    decreases k - low + 1,
{
    if k >= low {
        lemma_reverse_runs_from_permutes(s, levels, k, 0);
        lemma_reverse_levels_down_permutes(reverse_runs_from(s, levels, k, 0), levels, k - 1, low);
    }
}

/// Visual reordering only permutes: the reordered sequence holds exactly the
/// elements of the logical sequence, each as often as before.
pub proof fn lemma_reorder_permutes(s: Seq<usize>, levels: Seq<u8>)
    ensures
        reorder_spec(s, levels).to_multiset() =~= s.to_multiset(),
        reorder_spec(s, levels).len() == s.len(),
{
    match lowest_odd_level(s, levels) {
        None => {},
        Some(low) => {
            lemma_reverse_levels_down_permutes(s, levels, max_level(s, levels), low);
        },
    }
    vstd::seq_lib::to_multiset_len(reorder_spec(s, levels));
    vstd::seq_lib::to_multiset_len(s);
}

/// `[a, b)` is a maximal run of elements of `s` whose level is at least `k`.
pub open spec fn high_run(s: Seq<usize>, levels: Seq<u8>, k: int, a: int, b: int) -> bool {
    &&& 0 <= a < b <= s.len()
    &&& a == 0 || (levels[s[a - 1] as int] as int) < k
    &&& b == s.len() || (levels[s[b] as int] as int) < k
    &&& forall|j: int| a <= j < b ==> (levels[#[trigger] s[j] as int] as int) >= k
}

/// The run that starts at `j` ends at the first element below level `k`.
proof fn lemma_run_end_props(s: Seq<usize>, levels: Seq<u8>, k: int, j: int)
    requires
        0 <= j <= s.len(),
    ensures
        j <= run_end(s, levels, k, j) <= s.len(),
        forall|i: int| j <= i < run_end(s, levels, k, j) ==> level_of(levels, #[trigger] s[i]) >= k,
        run_end(s, levels, k, j) < s.len() ==> level_of(levels, s[run_end(s, levels, k, j)]) < k,
    decreases s.len() - j,
{
    if j < s.len() && level_of(levels, s[j]) >= k {
        lemma_run_end_props(s, levels, k, j + 1);
    }
}

/// One pass at level `k` from `start` (which does not split a run) keeps
/// the elements before `start` and those below `k`, and reverses every
/// maximal run at level `k` or higher.
proof fn lemma_reverse_runs_from_positions(s: Seq<usize>, levels: Seq<u8>, k: int, start: int)
    requires
        0 <= start <= s.len(),
        start == 0 || start == s.len() || level_of(levels, s[start - 1]) < k || level_of(levels, s[start]) < k,
    ensures
        reverse_runs_from(s, levels, k, start).len() == s.len(),
        forall|i: int| 0 <= i < start ==> #[trigger] reverse_runs_from(s, levels, k, start)[i] == s[i],
        forall|i: int|
            start <= i < s.len() && level_of(levels, s[i]) < k ==> #[trigger] reverse_runs_from(s, levels, k, start)[i]
                == s[i],
        forall|a: int, b: int, i: int|
            #![trigger high_run(s, levels, k, a, b), reverse_runs_from(s, levels, k, start)[i]]
            start <= a <= i < b && high_run(s, levels, k, a, b) ==> reverse_runs_from(s, levels, k, start)[i]
                == s[a + b - 1 - i],
    decreases s.len() - start,
{
    let r = reverse_runs_from(s, levels, k, start);
    if start >= s.len() {
    } else if level_of(levels, s[start]) < k {
        lemma_reverse_runs_from_positions(s, levels, k, start + 1);
        assert forall|a: int, b: int, i: int|
            #![trigger high_run(s, levels, k, a, b), r[i]]
            start <= a <= i < b && high_run(s, levels, k, a, b) implies r[i] == s[a + b - 1 - i] by {
            if a == start {
                assert(levels[s[a] as int] as int >= k);
            }
            assert(start + 1 <= a);
            assert(high_run(s, levels, k, a, b));
        }
    } else {
        let end = run_end(s, levels, k, start + 1);
        lemma_run_end_props(s, levels, k, start + 1);
        let t = reverse_range(s, start, end);
        lemma_reverse_range_permutes(s, start, end);
        assert forall|i: int| 0 <= i < t.len() implies #[trigger] t[i] == if start <= i < end {
            s[start + end - 1 - i]
        } else {
            s[i]
        } by {}
        lemma_reverse_runs_from_positions(t, levels, k, end);
        assert(r == reverse_runs_from(t, levels, k, end));
        assert forall|i: int| 0 <= i < start implies #[trigger] r[i] == s[i] by {
            assert(r[i] == t[i]);
        }
        assert forall|i: int| start <= i < s.len() && level_of(levels, s[i]) < k implies #[trigger] r[i] == s[i] by {
            assert(i >= end);
            assert(r[i] == t[i]);
        }
        assert forall|a: int, b: int, i: int|
            #![trigger high_run(s, levels, k, a, b), r[i]]
            start <= a <= i < b && high_run(s, levels, k, a, b) implies r[i] == s[a + b - 1 - i] by {
            if a == start {
                if b < end {
                    assert(level_of(levels, s[b]) >= k);
                }
                if b > end {
                    assert(levels[s[end] as int] as int >= k);
                }
                assert(b == end);
                assert(r[i] == t[i]);
            } else {
                if a < end {
                    assert(level_of(levels, s[a - 1]) >= k);
                }
                if a == end {
                    assert(levels[s[a] as int] as int >= k);
                }
                assert(a > end);
                assert forall|j: int| a <= j < b implies (levels[#[trigger] t[j] as int] as int) >= k by {
                    assert(t[j] == s[j]);
                    assert(levels[s[j] as int] as int >= k);
                }
                assert(t[a - 1] == s[a - 1]);
                if b < s.len() {
                    assert(t[b] == s[b]);
                }
                assert(high_run(t, levels, k, a, b));
                assert(t[a + b - 1 - i] == s[a + b - 1 - i]);
            }
        }
    }
}

/// With every level at most `l`, some element at `l`: the highest level is `l`.
proof fn lemma_max_level_is(s: Seq<usize>, levels: Seq<u8>, l: int)
    requires
        forall|i: int| 0 <= i < s.len() ==> levels[#[trigger] s[i] as int] as int <= l,
        exists|i: int| 0 <= i < s.len() && levels[#[trigger] s[i] as int] as int == l,
    ensures
        max_level(s, levels) == l,
    decreases s.len(),
{
    let w = choose|i: int| 0 <= i < s.len() && levels[#[trigger] s[i] as int] as int == l;
    let p = s.drop_last();
    if w < s.len() - 1 {
        assert(p[w] == s[w]);
        assert forall|i: int| 0 <= i < p.len() implies levels[#[trigger] p[i] as int] as int <= l by {
            assert(p[i] == s[i]);
        }
        lemma_max_level_is(p, levels, l);
    } else {
        lemma_max_level_at_most(p, levels, l);
    }
}

/// With every level at most `l`, the highest level is at most `l`.
proof fn lemma_max_level_at_most(s: Seq<usize>, levels: Seq<u8>, l: int)
    requires
        l >= 0,
        forall|i: int| 0 <= i < s.len() ==> levels[#[trigger] s[i] as int] as int <= l,
    ensures
        max_level(s, levels) <= l,
    decreases s.len(),
{
    if s.len() > 0 {
        let p = s.drop_last();
        assert forall|i: int| 0 <= i < p.len() implies levels[#[trigger] p[i] as int] as int <= l by {
            assert(p[i] == s[i]);
        }
        lemma_max_level_at_most(p, levels, l);
    }
}

/// With every odd level equal to `l`: the lowest odd level is `l` when an
/// element is odd, and there is none otherwise.
proof fn lemma_lowest_odd_is(s: Seq<usize>, levels: Seq<u8>, l: int)
    requires
        forall|i: int| 0 <= i < s.len() && (levels[#[trigger] s[i] as int] as int) % 2 == 1 ==> levels[s[i] as int] as int == l,
    ensures
        (exists|i: int| 0 <= i < s.len() && (levels[#[trigger] s[i] as int] as int) % 2 == 1) ==> lowest_odd_level(s, levels) == Some(l),
        !(exists|i: int| 0 <= i < s.len() && (levels[#[trigger] s[i] as int] as int) % 2 == 1) ==> lowest_odd_level(s, levels) is None,
    decreases s.len(),
{
    if s.len() > 0 {
        let p = s.drop_last();
        assert forall|i: int| 0 <= i < p.len() && (levels[#[trigger] p[i] as int] as int) % 2 == 1 implies levels[p[i] as int] as int == l by {
            assert(p[i] == s[i]);
        }
        lemma_lowest_odd_is(p, levels, l);
        if exists|i: int| 0 <= i < s.len() && (levels[#[trigger] s[i] as int] as int) % 2 == 1 {
            let w = choose|i: int| 0 <= i < s.len() && (levels[#[trigger] s[i] as int] as int) % 2 == 1;
            if w < s.len() - 1 {
                assert(p[w] == s[w]);
            }
        } else {
            assert forall|i: int| 0 <= i < p.len() implies !((levels[#[trigger] p[i] as int] as int) % 2 == 1) by {
                assert(p[i] == s[i]);
            }
            assert(!((levels[s[s.len() - 1] as int] as int) % 2 == 1));
        }
    }
}

/// Rule L2 when the highest level `l` is odd and no other odd level
/// occurs: every element below `l` keeps its place and every maximal run
/// of elements at `l` is reversed. So a line whose elements are all at
/// one odd level is reversed, and an odd run inside an even line is
/// reversed in place.
pub proof fn lemma_reorder_top_odd_level(s: Seq<usize>, levels: Seq<u8>, l: int)
    requires
        all_leveled(s, levels),
        l % 2 == 1,
        forall|i: int| 0 <= i < s.len() ==> levels[#[trigger] s[i] as int] as int <= l,
        forall|i: int| 0 <= i < s.len() && (levels[#[trigger] s[i] as int] as int) % 2 == 1 ==> levels[s[i] as int] as int == l,
    ensures
        reorder_spec(s, levels).len() == s.len(),
        forall|i: int| 0 <= i < s.len() && (levels[s[i] as int] as int) < l ==> #[trigger] reorder_spec(s, levels)[i] == s[i],
        forall|a: int, b: int, i: int|
            #![trigger high_run(s, levels, l, a, b), reorder_spec(s, levels)[i]]
            a <= i < b && high_run(s, levels, l, a, b) ==> reorder_spec(s, levels)[i] == s[a + b - 1 - i],
{
    lemma_lowest_odd_is(s, levels, l);
    lemma_reorder_permutes(s, levels);
    if exists|i: int| 0 <= i < s.len() && (levels[#[trigger] s[i] as int] as int) % 2 == 1 {
        let w = choose|i: int| 0 <= i < s.len() && (levels[#[trigger] s[i] as int] as int) % 2 == 1;
        assert(levels[s[w] as int] as int == l);
        lemma_max_level_is(s, levels, l);
        lemma_reverse_runs_from_positions(s, levels, l, 0);
        let r1 = reverse_runs_from(s, levels, l, 0);
        assert(reverse_levels_down(r1, levels, l - 1, l) == r1);
        assert(reorder_spec(s, levels) == r1);
    } else {
        assert(reorder_spec(s, levels) == s);
        assert forall|a: int, b: int, i: int|
            #![trigger high_run(s, levels, l, a, b), reorder_spec(s, levels)[i]]
            a <= i < b && high_run(s, levels, l, a, b) implies reorder_spec(s, levels)[i] == s[a + b - 1 - i] by {
            assert(levels[s[a] as int] as int >= l);
            assert((levels[s[a] as int] as int) % 2 == 1 || levels[s[a] as int] as int != l);
        }
    }
}

/// Rule L2 on a line with two adjacent levels, an odd one `l` and the even
/// one above it, both present: the whole line is reversed, and each
/// maximal run at the even level keeps its logical order inside it. So
/// position `i` shows the element at the mirrored position `n - 1 - i`, or,
/// inside an even run, that run's element mirrored back.
pub proof fn lemma_reorder_odd_line_with_even_runs(s: Seq<usize>, levels: Seq<u8>, l: int)
    requires
        all_leveled(s, levels),
        l % 2 == 1,
        l + 1 <= 255,
        forall|i: int| 0 <= i < s.len() ==> levels[#[trigger] s[i] as int] as int == l || levels[s[i] as int] as int
            == l + 1,
        exists|i: int| 0 <= i < s.len() && levels[#[trigger] s[i] as int] as int == l,
        exists|i: int| 0 <= i < s.len() && levels[#[trigger] s[i] as int] as int == l + 1,
    ensures
        reorder_spec(s, levels).len() == s.len(),
        forall|i: int|
            0 <= i < s.len() && levels[s[s.len() - 1 - i] as int] as int == l ==> #[trigger] reorder_spec(s, levels)[i]
                == s[s.len() - 1 - i],
        forall|a: int, b: int, i: int|
            #![trigger high_run(s, levels, l + 1, a, b), reorder_spec(s, levels)[i]]
            0 <= i < s.len() && a <= s.len() - 1 - i < b && high_run(s, levels, l + 1, a, b) ==> reorder_spec(
                s,
                levels,
            )[i] == s[a + b - 1 - (s.len() - 1 - i)],
{
    let n = s.len() as int;
    assert forall|i: int| 0 <= i < s.len() && (levels[#[trigger] s[i] as int] as int) % 2 == 1 implies levels[s[i] as int] as int == l by {}
    lemma_lowest_odd_is(s, levels, l);
    let w = choose|i: int| 0 <= i < s.len() && levels[#[trigger] s[i] as int] as int == l;
    assert((levels[s[w] as int] as int) % 2 == 1);
    assert forall|i: int| 0 <= i < s.len() implies levels[#[trigger] s[i] as int] as int <= l + 1 by {}
    lemma_max_level_is(s, levels, l + 1);
    lemma_reverse_runs_from_positions(s, levels, l + 1, 0);
    let t = reverse_runs_from(s, levels, l + 1, 0);
    lemma_reverse_runs_from_permutes(s, levels, l + 1, 0);
    assert forall|j: int| 0 <= j < t.len() implies (levels[#[trigger] t[j] as int] as int) >= l by {
        vstd::seq_lib::to_multiset_contains(t, t[j]);
        vstd::seq_lib::to_multiset_contains(s, t[j]);
        assert(t.contains(t[j]));
        let k = choose|k: int| 0 <= k < s.len() && s[k] == t[j];
        assert(levels[s[k] as int] as int >= l);
    }
    lemma_reverse_runs_from_positions(t, levels, l, 0);
    let r = reverse_runs_from(t, levels, l, 0);
    assert(reverse_levels_down(r, levels, l - 1, l) == r);
    assert(reverse_levels_down(t, levels, l, l) == r);
    assert(reorder_spec(s, levels) == r);
    lemma_reorder_permutes(s, levels);
    if n > 0 {
        assert(high_run(t, levels, l, 0, n));
        assert forall|i: int| 0 <= i < n implies #[trigger] r[i] == t[n - 1 - i] by {
            assert(high_run(t, levels, l, 0, n));
        }
    }
    assert forall|a: int, b: int, i: int|
        #![trigger high_run(s, levels, l + 1, a, b), reorder_spec(s, levels)[i]]
        0 <= i < s.len() && a <= s.len() - 1 - i < b && high_run(s, levels, l + 1, a, b) implies reorder_spec(
            s,
            levels,
        )[i] == s[a + b - 1 - (s.len() - 1 - i)] by {
        assert(r[i] == t[n - 1 - i]);
        assert(high_run(s, levels, l + 1, a, b));
    }
}

/// Passes at levels `low` and above keep every element below `low` in place.
proof fn lemma_reverse_levels_down_keeps_low(s: Seq<usize>, levels: Seq<u8>, k: int, low: int)
    ensures
        reverse_levels_down(s, levels, k, low).len() == s.len(),
        forall|i: int| 0 <= i < s.len() && level_of(levels, s[i]) < low ==> #[trigger] reverse_levels_down(s, levels, k, low)[i] == s[i],
    decreases k - low + 1,
{
    if k >= low {
        lemma_reverse_runs_from_positions(s, levels, k, 0);
        let t = reverse_runs_from(s, levels, k, 0);
        lemma_reverse_levels_down_keeps_low(t, levels, k - 1, low);
        assert forall|i: int| 0 <= i < s.len() && level_of(levels, s[i]) < low implies #[trigger] reverse_levels_down(s, levels, k, low)[i] == s[i] by {
            assert(t[i] == s[i]);
        }
    }
}

/// Rule L2 never moves an element whose level is below every odd level of
/// the line: it lies in no reversed run.
pub proof fn lemma_reorder_keeps_elements_below_odd_levels(s: Seq<usize>, levels: Seq<u8>, i: int)
    requires
        0 <= i < s.len(),
        forall|j: int| 0 <= j < s.len() && (levels[#[trigger] s[j] as int] as int) % 2 == 1 ==> levels[s[i] as int] < levels[s[j] as int],
    ensures
        reorder_spec(s, levels)[i] == s[i],
{
    match lowest_odd_level(s, levels) {
        None => {},
        Some(low) => {
            lemma_lowest_odd_witness(s, levels);
            lemma_reverse_levels_down_keeps_low(s, levels, max_level(s, levels), low);
        },
    }
}

/// The lowest odd level is the level of some element.
proof fn lemma_lowest_odd_witness(s: Seq<usize>, levels: Seq<u8>)
    ensures
        lowest_odd_level(s, levels) matches Some(low) ==> exists|j: int| 0 <= j < s.len() && level_of(levels, #[trigger] s[j]) == low && low % 2 == 1,
    decreases s.len(),
{
    if s.len() > 0 {
        let p = s.drop_last();
        lemma_lowest_odd_witness(p, levels);
        if lowest_odd_level(p, levels) is Some {
            let j = choose|j: int| 0 <= j < p.len() && level_of(levels, #[trigger] p[j]) == lowest_odd_level(p, levels)->0 && lowest_odd_level(p, levels)->0 % 2 == 1;
            assert(p[j] == s[j]);
        }
        assert(s[s.len() - 1] == s.last());
    }
}

/// A line whose elements are all at one odd level is reversed.
pub proof fn lemma_reorder_uniform_odd_level_reverses(s: Seq<usize>, levels: Seq<u8>, l: int)
    requires
        all_leveled(s, levels),
        l % 2 == 1,
        forall|i: int| 0 <= i < s.len() ==> levels[#[trigger] s[i] as int] as int == l,
    ensures
        reorder_spec(s, levels) == s.reverse(),
{
    lemma_reorder_top_odd_level(s, levels, l);
    if s.len() > 0 {
        assert(high_run(s, levels, l, 0, s.len() as int));
        assert forall|i: int| 0 <= i < s.len() implies #[trigger] reorder_spec(s, levels)[i] == s.reverse()[i] by {
            assert(high_run(s, levels, l, 0, s.len() as int));
        }
    }
    assert(reorder_spec(s, levels) =~= s.reverse());
}

/// A line without an odd level keeps its logical order.
pub proof fn lemma_reorder_even_levels_keep_order(s: Seq<usize>, levels: Seq<u8>)
    requires
        forall|i: int| 0 <= i < s.len() ==> (levels[#[trigger] s[i] as int] as int) % 2 == 0,
    ensures
        reorder_spec(s, levels) == s,
{
    lemma_lowest_odd_is(s, levels, 1);
}

/// The reordering level of a group of items that reorder together: the level
/// of its last independent content item, or, while it holds only attached
/// items, the highest of their levels.
#[derive(Clone, Copy, PartialEq, Eq, Structural, Debug)]
pub enum BidiReorderUnitLevel {
    AttachedOnly(u8),
    Content(u8),
}

pub open spec fn unit_level_new(level: u8, attachment: InlineBoxBidiAttachment) -> BidiReorderUnitLevel {
    match attachment {
        InlineBoxBidiAttachment::Independent => BidiReorderUnitLevel::Content(level),
        _ => BidiReorderUnitLevel::AttachedOnly(level),
    }
}

pub open spec fn unit_level_include(
    current: BidiReorderUnitLevel,
    level: u8,
    attachment: InlineBoxBidiAttachment,
) -> BidiReorderUnitLevel {
    match (current, attachment) {
        (_, InlineBoxBidiAttachment::Independent) => BidiReorderUnitLevel::Content(level),
        (BidiReorderUnitLevel::AttachedOnly(c), _) => BidiReorderUnitLevel::AttachedOnly(
            if c >= level { c } else { level },
        ),
        (BidiReorderUnitLevel::Content(c), _) => BidiReorderUnitLevel::Content(c),
    }
}

pub open spec fn unit_level_value(u: BidiReorderUnitLevel) -> u8 {
    match u {
        BidiReorderUnitLevel::AttachedOnly(l) => l,
        BidiReorderUnitLevel::Content(l) => l,
    }
}

impl BidiReorderUnitLevel {
    pub fn new(level: u8, attachment: InlineBoxBidiAttachment) -> (r: Self)
        ensures
            r == unit_level_new(level, attachment),
    {
        match attachment {
            InlineBoxBidiAttachment::Independent => BidiReorderUnitLevel::Content(level),
            InlineBoxBidiAttachment::ToPrevious | InlineBoxBidiAttachment::ToNext => {
                BidiReorderUnitLevel::AttachedOnly(level)
            },
        }
    }

    pub fn absorb(&mut self, level: u8, attachment: InlineBoxBidiAttachment)
        ensures
            *final(self) == unit_level_include(*old(self), level, attachment),
    {
        match (*self, attachment) {
            (_, InlineBoxBidiAttachment::Independent) => *self = BidiReorderUnitLevel::Content(level),
            (BidiReorderUnitLevel::AttachedOnly(current), _) => {
                *self = BidiReorderUnitLevel::AttachedOnly(if current >= level { current } else { level });
            },
            (BidiReorderUnitLevel::Content(_), _) => {},
        }
    }

    pub fn value(self) -> (r: u8)
        ensures
            r == unit_level_value(self),
    {
        match self {
            BidiReorderUnitLevel::AttachedOnly(level) => level,
            BidiReorderUnitLevel::Content(level) => level,
        }
    }
}

/// Items that reorder as one: an attached inline box and the content it
/// attaches to.
pub struct BidiReorderUnit {
    pub indices: Vec<usize>,
    pub level: BidiReorderUnitLevel,
}

impl BidiReorderUnit {
    pub open spec fn view(&self) -> (Seq<usize>, BidiReorderUnitLevel) {
        (self.indices@, self.level)
    }

    pub fn new(index: usize, level: u8, attachment: InlineBoxBidiAttachment) -> (r: Self)
        ensures
            r.view() == (seq![index], unit_level_new(level, attachment)),
    {
        let mut indices = Vec::new();
        indices.push(index);
        BidiReorderUnit { indices, level: BidiReorderUnitLevel::new(level, attachment) }
    }

    pub fn push(&mut self, index: usize, level: u8, attachment: InlineBoxBidiAttachment)
        ensures
            final(self).view() == (old(self).view().0.push(index), unit_level_include(old(self).view().1, level, attachment)),
    {
        self.indices.push(index);
        self.level.absorb(level, attachment);
    }

    pub fn level(&self) -> (r: u8)
        ensures
            r == unit_level_value(self.view().1),
    {
        self.level.value()
    }
}

/// Whether the item at position `i` of `s` joins the unit before it: it
/// attaches to its predecessor, or its predecessor attaches to it.
pub open spec fn joins_previous(s: Seq<usize>, atts: Seq<InlineBoxBidiAttachment>, i: int) -> bool {
    atts[s[i] as int] == InlineBoxBidiAttachment::ToPrevious
        || (i > 0 && atts[s[i - 1] as int] == InlineBoxBidiAttachment::ToNext)
}

/// The reorder units of `s`, in logical order.
pub open spec fn group_units(
    s: Seq<usize>,
    levels: Seq<u8>,
    atts: Seq<InlineBoxBidiAttachment>,
) -> Seq<(Seq<usize>, BidiReorderUnitLevel)>
    decreases s.len(),
{
    if s.len() == 0 {
        seq![]
    } else {
        let prev = group_units(s.drop_last(), levels, atts);
        let i = s.len() - 1;
        let x = s[i];
        if joins_previous(s, atts, i) && prev.len() > 0 {
            let u = prev.last();
            prev.update(
                prev.len() - 1,
                (u.0.push(x), unit_level_include(u.1, levels[x as int], atts[x as int])),
            )
        } else {
            prev.push((seq![x], unit_level_new(levels[x as int], atts[x as int])))
        }
    }
}

/// The items of the units listed in `order`, concatenated.
pub open spec fn concat_units(order: Seq<usize>, units: Seq<Seq<usize>>) -> Seq<usize>
    decreases order.len(),
{
    if order.len() == 0 {
        seq![]
    } else {
        concat_units(order.drop_last(), units) + units[order.last() as int]
    }
}

/// `0, 1, ..., n - 1`.
pub open spec fn iota(n: nat) -> Seq<usize> {
    Seq::new(n, |i: int| i as usize)
}

pub open spec fn unit_items(units: Seq<(Seq<usize>, BidiReorderUnitLevel)>) -> Seq<Seq<usize>> {
    units.map_values(|u: (Seq<usize>, BidiReorderUnitLevel)| u.0)
}

pub open spec fn unit_levels(units: Seq<(Seq<usize>, BidiReorderUnitLevel)>) -> Seq<u8> {
    units.map_values(|u: (Seq<usize>, BidiReorderUnitLevel)| unit_level_value(u.1))
}

/// Visual order of `s` when attached inline boxes reorder together with the
/// content they attach to: the units are reordered by rule L2 and each unit
/// keeps its logical inner order.
pub open spec fn reorder_with_attachments_spec(
    s: Seq<usize>,
    levels: Seq<u8>,
    atts: Seq<InlineBoxBidiAttachment>,
) -> Seq<usize> {
    let units = group_units(s, levels, atts);
    concat_units(reorder_spec(iota(units.len()), unit_levels(units)), unit_items(units))
}

/// Concatenating units depends only on the units that the order names.
pub proof fn lemma_concat_units_agree(order: Seq<usize>, u1: Seq<Seq<usize>>, u2: Seq<Seq<usize>>)
    requires
        forall|i: int| 0 <= i < order.len() ==> u1[order[i] as int] == u2[order[i] as int],
    ensures
        concat_units(order, u1) == concat_units(order, u2),
    decreases order.len(),
{
    if order.len() > 0 {
        lemma_concat_units_agree(order.drop_last(), u1, u2);
    }
}

/// Concatenating the units of `s` in logical order gives back `s`.
pub proof fn lemma_group_units_concat(
    s: Seq<usize>,
    levels: Seq<u8>,
    atts: Seq<InlineBoxBidiAttachment>,
)
    requires
        s.len() <= usize::MAX,
    ensures
        concat_units(iota(group_units(s, levels, atts).len()), unit_items(group_units(s, levels, atts))) == s,
        s.len() > 0 ==> group_units(s, levels, atts).len() > 0,
        group_units(s, levels, atts).len() <= s.len(),
    decreases s.len(),
{
    if s.len() > 0 {
        let p = s.drop_last();
        lemma_group_units_concat(p, levels, atts);
        let prev = group_units(p, levels, atts);
        let cur = group_units(s, levels, atts);
        let m = prev.len();
        let i = s.len() - 1;
        let x = s[i];
        if joins_previous(s, atts, i) && m > 0 {
            assert(cur.len() == m);
            assert(iota(m).drop_last() =~= iota((m - 1) as nat));
            lemma_concat_units_agree(iota((m - 1) as nat), unit_items(cur), unit_items(prev));
            assert(iota(m).last() == (m - 1) as usize);
            assert(concat_units(iota(m), unit_items(prev))
                == concat_units(iota((m - 1) as nat), unit_items(prev)) + unit_items(prev)[m - 1]);
            assert(concat_units(iota(m), unit_items(cur))
                == concat_units(iota((m - 1) as nat), unit_items(cur)) + unit_items(cur)[m - 1]);
            assert(concat_units(iota(m), unit_items(cur))
                =~= concat_units(iota(m), unit_items(prev)).push(x));
            assert(p.push(x) =~= s);
        } else {
            assert(cur.len() == m + 1);
            assert(iota(m + 1).drop_last() =~= iota(m));
            lemma_concat_units_agree(iota(m), unit_items(cur), unit_items(prev));
            assert(iota(m + 1).last() == m as usize);
            assert(concat_units(iota(m + 1), unit_items(cur))
                == concat_units(iota(m), unit_items(cur)) + unit_items(cur)[m as int]);
            assert(concat_units(iota(m + 1), unit_items(cur))
                =~= concat_units(iota(m), unit_items(prev)).push(x));
            assert(p.push(x) =~= s);
        }
    }
}


pub open spec fn add_unit_multiset(units: Seq<Seq<usize>>) -> spec_fn(Multiset<usize>, usize) -> Multiset<usize> {
    |acc: Multiset<usize>, u: usize| acc.add(units[u as int].to_multiset())
}

/// The elements of concatenated units are the sum of the units' elements.
pub proof fn lemma_concat_units_multiset(order: Seq<usize>, units: Seq<Seq<usize>>)
    ensures
        concat_units(order, units).to_multiset() =~= order.fold_left(Multiset::empty(), add_unit_multiset(units)),
    decreases order.len(),
{
    broadcast use vstd::seq_lib::group_to_multiset_ensures;

    if order.len() > 0 {
        lemma_concat_units_multiset(order.drop_last(), units);
        vstd::seq_lib::lemma_multiset_commutative(
            concat_units(order.drop_last(), units),
            units[order.last() as int],
        );
    }
}

/// Concatenating the same units in any permuted order gives a permutation of
/// the same items.
pub proof fn lemma_concat_units_permutes(o1: Seq<usize>, o2: Seq<usize>, units: Seq<Seq<usize>>)
    requires
        o1.to_multiset() == o2.to_multiset(),
    ensures
        concat_units(o1, units).to_multiset() =~= concat_units(o2, units).to_multiset(),
        concat_units(o1, units).len() == concat_units(o2, units).len(),
{
    let f = add_unit_multiset(units);
    assert(vstd::seq_lib::commutative_foldl(f)) by {
        assert forall|x: usize, y: usize, v: Multiset<usize>| #[trigger] f(f(v, x), y) == f(f(v, y), x) by {
            assert(f(f(v, x), y) =~= f(f(v, y), x));
        }
    }
    vstd::seq_lib::lemma_fold_left_permutation(o1, o2, f, Multiset::empty());
    lemma_concat_units_multiset(o1, units);
    lemma_concat_units_multiset(o2, units);
    vstd::seq_lib::to_multiset_len(concat_units(o1, units));
    vstd::seq_lib::to_multiset_len(concat_units(o2, units));
}

/// Reordering with attachments only permutes: every item keeps its
/// multiplicity.
pub proof fn lemma_reorder_with_attachments_permutes(
    s: Seq<usize>,
    levels: Seq<u8>,
    atts: Seq<InlineBoxBidiAttachment>,
)
    requires
        s.len() <= usize::MAX,
    ensures
        reorder_with_attachments_spec(s, levels, atts).to_multiset() =~= s.to_multiset(),
        reorder_with_attachments_spec(s, levels, atts).len() == s.len(),
{
    let units = group_units(s, levels, atts);
    lemma_group_units_concat(s, levels, atts);
    lemma_reorder_permutes(iota(units.len()), unit_levels(units));
    lemma_concat_units_permutes(
        reorder_spec(iota(units.len()), unit_levels(units)),
        iota(units.len()),
        unit_items(units),
    );
}

/// Reorders `indices` into visual order, where `levels[i]` is the bidi level
/// of item `i` and `attachments[i]` says whether it moves with a neighbour.
/// Attached items form one unit with the item they attach to; units reorder
/// by rule L2 at the level of their content, and each unit keeps its logical
/// inner order.
pub fn reorder_by_level_with_attachments(
    indices: &mut [usize],
    levels: &[u8],
    attachments: &[InlineBoxBidiAttachment],
)
    requires
        all_leveled(old(indices)@, levels@),
        forall|i: int| 0 <= i < old(indices)@.len() ==> (#[trigger] old(indices)@[i]) < attachments@.len(),
    ensures
        final(indices)@ == reorder_with_attachments_spec(old(indices)@, levels@, attachments@),
{
    let ghost orig = indices@;
    let n = indices.len();
    let mut units: Vec<BidiReorderUnit> = Vec::new();
    let mut attaches_next = false;
    let mut i: usize = 0;
    while i < n
        invariant
            n == indices@.len(),
            indices@ == orig,
            all_leveled(orig, levels@),
            forall|j: int| 0 <= j < orig.len() ==> (#[trigger] orig[j]) < attachments@.len(),
            i <= n,
            units@.len() == group_units(orig.take(i as int), levels@, attachments@).len(),
            forall|j: int| 0 <= j < units@.len() ==> (#[trigger] units@[j]).view()
                == group_units(orig.take(i as int), levels@, attachments@)[j],
            attaches_next <==> (i > 0 && attachments@[orig[i - 1] as int] == InlineBoxBidiAttachment::ToNext),
        decreases n - i,
    {
        let ghost prev_units = units@;
        assert(orig.take(i + 1).drop_last() =~= orig.take(i as int));
        let index = indices[i];
        let attachment = attachments[index];
        let level = levels[index];
        if (attaches_next || attachment == InlineBoxBidiAttachment::ToPrevious) && units.len() > 0 {
            let mut unit = units.pop().unwrap();
            unit.push(index, level, attachment);
            units.push(unit);
        } else {
            units.push(BidiReorderUnit::new(index, level, attachment));
        }
        attaches_next = attachment == InlineBoxBidiAttachment::ToNext;
        i = i + 1;
    }
    assert(orig.take(n as int) =~= orig);
    let ghost g = group_units(orig, levels@, attachments@);
    proof {
        lemma_group_units_concat(orig, levels@, attachments@);
    }
    let m = units.len();
    let mut unit_levels_vec: Vec<u8> = Vec::new();
    let mut visual_units: Vec<usize> = Vec::new();
    let mut j: usize = 0;
    while j < m
        invariant
            m == units@.len(),
            m == g.len(),
            forall|k: int| 0 <= k < m ==> (#[trigger] units@[k]).view() == g[k],
            j <= m,
            unit_levels_vec@ =~= unit_levels(g).take(j as int),
            visual_units@ =~= iota(j as nat),
        decreases m - j,
    {
        unit_levels_vec.push(units[j].level());
        visual_units.push(j);
        j = j + 1;
    }
    assert(unit_levels_vec@ =~= unit_levels(g));
    reorder_by_level(visual_units.as_mut_slice(), unit_levels_vec.as_slice());
    let ghost order = visual_units@;
    proof {
        lemma_reorder_permutes(iota(m as nat), unit_levels(g));
        lemma_concat_units_permutes(order, iota(m as nat), unit_items(g));
        assert forall|q: int| 0 <= q < m implies (#[trigger] order[q]) < m by {
            broadcast use vstd::seq_lib::group_to_multiset_ensures;
            assert(order.contains(order[q]));
            assert(iota(m as nat).to_multiset().count(order[q]) > 0);
            let w = choose|w: int| 0 <= w < m && iota(m as nat)[w] == order[q];
        }
    }
    let mut reordered: Vec<usize> = Vec::new();
    let mut k: usize = 0;
    while k < m
        invariant
            m == units@.len(),
            m == g.len(),
            order.len() == m,
            visual_units@ == order,
            forall|q: int| 0 <= q < m ==> (#[trigger] units@[q]).view() == g[q],
            forall|q: int| 0 <= q < m ==> (#[trigger] order[q]) < m,
            k <= m,
            reordered@ == concat_units(order.take(k as int), unit_items(g)),
        decreases m - k,
    {
        let u = visual_units[k];
        let unit_len = units[u].indices.len();
        let mut t: usize = 0;
        let ghost base = reordered@;
        while t < unit_len
            invariant
                u < m,
                m == units@.len(),
                unit_len == units@[u as int].indices@.len(),
                t <= unit_len,
                reordered@ == base + units@[u as int].indices@.take(t as int),
            decreases unit_len - t,
        {
            reordered.push(units[u].indices[t]);
            t = t + 1;
        }
        assert(units@[u as int].indices@.take(unit_len as int) =~= units@[u as int].indices@);
        assert(order.take(k + 1).drop_last() =~= order.take(k as int));
        k = k + 1;
    }
    assert(order.take(m as int) =~= order);
    let mut q: usize = 0;
    while q < n
        invariant
            n == indices@.len(),
            reordered@.len() == n,
            q <= n,
            forall|p: int| 0 <= p < q ==> indices@[p] == reordered@[p],
        decreases n - q,
    {
        indices[q] = reordered[q];
        q = q + 1;
    }
    assert(indices@ =~= reordered@);
}


/// An exact resolved Unicode bidi level.
///
/// Values are minted by the bidi resolver; consumers compare levels and
/// inspect directionality.
#[derive(Clone, Copy, Debug, PartialEq, Eq, Structural, PartialOrd, Ord, Hash)]
pub struct BidiLevel(u8);

impl BidiLevel {
    pub closed spec fn value(self) -> u8 {
        self.0
    }

    /// The base level for a left-to-right paragraph.
    pub fn paragraph_ltr() -> (r: Self)
        ensures
            r.value() == 0,
    {
        BidiLevel(0)
    }

    /// Whether this level has right-to-left directionality (it is odd).
    pub fn is_rtl(self) -> (r: bool)
        ensures
            r <==> self.value() % 2 == 1,
    {
        let l = self.0;
        assert(l & 1 != 0 <==> l % 2 == 1) by (bit_vector);
        l & 1 != 0
    }
}

/// Stable identity of one item in the pre-line-break paragraph topology.
#[derive(Clone, Copy, Debug, PartialEq, Eq, Structural, PartialOrd, Ord, Hash)]
pub struct BidiAtomId(usize);

impl BidiAtomId {
    pub closed spec fn spec_index(self) -> usize {
        self.0
    }

    /// The stable paragraph item index.
    pub fn index(self) -> (r: usize)
        ensures
            r == self.spec_index(),
    {
        self.0
    }
}

/// Source identity owned by a visual bidi atom.
#[derive(Clone, Copy, Debug, PartialEq, Eq, Structural)]
pub enum BidiVisualAtomKind {
    /// A source text range `[start, end)`.
    Text { start: usize, end: usize },
    /// An inline box at a source boundary.
    InlineBox {
        /// Caller-supplied inline-box identity.
        id: u64,
        /// UTF-8 byte boundary at which the box participates.
        source_boundary: usize,
    },
}

/// One atom in paragraph-wide visual order before line breaking.
#[derive(Clone, Copy, Debug, PartialEq, Eq, Structural)]
pub struct BidiVisualAtom {
    id: BidiAtomId,
    level: BidiLevel,
    kind: BidiVisualAtomKind,
}

impl BidiVisualAtom {
    pub closed spec fn spec_id(self) -> BidiAtomId {
        self.id
    }

    pub closed spec fn spec_level(self) -> BidiLevel {
        self.level
    }

    pub closed spec fn spec_kind(self) -> BidiVisualAtomKind {
        self.kind
    }

    pub fn id(&self) -> (r: BidiAtomId)
        ensures
            r == self.spec_id(),
    {
        self.id
    }

    pub fn level(&self) -> (r: BidiLevel)
        ensures
            r == self.spec_level(),
    {
        self.level
    }

    pub fn kind(&self) -> (r: &BidiVisualAtomKind)
        ensures
            *r == self.spec_kind(),
    {
        &self.kind
    }
}

/// Paragraph-wide visual item topology resolved before line breaking.
#[derive(Clone, Debug, PartialEq, Eq)]
pub struct BidiTopology(Vec<BidiVisualAtom>);

impl BidiTopology {
    pub closed spec fn spec_atoms(&self) -> Seq<BidiVisualAtom> {
        self.0@
    }

    /// The atoms in visual order.
    pub fn atoms(&self) -> (r: &[BidiVisualAtom])
        ensures
            r@ == self.spec_atoms(),
    {
        self.0.as_slice()
    }
}

/// The bidi levels of the paragraph items.
pub open spec fn item_levels(d: LayoutData) -> Seq<u8> {
    d.items@.map_values(|it: crate::data::LayoutItem| it.bidi_level)
}

/// How each paragraph item attaches for reordering: text is independent,
/// an inline box attaches as it was constructed.
pub open spec fn item_attachments(d: LayoutData) -> Seq<InlineBoxBidiAttachment> {
    d.items@.map_values(|it: crate::data::LayoutItem| match it.kind {
        LayoutItemKind::TextRun => InlineBoxBidiAttachment::Independent,
        LayoutItemKind::InlineBox => d.inline_boxes@[it.index as int].spec_bidi_attachment(),
    })
}

/// The paragraph items in visual order.
pub open spec fn topology_order(d: LayoutData) -> Seq<usize> {
    reorder_with_attachments_spec(iota(d.items@.len()), item_levels(d), item_attachments(d))
}

/// The source identity of item `i`: the source text range of the text item
/// (a piece of its run where inline boxes split the run), or the identity
/// and source boundary of its inline box.
pub open spec fn item_kind(d: LayoutData, i: int) -> BidiVisualAtomKind {
    let it = d.items@[i];
    match it.kind {
        LayoutItemKind::TextRun => BidiVisualAtomKind::Text { start: it.text_start, end: it.text_end },
        LayoutItemKind::InlineBox => BidiVisualAtomKind::InlineBox {
            id: d.inline_boxes@[it.index as int].spec_id(),
            source_boundary: d.inline_boxes@[it.index as int].spec_index(),
        },
    }
}

/// Every paragraph item occurs exactly once in the visual topology.
pub proof fn lemma_topology_is_a_permutation(d: LayoutData)
    requires
        d.items@.len() <= usize::MAX,
    ensures
        topology_order(d).to_multiset() =~= iota(d.items@.len()).to_multiset(),
        topology_order(d).len() == d.items@.len(),
{
    lemma_reorder_with_attachments_permutes(iota(d.items@.len()), item_levels(d), item_attachments(d));
}

/// The topology reads only the item stream: two layouts with the same
/// items, runs and inline boxes have the same visual order, whatever their
/// committed lines.
pub proof fn lemma_topology_ignores_lines(a: LayoutData, b: LayoutData)
    requires
        a.items@ == b.items@,
        a.runs@ == b.runs@,
        a.inline_boxes@ == b.inline_boxes@,
    ensures
        topology_order(a) == topology_order(b),
        forall|i: int| 0 <= i < a.items@.len() ==> item_kind(a, i) == item_kind(b, i),
{
    assert(item_levels(a) =~= item_levels(b));
    assert(item_attachments(a) =~= item_attachments(b));
}

impl Layout {
    /// The stable infinitely-long-line visual topology: every paragraph item
    /// in visual order, with its item index as identity, its exact bidi level
    /// and its source identity. Inline boxes attached to neighbouring content
    /// reorder together with it.
    pub fn bidi_topology(&self) -> (r: BidiTopology)
        requires
            self.data.wf(),
        ensures
            r.spec_atoms().len() == topology_order(self.data).len(),
            forall|k: int| 0 <= k < r.spec_atoms().len() ==> {
                let a = #[trigger] r.spec_atoms()[k];
                let i = topology_order(self.data)[k];
                &&& a.spec_id().spec_index() == i
                &&& a.spec_level().value() == self.data.items@[i as int].bidi_level
                &&& a.spec_kind() == item_kind(self.data, i as int)
            },
    {
        let d = &self.data;
        let n = d.items.len();
        let mut visual: Vec<usize> = Vec::new();
        let mut levels: Vec<u8> = Vec::new();
        let mut atts: Vec<InlineBoxBidiAttachment> = Vec::new();
        let mut i: usize = 0;
        while i < n
            invariant
                n == d.items@.len(),
                d.wf(),
                i <= n,
                visual@ =~= iota(i as nat),
                levels@ =~= item_levels(*d).take(i as int),
                atts@ =~= item_attachments(*d).take(i as int),
            decreases n - i,
        {
            assert(d.item_wf(d.items@[i as int]));
            let item = &d.items[i];
            visual.push(i);
            levels.push(item.bidi_level);
            let a = match item.kind {
                LayoutItemKind::TextRun => InlineBoxBidiAttachment::Independent,
                LayoutItemKind::InlineBox => d.inline_boxes[item.index].bidi_attachment(),
            };
            atts.push(a);
            i = i + 1;
        }
        assert(levels@ =~= item_levels(*d));
        assert(atts@ =~= item_attachments(*d));
        reorder_by_level_with_attachments(visual.as_mut_slice(), levels.as_slice(), atts.as_slice());
        let ghost order = visual@;
        proof {
            lemma_topology_is_a_permutation(*d);
            assert forall|k: int| 0 <= k < order.len() implies (#[trigger] order[k]) < n by {
                broadcast use vstd::seq_lib::group_to_multiset_ensures;
                assert(order.contains(order[k]));
                assert(iota(n as nat).to_multiset().count(order[k]) > 0);
                let w = choose|w: int| 0 <= w < n && iota(n as nat)[w] == order[k];
            }
        }
        let mut atoms: Vec<BidiVisualAtom> = Vec::new();
        let mut k: usize = 0;
        while k < n
            invariant
                n == d.items@.len(),
                d.wf(),
                order.len() == n,
                visual@ == order,
                order == topology_order(*d),
                forall|q: int| 0 <= q < n ==> (#[trigger] order[q]) < n,
                k <= n,
                atoms@.len() == k,
                forall|q: int| 0 <= q < k ==> {
                    let a = #[trigger] atoms@[q];
                    let j = order[q];
                    &&& a.spec_id().spec_index() == j
                    &&& a.spec_level().value() == d.items@[j as int].bidi_level
                    &&& a.spec_kind() == item_kind(*d, j as int)
                },
            decreases n - k,
        {
            let index = visual[k];
            assert(d.item_wf(d.items@[index as int]));
            let item = &d.items[index];
            let kind = match item.kind {
                LayoutItemKind::TextRun => BidiVisualAtomKind::Text { start: item.text_start, end: item.text_end },
                LayoutItemKind::InlineBox => {
                    let inline_box = &d.inline_boxes[item.index];
                    BidiVisualAtomKind::InlineBox { id: inline_box.id(), source_boundary: inline_box.index() }
                },
            };
            atoms.push(BidiVisualAtom { id: BidiAtomId(index), level: BidiLevel(item.bidi_level), kind });
            k = k + 1;
        }
        BidiTopology(atoms)
    }

    /// The identity of the first paragraph item that holds the run
    /// `run_index`, if any.
    pub fn bidi_atom_id_for_run(&self, run_index: usize) -> (r: Option<BidiAtomId>)
        ensures
            match r {
                Some(id) => {
                    &&& id.spec_index() < self.data.items@.len()
                    &&& self.data.items@[id.spec_index() as int].kind == LayoutItemKind::TextRun
                    &&& self.data.items@[id.spec_index() as int].index == run_index
                    &&& forall|j: int| 0 <= j < id.spec_index() ==> !(#[trigger] self.data.items@[j].kind
                        == LayoutItemKind::TextRun && self.data.items@[j].index == run_index)
                },
                None => forall|j: int| 0 <= j < self.data.items@.len() ==> !(#[trigger] self.data.items@[j].kind
                    == LayoutItemKind::TextRun && self.data.items@[j].index == run_index),
            },
    {
        let n = self.data.items.len();
        let mut i: usize = 0;
        while i < n
            invariant
                n == self.data.items@.len(),
                i <= n,
                forall|j: int| 0 <= j < i ==> !(#[trigger] self.data.items@[j].kind == LayoutItemKind::TextRun
                    && self.data.items@[j].index == run_index),
            decreases n - i,
        {
            let item = &self.data.items[i];
            if item.kind == LayoutItemKind::TextRun && item.index == run_index {
                return Some(BidiAtomId(i));
            }
            i = i + 1;
        }
        None
    }
}

} // verus!
