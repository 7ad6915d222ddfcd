use vstd::prelude::*;

use crate::units::{clamp_i64, sat_add, sat_sub};

verus! {

/// An inline owner whose start and end edges are repeated on every line
/// fragment it spans: the identities of its two edges and their advances.
#[derive(Clone, Copy, Debug, PartialEq, Eq, Structural)]
pub struct ClonedInlineOwner {
    pub start_id: u64,
    pub end_id: u64,
    pub start_width: i64,
    pub end_width: i64,
}

/// The cloned inline owners open at a point of the flow, outermost first.
#[derive(Clone, Debug)]
pub struct ClonedInlineFlow {
    owners: Vec<ClonedInlineOwner>,
}

/// The sum of the start advances of `owners` (saturating).
pub open spec fn start_advance_of(owners: Seq<ClonedInlineOwner>) -> i64
    decreases owners.len(),
{
    if owners.len() == 0 {
        0
    } else {
        clamp_i64(start_advance_of(owners.drop_last()) + owners.last().start_width)
    }
}

/// The sum of the end advances of `owners` (saturating).
pub open spec fn end_advance_of(owners: Seq<ClonedInlineOwner>) -> i64
    decreases owners.len(),
{
    if owners.len() == 0 {
        0
    } else {
        clamp_i64(end_advance_of(owners.drop_last()) + owners.last().end_width)
    }
}

/// The open owners after passing before the edge `id` of `owner`: its end
/// edge closes the innermost owner.
pub open spec fn owners_before_edge(owners: Seq<ClonedInlineOwner>, id: u64, owner: Option<ClonedInlineOwner>) -> Seq<
    ClonedInlineOwner,
> {
    match owner {
        Some(o) => if id == o.end_id { owners.drop_last() } else { owners },
        None => owners,
    }
}

/// The open owners after passing the edge `id` of `owner`: its start edge
/// opens it.
pub open spec fn owners_after_edge(owners: Seq<ClonedInlineOwner>, id: u64, owner: Option<ClonedInlineOwner>) -> Seq<
    ClonedInlineOwner,
> {
    match owner {
        Some(o) => if id == o.start_id { owners.push(o) } else { owners },
        None => owners,
    }
}

impl ClonedInlineFlow {
    /// The open owners, outermost first.
    pub closed spec fn spec_owners(&self) -> Seq<ClonedInlineOwner> {
        self.owners@
    }

    /// A flow with no open owner.
    pub fn new() -> (r: Self)
        ensures
            r.spec_owners() == Seq::<ClonedInlineOwner>::empty(),
    {
        ClonedInlineFlow { owners: Vec::new() }
    }

    /// Before the edge `id` of `owner`: the owner's end edge closes it, and
    /// owners are nested, so it is the innermost one open.
    pub fn before_edge(&mut self, id: u64, owner: Option<ClonedInlineOwner>)
        requires
            match owner {
                Some(o) => id == o.end_id ==> old(self).spec_owners().len() > 0 && old(self).spec_owners().last() == o,
                None => true,
            },
        ensures
            final(self).spec_owners() == owners_before_edge(old(self).spec_owners(), id, owner),
    {
        if let Some(o) = owner {
            if id == o.end_id {
                self.owners.pop();
            }
        }
    }

    /// After the edge `id` of `owner`: the owner's start edge opens it.
    pub fn after_edge(&mut self, id: u64, owner: Option<ClonedInlineOwner>)
        ensures
            final(self).spec_owners() == owners_after_edge(old(self).spec_owners(), id, owner),
    {
        if let Some(o) = owner {
            if id == o.start_id {
                self.owners.push(o);
            }
        }
    }

    /// The advance of the start edges repeated at the start of a fragment.
    pub fn start_advance(&self) -> (r: i64)
        ensures
            r == start_advance_of(self.spec_owners()),
    {
        let mut sum: i64 = 0;
        let mut k: usize = 0;
        while k < self.owners.len()
            invariant
                k <= self.owners@.len(),
                sum == start_advance_of(self.owners@.take(k as int)),
            decreases self.owners@.len() - k,
        {
            assert(self.owners@.take(k + 1).drop_last() =~= self.owners@.take(k as int));
            sum = sat_add(sum, self.owners[k].start_width);
            k = k + 1;
        }
        assert(self.owners@.take(self.owners@.len() as int) =~= self.owners@);
        sum
    }

    /// The advance of the end edges repeated at the end of a fragment.
    pub fn end_advance(&self) -> (r: i64)
        ensures
            r == end_advance_of(self.spec_owners()),
    {
        let mut sum: i64 = 0;
        let mut k: usize = 0;
        while k < self.owners.len()
            invariant
                k <= self.owners@.len(),
                sum == end_advance_of(self.owners@.take(k as int)),
            decreases self.owners@.len() - k,
        {
            assert(self.owners@.take(k + 1).drop_last() =~= self.owners@.take(k as int));
            sum = sat_add(sum, self.owners[k].end_width);
            k = k + 1;
        }
        assert(self.owners@.take(self.owners@.len() as int) =~= self.owners@);
        sum
    }

    /// Ends an intrinsic-size fragment: its advance, less its hanging
    /// whitespace and with the repeated end edges, may widen `maximum`; the
    /// next fragment starts with the repeated start edges.
    pub fn finish_intrinsic_fragment(&self, maximum: &mut i64, advance: &mut i64, trailing: i64)
        ensures
            ({
                let fragment = clamp_i64(clamp_i64(*old(advance) - trailing) + end_advance_of(self.spec_owners()));
                *final(maximum) == if fragment > *old(maximum) { fragment } else { *old(maximum) }
            }),
            *final(advance) == start_advance_of(self.spec_owners()),
    {
        let fragment = sat_add(sat_sub(*advance, trailing), self.end_advance());
        if fragment > *maximum {
            *maximum = fragment;
        }
        *advance = self.start_advance();
    }

    /// The identities of the start edges to repeat, outermost first.
    pub fn start_ids(&self) -> (r: Vec<u64>)
        ensures
            r@ == self.spec_owners().map_values(|o: ClonedInlineOwner| o.start_id),
    {
        let mut ids: Vec<u64> = Vec::new();
        let mut k: usize = 0;
        while k < self.owners.len()
            invariant
                k <= self.owners@.len(),
                ids@ =~= self.owners@.take(k as int).map_values(|o: ClonedInlineOwner| o.start_id),
            decreases self.owners@.len() - k,
        {
            ids.push(self.owners[k].start_id);
            k = k + 1;
        }
        assert(self.owners@.take(self.owners@.len() as int) =~= self.owners@);
        ids
    }

    /// The identities of the end edges to repeat, innermost first.
    pub fn end_ids(&self) -> (r: Vec<u64>)
        ensures
            r@ == self.spec_owners().reverse().map_values(|o: ClonedInlineOwner| o.end_id),
    {
        let mut ids: Vec<u64> = Vec::new();
        let n = self.owners.len();
        let mut k: usize = 0;
        while k < n
            invariant
                n == self.owners@.len(),
                k <= n,
                ids@ =~= self.owners@.reverse().take(k as int).map_values(|o: ClonedInlineOwner| o.end_id),
            decreases n - k,
        {
            ids.push(self.owners[n - 1 - k].end_id);
            k = k + 1;
        }
        assert(self.owners@.reverse().take(n as int) =~= self.owners@.reverse());
        ids
    }
}

/// Opening an owner at its start edge and then closing it at its end edge
/// leaves the open owners as they were, and the end edge finds the owner
/// innermost.
pub proof fn lemma_owner_edges_nest(owners: Seq<ClonedInlineOwner>, o: ClonedInlineOwner)
    requires
        o.start_id != o.end_id,
    ensures
        owners_after_edge(owners, o.start_id, Some(o)).last() == o,
        owners_before_edge(owners_after_edge(owners, o.start_id, Some(o)), o.end_id, Some(o)) == owners,
{
    assert(owners.push(o).drop_last() =~= owners);
}

} // verus!
