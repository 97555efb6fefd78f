//! The queue of the constraints that wait for the solver.

use vstd::prelude::*;
use crate::constraint::{CategorizedConstraint, CategorizedConstraintView};

verus! {

/// The constraints that wait for the solver, the most actionable first;
/// among constraints of one category, the one that came first stays first.
pub struct ConstraintQueue {
    items: Vec<CategorizedConstraint>,
}

/// The first index at or after `i` whose constraint has a rank above `rank`;
/// the length of `q` if there is none.
pub open spec fn position(q: Seq<CategorizedConstraintView>, rank: nat, i: int) -> int
    decreases q.len() - i,
{
    if i < 0 || i >= q.len() {
        q.len() as int
    } else if q[i].category.rank() > rank {
        i
    } else {
        position(q, rank, i + 1)
    }
}

/// `q` with `c` put behind every constraint that ranks no higher than it.
pub open spec fn enqueue(
    q: Seq<CategorizedConstraintView>,
    c: CategorizedConstraintView,
) -> Seq<CategorizedConstraintView> {
    q.insert(position(q, c.category.rank(), 0), c)
}

/// Whether the ranks of `q` never fall from one constraint to the next.
pub open spec fn sorted(q: Seq<CategorizedConstraintView>) -> bool {
    forall|i: int, j: int| 0 <= i <= j < q.len() ==> q[i].category.rank() <= q[j].category.rank()
}

pub proof fn lemma_position(q: Seq<CategorizedConstraintView>, rank: nat, i: int)
    requires
        0 <= i <= q.len(),
    ensures
        i <= position(q, rank, i) <= q.len(),
        forall|k: int| i <= k < position(q, rank, i) ==> q[k].category.rank() <= rank,
        position(q, rank, i) < q.len() ==> q[position(q, rank, i)].category.rank() > rank,
    decreases q.len() - i,
{
    if i < q.len() && q[i].category.rank() <= rank {
        lemma_position(q, rank, i + 1);
    }
}

/// Putting a constraint into an ordered queue leaves the queue ordered.
pub proof fn lemma_enqueue_sorted(q: Seq<CategorizedConstraintView>, c: CategorizedConstraintView)
    requires
        sorted(q),
    ensures
        sorted(enqueue(q, c)),
{
    let r = c.category.rank();
    let p = position(q, r, 0);
    lemma_position(q, r, 0);
    let out = enqueue(q, c);
    assert forall|i: int, j: int| 0 <= i <= j < out.len() implies out[i].category.rank()
        <= out[j].category.rank() by {
        if j < p {
            assert(out[i] == q[i] && out[j] == q[j]);
        } else if j == p {
            if i < p {
                assert(out[i] == q[i]);
            }
        } else {
            assert(out[j] == q[j - 1]);
            assert(q[p].category.rank() <= q[j - 1].category.rank());
            if i < p {
                assert(out[i] == q[i]);
            } else if i > p {
                assert(out[i] == q[i - 1]);
            }
        }
    }
}

impl View for ConstraintQueue {
    type V = Seq<CategorizedConstraintView>;

    closed spec fn view(&self) -> Seq<CategorizedConstraintView> {
        self.items.deep_view()
    }
}

impl ConstraintQueue {
    pub fn new() -> (q: ConstraintQueue)
        ensures
            q@ == Seq::<CategorizedConstraintView>::empty(),
    {
        let q = ConstraintQueue { items: Vec::new() };
        assert(q.items.deep_view() =~= Seq::<CategorizedConstraintView>::empty());
        q
    }

    pub fn len(&self) -> (n: usize)
        ensures
            n == self@.len(),
    {
        self.items.len()
    }

    pub fn is_empty(&self) -> (r: bool)
        ensures
            r == (self@.len() == 0),
    {
        self.items.len() == 0
    }

    /// Puts `c` behind every waiting constraint that ranks no higher than it.
    pub fn push(&mut self, c: CategorizedConstraint)
        ensures
            final(self)@ == enqueue(old(self)@, c@),
            sorted(old(self)@) ==> sorted(final(self)@),
    {
        let rank = c.category.priority();
        let ghost before = self.items.deep_view();
        let mut i: usize = 0;
        while i < self.items.len() && self.items[i].category.priority() <= rank
            invariant
                i <= self.items.len(),
                before == self.items.deep_view(),
                position(before, rank as nat, 0) == position(before, rank as nat, i as int),
            decreases self.items.len() - i,
        {
            i += 1;
        }
        assert(position(before, rank as nat, i as int) == i);
        self.items.insert(i, c);
        assert(self.items.deep_view() =~= before.insert(i as int, c@));
        proof {
            if sorted(before) {
                lemma_enqueue_sorted(before, c@);
            }
        }
    }

    /// Takes the first constraint out of the queue: one of the lowest rank, if the queue is ordered.
    pub fn pop(&mut self) -> (r: Option<CategorizedConstraint>)
        ensures
            old(self)@.len() == 0 ==> r is None && final(self)@ == old(self)@,
            old(self)@.len() > 0 ==> r is Some && r->0@ == old(self)@[0] && final(self)@ == old(
                self,
            )@.drop_first(),
            sorted(old(self)@) ==> sorted(final(self)@),
            sorted(old(self)@) && r is Some ==> forall|k: int|
                0 <= k < final(self)@.len() ==> r->0@.category.rank()
                    <= (#[trigger] final(self)@[k]).category.rank(),
    {
        if self.items.len() == 0 {
            None
        } else {
            let ghost before = self.items.deep_view();
            let c = self.items.remove(0);
            assert(self.items.deep_view() =~= before.drop_first());
            assert(c@ == before[0]);
            proof {
                if sorted(before) {
                    let after = before.drop_first();
                    assert forall|i: int, j: int| 0 <= i <= j < after.len() implies after[i].category.rank()
                        <= after[j].category.rank() by {
                        assert(after[i] == before[i + 1] && after[j] == before[j + 1]);
                    }
                    assert forall|k: int| 0 <= k < after.len() implies before[0].category.rank() <= (
                    #[trigger] after[k]).category.rank() by {
                        assert(after[k] == before[k + 1]);
                    }
                }
            }
            Some(c)
        }
    }
}

} // verus!
