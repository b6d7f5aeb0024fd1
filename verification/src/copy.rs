//! The copy-constraint set: an equivalence-class tracker over cell ids.
//!
//! Cells are referenced by small integer ids into a flat table; each id maps
//! to the representative of its class, so testing two cells for equivalence
//! is a single lookup and a merge relabels one class.

use vstd::prelude::*;

verus! {

/// Union-find over cell ids, in its eager, representative-array form: the
/// entry of an id is the representative of its class.
#[derive(Debug, PartialEq, Eq)]
pub struct CopyConstraintSet {
    class: Vec<usize>,
}

impl CopyConstraintSet {
    /// The number of tracked cell ids.
    pub closed spec fn len(self) -> int {
        self.class@.len() as int
    }

    /// The representative of the class of an id.
    pub closed spec fn repr(self, i: int) -> int {
        self.class@[i] as int
    }

    /// Every representative is itself a tracked id, and representing is
    /// idempotent.
    pub open spec fn wf(self) -> bool {
        forall|i: int|
            0 <= i < self.len() ==> 0 <= #[trigger] self.repr(i) < self.len() && self.repr(
                self.repr(i),
            ) == self.repr(i)
    }

    /// Two ids are constrained equal when they share a representative.
    pub open spec fn same_class(self, a: int, b: int) -> bool {
        self.repr(a) == self.repr(b)
    }

    /// A fresh tracker: every id is alone in its class.
    #[verifier::loop_isolation(false)]
    pub fn new(n: usize) -> (r: CopyConstraintSet)
        ensures
            r.wf(),
            r.len() == n,
            forall|i: int| 0 <= i < n ==> #[trigger] r.repr(i) == i,
    {
        let mut class: Vec<usize> = Vec::new();
        let mut i: usize = 0;
        while i < n
            invariant
                i <= n,
                class@.len() == i,
                forall|j: int| 0 <= j < i ==> #[trigger] class@[j] == j,
            decreases n - i,
        {
            class.push(i);
            i = i + 1;
        }
        CopyConstraintSet { class }
    }

    /// The id count is a sequence length, never negative.
    pub proof fn lemma_len_nonneg(&self)
        ensures
            self.len() >= 0,
    {
    }

    /// The number of tracked cell ids.
    pub fn size(&self) -> (n: usize)
        ensures
            n == self.len(),
    {
        self.class.len()
    }

    /// The representative of an id, for tests and reports.
    pub fn find(&self, a: usize) -> (r: usize)
        requires
            self.wf(),
            a < self.len(),
        ensures
            r == self.repr(a as int),
    {
        self.class[a]
    }

    /// Merges the classes of two ids. Afterwards two ids are equivalent
    /// exactly when they already were, or one was equivalent to `a` and the
    /// other to `b`.
    #[verifier::loop_isolation(false)]
    pub fn union(&mut self, a: usize, b: usize)
        requires
            old(self).wf(),
            a < old(self).len(),
            b < old(self).len(),
        ensures
            final(self).wf(),
            final(self).len() == old(self).len(),
            forall|x: int|
                0 <= x < old(self).len() ==> #[trigger] final(self).repr(x)
                    == if old(self).same_class(x, b as int) { old(self).repr(a as int) } else { old(self).repr(x) },
            forall|x: int, y: int|
                0 <= x < old(self).len() && 0 <= y < old(self).len()
                    ==> (#[trigger] final(self).same_class(x, y) <==> (old(self).same_class(x, y)
                        || (old(self).same_class(x, a as int) && old(self).same_class(y, b as int))
                        || (old(self).same_class(x, b as int) && old(self).same_class(y, a as int)))),
    {
        let ra = self.class[a];
        let rb = self.class[b];
        if ra == rb {
            return ;
        }
        let n = self.class.len();
        let mut i: usize = 0;
        while i < n
            invariant
                i <= n,
                self.class@.len() == n,
                forall|j: int|
                    0 <= j < i ==> #[trigger] self.class@[j] == (if old(self).repr(j)
                        == rb as int {
                        ra
                    } else {
                        old(self).class@[j]
                    }),
                forall|j: int| i <= j < n ==> #[trigger] self.class@[j] == old(self).class@[j],
            decreases n - i,
        {
            if self.class[i] == rb {
                self.class.set(i, ra);
            }
            i = i + 1;
        }
        proof {
            assert forall|x: int| 0 <= x < self.len() implies 0 <= #[trigger] self.repr(x)
                < self.len() && self.repr(self.repr(x)) == self.repr(x) by {
                assert(old(self).repr(old(self).repr(x)) == old(self).repr(x));
                assert(old(self).repr(old(self).repr(a as int)) == old(self).repr(a as int));
            }
        }
    }
}

/// The equivalence relation after one merge of the classes of `a` and `b`:
/// two ids are equivalent when they already were, or one sat with `a` and
/// the other with `b`.
pub open spec fn linked(c0: CopyConstraintSet, a: int, b: int, u: int, v: int) -> bool {
    c0.same_class(u, v) || (c0.same_class(u, a) && c0.same_class(v, b)) || (c0.same_class(u, b)
        && c0.same_class(v, a))
}

/// The equivalence relation after two merges in order: first `a` with `b`,
/// then `c` with `d`.
pub open spec fn linked2(c0: CopyConstraintSet, a: int, b: int, c: int, d: int, u: int, v: int) -> bool {
    linked(c0, a, b, u, v) || (linked(c0, a, b, u, c) && linked(c0, a, b, v, d)) || (linked(
        c0,
        a,
        b,
        u,
        d,
    ) && linked(c0, a, b, v, c))
}

/// The equivalence relation after merging each pair of `ps` in order into
/// the base relation.
pub open spec fn linked_chain(c0: CopyConstraintSet, ps: Seq<(int, int)>, u: int, v: int) -> bool
    decreases ps.len(),
{
    if ps.len() == 0 {
        c0.same_class(u, v)
    } else {
        let rest = ps.drop_last();
        let a = ps.last().0;
        let b = ps.last().1;
        linked_chain(c0, rest, u, v) || (linked_chain(c0, rest, u, a) && linked_chain(
            c0,
            rest,
            v,
            b,
        )) || (linked_chain(c0, rest, u, b) && linked_chain(c0, rest, v, a))
    }
}

/// The representative of an id after one merge of the classes of `a` and
/// `b`: ids equivalent to `b` move under `a`'s representative.
pub open spec fn repr_after(c0: CopyConstraintSet, a: int, b: int, x: int) -> int {
    if c0.same_class(x, b) {
        c0.repr(a)
    } else {
        c0.repr(x)
    }
}

/// The representative of an id after two merges in order: first `a` with
/// `b`, then `c` with `d`.
pub open spec fn repr_after2(c0: CopyConstraintSet, a: int, b: int, c: int, d: int, x: int) -> int {
    if linked(c0, a, b, x, d) {
        repr_after(c0, a, b, c)
    } else {
        repr_after(c0, a, b, x)
    }
}

/// The representative of an id after merging each pair of `ps` in order.
pub open spec fn repr_chain(c0: CopyConstraintSet, ps: Seq<(int, int)>, x: int) -> int
    decreases ps.len(),
{
    if ps.len() == 0 {
        c0.repr(x)
    } else {
        let rest = ps.drop_last();
        let a = ps.last().0;
        let b = ps.last().1;
        if linked_chain(c0, rest, x, b) {
            repr_chain(c0, rest, a)
        } else {
            repr_chain(c0, rest, x)
        }
    }
}

} // verus!
