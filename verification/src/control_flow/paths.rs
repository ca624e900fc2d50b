//! How following one path in an element relates to changing the element at another path.
use vstd::prelude::*;

use super::element::CFTree;
use super::selector::CFSelectorSegment;

verus! {

/// The two paths agree on every position that both have: one lies on the way to the other.
pub open spec fn related(p: Seq<CFSelectorSegment>, q: Seq<CFSelectorSegment>) -> bool {
    forall|j: int| 0 <= j < p.len() && j < q.len() ==> p[j] == q[j]
}

/// Following `p + r` is following `p`, then `r`.
pub proof fn lemma_select_append(t: CFTree, p: Seq<CFSelectorSegment>, r: Seq<CFSelectorSegment>)
    ensures
        t.select(p + r) == (match t.select(p) {
            Some(x) => x.select(r),
            None => None,
        }),
    decreases p.len(),
{
    if p.len() == 0 {
        assert(p + r =~= r);
    } else {
        assert((p + r).drop_first() =~= p.drop_first() + r);
        assert((p + r)[0] == p[0]);
        match t.child(p[0]) {
            Some(c) => lemma_select_append(c, p.drop_first(), r),
            None => {},
        }
    }
}

/// Paths to two different basic blocks do not lie on the way to each other.
pub proof fn lemma_leaf_paths_unrelated(t: CFTree, p: Seq<CFSelectorSegment>, q: Seq<CFSelectorSegment>, a: usize, b: usize)
    requires
        t.select(p) == Some(CFTree::BasicBlock(a)),
        t.select(q) == Some(CFTree::BasicBlock(b)),
        a != b,
    ensures
        !related(p, q),
{
    if related(p, q) {
        if p.len() <= q.len() {
            let r = q.skip(p.len() as int);
            assert(q =~= p + r);
            lemma_select_append(t, p, r);
            if r.len() > 0 {
                assert(CFTree::BasicBlock(a).child(r[0]) is None);
            }
        } else {
            let r = p.skip(q.len() as int);
            assert(p =~= q + r);
            lemma_select_append(t, q, r);
            assert(CFTree::BasicBlock(b).child(r[0]) is None);
        }
    }
}

/// Two different segments name different children: replacing one leaves the other.
pub proof fn lemma_with_child_other(t: CFTree, s1: CFSelectorSegment, s2: CFSelectorSegment, y: CFTree)
    requires
        s1 != s2,
        t.child(s1) is Some,
    ensures
        t.with_child(s1, y).child(s2) == t.child(s2),
        t.with_child(s1, y).segment_fits(s2) == t.segment_fits(s2),
{
}

/// Replacing a child keeps which kinds of children the element has.
pub proof fn lemma_with_child_fits(t: CFTree, s1: CFSelectorSegment, y: CFTree, s2: CFSelectorSegment)
    ensures
        t.with_child(s1, y).segment_fits(s2) == t.segment_fits(s2),
{
}

/// Changing the element at `p` leaves what `q` leads to, where neither path lies on the way to
/// the other.
pub proof fn lemma_set_at_unrelated(t: CFTree, p: Seq<CFSelectorSegment>, q: Seq<CFSelectorSegment>, y: CFTree)
    requires
        !related(p, q),
        t.select(p) is Some,
    ensures
        t.set_at(p, y).select(q) == t.select(q),
        t.set_at(p, y).can_select(q) == t.can_select(q),
    decreases p.len(),
{
    assert(p.len() > 0 && q.len() > 0);
    let c = t.child(p[0])->0;
    let c2 = c.set_at(p.drop_first(), y);
    assert(t.set_at(p, y) == t.with_child(p[0], c2));
    lemma_with_child_fits(t, p[0], c2, q[0]);
    if p[0] == q[0] {
        assert(!related(p.drop_first(), q.drop_first())) by {
            if related(p.drop_first(), q.drop_first()) {
                assert forall|j: int| 0 <= j < p.len() && j < q.len() implies p[j] == q[j] by {
                    if j > 0 {
                        assert(p.drop_first()[j - 1] == q.drop_first()[j - 1]);
                    }
                }
            }
        }
        lemma_set_at_unrelated(c, p.drop_first(), q.drop_first(), y);
        lemma_child_after_with_child(t, p[0], c2);
    } else {
        lemma_with_child_other(t, p[0], q[0], c2);
    }
}

/// After the child named by `segment` is replaced by `x`, that child is `x`.
pub proof fn lemma_child_after_with_child(t: CFTree, segment: CFSelectorSegment, x: CFTree)
    requires
        t.child(segment) is Some,
    ensures
        t.with_child(segment, x).child(segment) == Some(x),
{
}

/// Replacing the element at `p` keeps `p` followable, and it then leads to the new element.
pub proof fn lemma_set_at_same_path(t: CFTree, p: Seq<CFSelectorSegment>, y: CFTree)
    requires
        t.leads_somewhere(p),
    ensures
        t.set_at(p, y).leads_somewhere(p),
        t.set_at(p, y).select(p) == Some(y),
    decreases p.len(),
{
    if p.len() > 0 {
        let c = t.child(p[0])->0;
        let c2 = c.set_at(p.drop_first(), y);
        lemma_set_at_same_path(c, p.drop_first(), y);
        lemma_child_after_with_child(t, p[0], c2);
        lemma_with_child_fits(t, p[0], c2, p[0]);
    }
}

/// Changing an element below the root keeps the root a block where it was one.
pub proof fn lemma_set_at_keeps_block(t: CFTree, p: Seq<CFSelectorSegment>, y: CFTree)
    requires
        p.len() > 0,
        t is Block,
    ensures
        t.set_at(p, y) is Block,
{
}

/// Taking a child out of a block leaves a block.
pub proof fn lemma_without_child_keeps_block(t: CFTree, segment: CFSelectorSegment)
    requires
        t is Block,
    ensures
        t.without_child(segment) is Block,
{
}

} // verus!
