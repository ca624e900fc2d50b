//! Which basic blocks a control flow element holds, counted with multiplicity, and how the
//! operations on elements change them.
use vstd::prelude::*;
use vstd::multiset::Multiset;

use super::element::CFTree;
use super::selector::CFSelectorSegment;

verus! {

broadcast use vstd::multiset::group_multiset_axioms;

/// The basic blocks of each element of `list`, together.
pub open spec fn list_blocks(list: Seq<CFTree>) -> Multiset<usize>
    decreases list,
{
    if list.len() == 0 {
        Multiset::empty()
    } else {
        list_blocks(list.drop_last()).add(tree_blocks(list.last()))
    }
}

/// The basic blocks of an element, each as often as it occurs.
pub open spec fn tree_blocks(t: CFTree) -> Multiset<usize>
    decreases t,
{
    match t {
        CFTree::Block(content) => list_blocks(content),
        CFTree::Loop(content) => list_blocks(content),
        CFTree::If(condition, on_success, on_failure) => tree_blocks(*condition).add(list_blocks(on_success)).add(
            list_blocks(on_failure),
        ),
        CFTree::BasicBlock(id) => Multiset::singleton(id),
    }
}

/// The blocks of two lists joined are the blocks of each.
pub proof fn lemma_list_blocks_add(a: Seq<CFTree>, b: Seq<CFTree>)
    ensures
        list_blocks(a + b) == list_blocks(a).add(list_blocks(b)),
    decreases b.len(),
{
    if b.len() == 0 {
        assert(a + b =~= a);
        assert(list_blocks(a).add(list_blocks(b)) =~= list_blocks(a));
    } else {
        assert((a + b).drop_last() =~= a + b.drop_last());
        assert((a + b).last() == b.last());
        lemma_list_blocks_add(a, b.drop_last());
        assert(list_blocks(a + b) =~= list_blocks(a).add(list_blocks(b)));
    }
}

/// The blocks of a list with one element pushed.
pub proof fn lemma_list_blocks_push(a: Seq<CFTree>, x: CFTree)
    ensures
        list_blocks(a.push(x)) == list_blocks(a).add(tree_blocks(x)),
{
    assert(a.push(x).drop_last() =~= a);
}

/// The blocks of a list are those before position `i`, those of element `i`, and those after.
pub proof fn lemma_list_blocks_split(l: Seq<CFTree>, i: int)
    requires
        0 <= i < l.len(),
    ensures
        list_blocks(l) == list_blocks(l.take(i)).add(tree_blocks(l[i])).add(list_blocks(l.skip(i + 1))),
{
    assert(l =~= l.take(i).push(l[i]) + l.skip(i + 1));
    lemma_list_blocks_add(l.take(i).push(l[i]), l.skip(i + 1));
    lemma_list_blocks_push(l.take(i), l[i]);
}

/// Replacing element `i` of a list trades its blocks for those of the new element.
pub proof fn lemma_list_blocks_update(l: Seq<CFTree>, i: int, x: CFTree)
    requires
        0 <= i < l.len(),
    ensures
        list_blocks(l.update(i, x)).add(tree_blocks(l[i])) == list_blocks(l).add(tree_blocks(x)),
{
    let u = l.update(i, x);
    lemma_list_blocks_split(l, i);
    lemma_list_blocks_split(u, i);
    assert(u.take(i) =~= l.take(i));
    assert(u.skip(i + 1) =~= l.skip(i + 1));
    assert(list_blocks(u).add(tree_blocks(l[i])) =~= list_blocks(l).add(tree_blocks(x)));
}

/// Removing element `i` of a list removes its blocks.
pub proof fn lemma_list_blocks_remove(l: Seq<CFTree>, i: int)
    requires
        0 <= i < l.len(),
    ensures
        list_blocks(l.remove(i)).add(tree_blocks(l[i])) == list_blocks(l),
{
    let r = l.remove(i);
    lemma_list_blocks_split(l, i);
    assert(r =~= l.take(i) + l.skip(i + 1));
    lemma_list_blocks_add(l.take(i), l.skip(i + 1));
    assert(list_blocks(r).add(tree_blocks(l[i])) =~= list_blocks(l));
}

/// Replacing a child trades its blocks for those of the new child.
pub proof fn lemma_with_child_blocks(t: CFTree, segment: CFSelectorSegment, x: CFTree)
    requires
        t.child(segment) is Some,
    ensures
        tree_blocks(t.with_child(segment, x)).add(tree_blocks(t.child(segment)->0)) == tree_blocks(t).add(tree_blocks(x)),
{
    match (t, segment) {
        (CFTree::Block(content), CFSelectorSegment::ContentAtIndex(i)) => lemma_list_blocks_update(content, i as int, x),
        (CFTree::Loop(content), CFSelectorSegment::ContentAtIndex(i)) => lemma_list_blocks_update(content, i as int, x),
        (CFTree::If(c, s, f), CFSelectorSegment::IfCondition) => {
            assert(tree_blocks(t.with_child(segment, x)).add(tree_blocks(*c)) =~= tree_blocks(t).add(tree_blocks(x)));
        },
        (CFTree::If(c, s, f), CFSelectorSegment::IndexInSuccess(i)) => {
            lemma_list_blocks_update(s, i as int, x);
            let u = s.update(i as int, x);
            assert(t.with_child(segment, x) == CFTree::If(c, u, f));
            assert(tree_blocks(CFTree::If(c, u, f)) == tree_blocks(*c).add(list_blocks(u)).add(list_blocks(f)));
            assert(t.child(segment)->0 == s[i as int]);
            assert forall|v: usize| #[trigger] tree_blocks(t.with_child(segment, x)).add(tree_blocks(s[i as int])).count(v)
                == tree_blocks(t).add(tree_blocks(x)).count(v) by {
                assert(list_blocks(u).add(tree_blocks(s[i as int])).count(v) == list_blocks(s).add(tree_blocks(x)).count(v));
            }
            assert(tree_blocks(t.with_child(segment, x)).add(tree_blocks(s[i as int])) =~= tree_blocks(t).add(tree_blocks(x)));
        },
        (CFTree::If(c, s, f), CFSelectorSegment::IndexInFailure(i)) => {
            lemma_list_blocks_update(f, i as int, x);
            let u = f.update(i as int, x);
            assert(t.with_child(segment, x) == CFTree::If(c, s, u));
            assert(tree_blocks(CFTree::If(c, s, u)) == tree_blocks(*c).add(list_blocks(s)).add(list_blocks(u)));
            assert(t.child(segment)->0 == f[i as int]);
            assert forall|v: usize| #[trigger] tree_blocks(t.with_child(segment, x)).add(tree_blocks(f[i as int])).count(v)
                == tree_blocks(t).add(tree_blocks(x)).count(v) by {
                assert(list_blocks(u).add(tree_blocks(f[i as int])).count(v) == list_blocks(f).add(tree_blocks(x)).count(v));
            }
            assert(tree_blocks(t.with_child(segment, x)).add(tree_blocks(f[i as int])) =~= tree_blocks(t).add(tree_blocks(x)));
        },
        _ => {},
    }
}

/// Taking a child out of its list removes its blocks.
pub proof fn lemma_without_child_blocks(t: CFTree, segment: CFSelectorSegment)
    requires
        t.child(segment) is Some,
        segment != CFSelectorSegment::IfCondition,
    ensures
        tree_blocks(t.without_child(segment)).add(tree_blocks(t.child(segment)->0)) == tree_blocks(t),
{
    match (t, segment) {
        (CFTree::Block(content), CFSelectorSegment::ContentAtIndex(i)) => lemma_list_blocks_remove(content, i as int),
        (CFTree::Loop(content), CFSelectorSegment::ContentAtIndex(i)) => lemma_list_blocks_remove(content, i as int),
        (CFTree::If(c, s, f), CFSelectorSegment::IndexInSuccess(i)) => {
            lemma_list_blocks_remove(s, i as int);
            assert(tree_blocks(t.without_child(segment)).add(tree_blocks(s[i as int])) =~= tree_blocks(t));
        },
        (CFTree::If(c, s, f), CFSelectorSegment::IndexInFailure(i)) => {
            lemma_list_blocks_remove(f, i as int);
            assert(tree_blocks(t.without_child(segment)).add(tree_blocks(f[i as int])) =~= tree_blocks(t));
        },
        _ => {},
    }
}

/// Replacing the element at a path trades its blocks for those of the new element.
pub proof fn lemma_set_at_blocks(t: CFTree, p: Seq<CFSelectorSegment>, x: CFTree)
    requires
        t.select(p) is Some,
    ensures
        tree_blocks(t.set_at(p, x)).add(tree_blocks(t.select(p)->0)) == tree_blocks(t).add(tree_blocks(x)),
    decreases p.len(),
{
    if p.len() == 0 {
        assert(tree_blocks(t.set_at(p, x)).add(tree_blocks(t.select(p)->0)) =~= tree_blocks(t).add(tree_blocks(x)));
    } else {
        let c = t.child(p[0])->0;
        let c2 = c.set_at(p.drop_first(), x);
        lemma_set_at_blocks(c, p.drop_first(), x);
        lemma_with_child_blocks(t, p[0], c2);
        let old_sel = t.select(p)->0;
        assert(old_sel == c.select(p.drop_first())->0);
        let w = tree_blocks(t.with_child(p[0], c2));
        assert(tree_blocks(t.set_at(p, x)) == w);
        assert forall|v: usize| #[trigger] w.add(tree_blocks(old_sel)).count(v) == tree_blocks(t).add(tree_blocks(x)).count(v) by {
            assert(w.add(tree_blocks(c)).count(v) == tree_blocks(t).add(tree_blocks(c2)).count(v));
            assert(tree_blocks(c2).add(tree_blocks(old_sel)).count(v) == tree_blocks(c).add(tree_blocks(x)).count(v));
        }
        assert(w.add(tree_blocks(old_sel)) =~= tree_blocks(t).add(tree_blocks(x)));
    }
}

} // verus!
