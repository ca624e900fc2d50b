//! Facts about the shape of elements that hold along every path: blocks and loops are not
//! empty, lists fit in `usize`, and what a path leads to holds no block its root lacks.
use vstd::prelude::*;

use super::blocks::{list_blocks, tree_blocks, lemma_list_blocks_split};
use super::element::{CFTree, all_fit, lemma_all_fit};
use super::selector::CFSelectorSegment;

verus! {

broadcast use vstd::multiset::group_multiset_axioms;

/// Every element of `list` has no empty block or loop.
pub open spec fn list_nonempty_lists(list: Seq<CFTree>) -> bool
    decreases list,
{
    list.len() == 0 || (list_nonempty_lists(list.drop_last()) && list.last().nonempty_lists())
}

impl CFTree {
    /// No block or loop in this element is empty.
    pub open spec fn nonempty_lists(self) -> bool
        decreases self,
    {
        match self {
            CFTree::Block(content) => content.len() > 0 && list_nonempty_lists(content),
            CFTree::Loop(content) => content.len() > 0 && list_nonempty_lists(content),
            CFTree::If(condition, on_success, on_failure) => condition.nonempty_lists()
                && list_nonempty_lists(on_success) && list_nonempty_lists(on_failure),
            CFTree::BasicBlock(_) => true,
        }
    }
}

/// `list_nonempty_lists` checks every element.
pub proof fn lemma_list_nonempty_lists(list: Seq<CFTree>)
    ensures
        list_nonempty_lists(list) <==> forall|i: int| 0 <= i < list.len() ==> #[trigger] list[i].nonempty_lists(),
    decreases list.len(),
{
    if list.len() > 0 {
        let d = list.drop_last();
        lemma_list_nonempty_lists(d);
        assert forall|i: int| 0 <= i < list.len() - 1 implies d[i] == list[i] by {}
        if list_nonempty_lists(list) {
            assert forall|i: int| 0 <= i < list.len() implies #[trigger] list[i].nonempty_lists() by {
                if i < list.len() - 1 {
                    assert(d[i].nonempty_lists());
                }
            }
        }
        if forall|i: int| 0 <= i < list.len() ==> #[trigger] list[i].nonempty_lists() {
            assert(list[list.len() - 1].nonempty_lists());
            assert forall|i: int| 0 <= i < d.len() implies #[trigger] d[i].nonempty_lists() by {
                assert(list[i].nonempty_lists());
            }
        }
    }
}

/// An element with no empty block or loop has a first basic block.
pub proof fn lemma_nonempty_lists_has_first(t: CFTree)
    requires
        t.nonempty_lists(),
    ensures
        t.has_first(),
        tree_blocks(t).count(t.first_id()) > 0,
    decreases t,
{
    match t {
        CFTree::Block(content) => {
            lemma_list_nonempty_lists(content);
            lemma_nonempty_lists_has_first(content[0]);
            lemma_list_blocks_split(content, 0);
        },
        CFTree::Loop(content) => {
            lemma_list_nonempty_lists(content);
            lemma_nonempty_lists_has_first(content[0]);
            lemma_list_blocks_split(content, 0);
        },
        CFTree::If(condition, _, _) => {
            lemma_nonempty_lists_has_first(*condition);
        },
        CFTree::BasicBlock(_) => {},
    }
}

/// A child holds no block its parent lacks, and keeps the shape facts of its parent.
pub proof fn lemma_child_shape(t: CFTree, segment: CFSelectorSegment)
    requires
        t.child(segment) is Some,
    ensures
        forall|v: usize| tree_blocks(t.child(segment)->0).count(v) <= #[trigger] tree_blocks(t).count(v),
        t.nonempty_lists() ==> t.child(segment)->0.nonempty_lists(),
        t.fits_usize() ==> t.child(segment)->0.fits_usize(),
{
    match (t, segment) {
        (CFTree::Block(content), CFSelectorSegment::ContentAtIndex(i)) => {
            lemma_list_child_shape(content, i as int);
            assert(tree_blocks(t) == list_blocks(content));
            assert forall|v: usize| tree_blocks(t.child(segment)->0).count(v) <= #[trigger] tree_blocks(t).count(v) by {
                assert(tree_blocks(content[i as int]).count(v) <= list_blocks(content).count(v));
            }
        },
        (CFTree::Loop(content), CFSelectorSegment::ContentAtIndex(i)) => {
            lemma_list_child_shape(content, i as int);
            assert(tree_blocks(t) == list_blocks(content));
            assert forall|v: usize| tree_blocks(t.child(segment)->0).count(v) <= #[trigger] tree_blocks(t).count(v) by {
                assert(tree_blocks(content[i as int]).count(v) <= list_blocks(content).count(v));
            }
        },
        (CFTree::If(c, s, f), CFSelectorSegment::IndexInSuccess(i)) => {
            lemma_list_child_shape(s, i as int);
            assert forall|v: usize| tree_blocks(t.child(segment)->0).count(v) <= #[trigger] tree_blocks(t).count(v) by {
                assert(tree_blocks(t).count(v) == tree_blocks(*c).count(v) + list_blocks(s).count(v) + list_blocks(f).count(v));
            }
        },
        (CFTree::If(c, s, f), CFSelectorSegment::IndexInFailure(i)) => {
            lemma_list_child_shape(f, i as int);
            assert forall|v: usize| tree_blocks(t.child(segment)->0).count(v) <= #[trigger] tree_blocks(t).count(v) by {
                assert(tree_blocks(t).count(v) == tree_blocks(*c).count(v) + list_blocks(s).count(v) + list_blocks(f).count(v));
            }
        },
        (CFTree::If(c, s, f), CFSelectorSegment::IfCondition) => {
            assert forall|v: usize| tree_blocks(t.child(segment)->0).count(v) <= #[trigger] tree_blocks(t).count(v) by {
                assert(tree_blocks(t).count(v) == tree_blocks(*c).count(v) + list_blocks(s).count(v) + list_blocks(f).count(v));
            }
        },
        _ => {},
    }
}

/// An element of a list holds no block the list lacks, and keeps the shape facts of the list.
proof fn lemma_list_child_shape(list: Seq<CFTree>, i: int)
    requires
        0 <= i < list.len(),
    ensures
        forall|v: usize| tree_blocks(list[i]).count(v) <= #[trigger] list_blocks(list).count(v),
        list_nonempty_lists(list) ==> list[i].nonempty_lists(),
        all_fit(list) ==> list[i].fits_usize(),
{
    lemma_list_blocks_split(list, i);
    lemma_list_nonempty_lists(list);
    lemma_all_fit(list);
}

/// What a path leads to holds no block the root lacks, and keeps the shape facts of the root.
pub proof fn lemma_select_shape(t: CFTree, p: Seq<CFSelectorSegment>)
    requires
        t.select(p) is Some,
    ensures
        forall|v: usize| tree_blocks(t.select(p)->0).count(v) <= #[trigger] tree_blocks(t).count(v),
        t.nonempty_lists() ==> t.select(p)->0.nonempty_lists(),
        t.fits_usize() ==> t.select(p)->0.fits_usize(),
    decreases p.len(),
{
    if p.len() > 0 {
        let c = t.child(p[0])->0;
        lemma_child_shape(t, p[0]);
        lemma_select_shape(c, p.drop_first());
    }
}

/// Whether a path can be followed implies its existence can be checked.
pub proof fn lemma_can_select_can_check(t: CFTree, p: Seq<CFSelectorSegment>)
    requires
        t.can_select(p),
    ensures
        t.can_check_exists(p),
    decreases p.len(),
{
    if p.len() > 0 {
        match t.child(p[0]) {
            Some(c) => lemma_can_select_can_check(c, p.drop_first()),
            None => {},
        }
    }
}

/// A path that exists leads to an element.
pub proof fn lemma_exists_selects(t: CFTree, p: Seq<CFSelectorSegment>)
    requires
        t.spec_exists(p),
    ensures
        t.select(p) is Some,
    decreases p.len(),
{
    if p.len() > 0 {
        match (t, p[0]) {
            (CFTree::If(..), CFSelectorSegment::IfCondition) => {
                assert(p.drop_first().len() == 0);
                let c = t.child(p[0])->0;
                assert(c.select(p.drop_first()) == Some(c));
            },
            _ => {
                let c = t.child(p[0])->0;
                lemma_exists_selects(c, p.drop_first());
            },
        }
    }
}

} // verus!
