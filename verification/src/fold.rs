//! Folding the basic blocks of a function into structured control flow: loops first, from the
//! strongly connected components of the control flow graph, then `if`s, from the branches.
use vstd::prelude::*;
use vstd::multiset::Multiset;

use crate::control_flow::blocks::{
    list_blocks, tree_blocks, lemma_list_blocks_add, lemma_list_blocks_push, lemma_set_at_blocks, lemma_without_child_blocks,
};
use crate::control_flow::paths::{
    lemma_set_at_keeps_block, lemma_set_at_same_path, lemma_set_at_unrelated, lemma_without_child_keeps_block, related,
};
use crate::control_flow::element::{
    CFTree, ControlFlowElement, all_fit, lemma_all_fit, lemma_select_push, lemma_views, lemma_views_add,
    lemma_views_push, next_in_list, same_kind, segment_index, views,
};
use crate::control_flow::selector::{CFSelector, CFSelectorSegment};
use crate::control_flow::shape::{
    lemma_can_select_can_check, lemma_exists_selects, lemma_list_nonempty_lists, lemma_nonempty_lists_has_first,
    lemma_select_shape,
};

verus! {

broadcast use vstd::std_specs::vec::group_vec_axioms, vstd::multiset::group_multiset_axioms;

/// A strongly connected component of the control flow graph of a function, with the components
/// its blocks form once the edges back into it are left out.
#[derive(Debug)]
pub struct Scc {
    /// The blocks of the component.
    pub blocks: Vec<usize>,
    /// The component is a single block that does not jump to itself.
    pub trivial: bool,
    /// The components inside this one, if it is not trivial.
    pub sub_sccs: Option<Vec<Scc>>,
}

impl Scc {
    /// Whether `block_id` belongs to the component.
    pub fn contains(&self, block_id: usize) -> (res: bool)
        ensures
            res == self.blocks@.contains(block_id),
    {
        let mut i: usize = 0;
        while i < self.blocks.len()
            invariant
                i <= self.blocks@.len(),
                forall|k: int| 0 <= k < i ==> self.blocks@[k] != block_id,
            decreases self.blocks@.len() - i,
        {
            if self.blocks[i] == block_id {
                assert(self.blocks@[i as int] == block_id);
                return true;
            }
            i = i + 1;
        }
        false
    }
}

/// The element is a basic block of the component with blocks `blocks`.
pub open spec fn is_component_block(e: CFTree, blocks: Seq<usize>) -> bool {
    e matches CFTree::BasicBlock(id) && blocks.contains(id)
}

/// The position of the first, or of the last, element of `list` that is a basic block of `scc`.
fn component_position(list: &Vec<ControlFlowElement>, scc: &Scc, last: bool) -> (res: Option<usize>)
    ensures
        match res {
            Some(i) => i < list@.len() && is_component_block(list@[i as int]@, scc.blocks@)
                && (!last ==> forall|k: int| 0 <= k < i ==> !is_component_block(#[trigger] list@[k]@, scc.blocks@))
                && (last ==> forall|k: int| i < k < list@.len() ==> !is_component_block(#[trigger] list@[k]@, scc.blocks@)),
            None => forall|k: int| 0 <= k < list@.len() ==> !is_component_block(#[trigger] list@[k]@, scc.blocks@),
        },
{
    let mut found: Option<usize> = None;
    let mut i: usize = 0;
    while i < list.len()
        invariant
            i <= list@.len(),
            match found {
                Some(f) => f < i && is_component_block(list@[f as int]@, scc.blocks@)
                    && (!last ==> forall|k: int| 0 <= k < f ==> !is_component_block(#[trigger] list@[k]@, scc.blocks@))
                    && (last ==> forall|k: int| f < k < i ==> !is_component_block(#[trigger] list@[k]@, scc.blocks@)),
                None => forall|k: int| 0 <= k < i ==> !is_component_block(#[trigger] list@[k]@, scc.blocks@),
            },
        decreases list@.len() - i,
    {
        let hit = match &list[i] {
            ControlFlowElement::BasicBlock { id } => scc.contains(*id),
            _ => false,
        };
        if hit {
            if last || found.is_none() {
                found = Some(i);
            }
        }
        i = i + 1;
    }
    found
}

/// The position of the first element of `list` that is a basic block of `blocks`.
pub open spec fn first_component_block(list: Seq<CFTree>, blocks: Seq<usize>) -> Option<int>
    decreases list.len(),
{
    if list.len() == 0 {
        None
    } else {
        match first_component_block(list.drop_last(), blocks) {
            Some(i) => Some(i),
            None => if is_component_block(list.last(), blocks) { Some(list.len() - 1) } else { None },
        }
    }
}

/// The position of the last element of `list` that is a basic block of `blocks`.
pub open spec fn last_component_block(list: Seq<CFTree>, blocks: Seq<usize>) -> Option<int>
    decreases list.len(),
{
    if list.len() == 0 {
        None
    } else if is_component_block(list.last(), blocks) {
        Some(list.len() - 1)
    } else {
        last_component_block(list.drop_last(), blocks)
    }
}

/// `list` with its elements `s..=e` replaced by one loop holding `content`.
pub open spec fn loop_around(list: Seq<CFTree>, s: int, e: int, content: Seq<CFTree>) -> Seq<CFTree> {
    list.subrange(0, s).push(CFTree::Loop(content)) + list.subrange(e + 1, list.len() as int)
}

/// How many components `scc` holds inside.
pub open spec fn sub_count(scc: Scc) -> nat {
    match scc.sub_sccs {
        Some(subs) => subs@.len(),
        None => 0,
    }
}

/// `list` once the first `k` components inside `scc` are folded into loops, in order: for a
/// non-trivial component with basic blocks in the list, the elements from the first to the last
/// of them become one loop, whose content is folded in turn with that component.
pub open spec fn fold_components(scc: Scc, list: Seq<CFTree>, k: nat) -> Seq<CFTree>
    decreases scc, k,
{
    if k == 0 {
        list
    } else {
        match scc.sub_sccs {
            Some(subs) => if k > subs@.len() {
                list
            } else {
                let prev = fold_components(scc, list, (k - 1) as nat);
                let sub = subs@[k - 1];
                proof {
                    assert(decreases_to!(scc => scc.sub_sccs));
                    assert(decreases_to!(scc.sub_sccs => subs));
                    assert(decreases_to!(subs => subs@[k - 1]));
                }
                if sub.trivial {
                    prev
                } else {
                    match (first_component_block(prev, sub.blocks@), last_component_block(prev, sub.blocks@)) {
                        (Some(s), Some(e)) => if s <= e {
                            loop_around(prev, s, e, fold_components(sub, prev.subrange(s, e + 1), sub_count(sub)))
                        } else {
                            prev
                        },
                        _ => prev,
                    }
                }
            },
            None => list,
        }
    }
}

/// `list` once every component inside `scc` is folded into loops.
pub open spec fn folded_loops(scc: Scc, list: Seq<CFTree>) -> Seq<CFTree> {
    fold_components(scc, list, sub_count(scc))
}

proof fn lemma_first_component_block(list: Seq<CFTree>, blocks: Seq<usize>, i: int)
    requires
        0 <= i < list.len(),
        is_component_block(list[i], blocks),
        forall|k: int| 0 <= k < i ==> !is_component_block(#[trigger] list[k], blocks),
    ensures
        first_component_block(list, blocks) == Some(i),
    decreases list.len(),
{
    if i < list.len() - 1 {
        let d = list.drop_last();
        assert forall|k: int| 0 <= k < i implies !is_component_block(#[trigger] d[k], blocks) by {
            assert(d[k] == list[k]);
        }
        assert(d[i] == list[i]);
        lemma_first_component_block(d, blocks, i);
    } else {
        lemma_no_component_block(list.drop_last(), blocks);
    }
}

proof fn lemma_no_component_block(list: Seq<CFTree>, blocks: Seq<usize>)
    requires
        forall|k: int| 0 <= k < list.len() ==> !is_component_block(#[trigger] list[k], blocks),
    ensures
        first_component_block(list, blocks) is None,
        last_component_block(list, blocks) is None,
    decreases list.len(),
{
    if list.len() > 0 {
        let d = list.drop_last();
        assert forall|k: int| 0 <= k < d.len() implies !is_component_block(#[trigger] d[k], blocks) by {
            assert(d[k] == list[k]);
        }
        lemma_no_component_block(d, blocks);
        assert(!is_component_block(list[list.len() - 1], blocks));
    }
}

proof fn lemma_last_component_block(list: Seq<CFTree>, blocks: Seq<usize>, i: int)
    requires
        0 <= i < list.len(),
        is_component_block(list[i], blocks),
        forall|k: int| i < k < list.len() ==> !is_component_block(#[trigger] list[k], blocks),
    ensures
        last_component_block(list, blocks) == Some(i),
    decreases list.len(),
{
    if i < list.len() - 1 {
        let d = list.drop_last();
        assert forall|k: int| i < k < d.len() implies !is_component_block(#[trigger] d[k], blocks) by {
            assert(d[k] == list[k]);
        }
        assert(d[i] == list[i]);
        assert(!is_component_block(list[list.len() - 1], blocks));
        lemma_last_component_block(d, blocks, i);
    }
}

/// No element of `list` has an empty block or loop.
pub open spec fn all_nonempty_lists(list: Seq<ControlFlowElement>) -> bool {
    forall|i: int| 0 <= i < list.len() ==> (#[trigger] list[i])@.nonempty_lists()
}

/// Folds the non-trivial components inside `scc` into loops: the elements of `current_result`
/// from the first to the last basic block of such a component become one loop, whose content
/// is folded in turn with that component. A component none of whose blocks stands in the list
/// is passed over.
#[verifier::rlimit(40)]
pub fn fold_loop(scc: &Scc, current_result: &mut Vec<ControlFlowElement>)
    ensures
        views(final(current_result)@) == folded_loops(*scc, views(old(current_result)@)),
        list_blocks(views(final(current_result)@)) == list_blocks(views(old(current_result)@)),
        old(current_result)@.len() > 0 ==> final(current_result)@.len() > 0,
        all_nonempty_lists(old(current_result)@) ==> all_nonempty_lists(final(current_result)@),
    decreases scc,
{
    match &scc.sub_sccs {
        Some(sub_sccs) => {
            let mut k: usize = 0;
            while k < sub_sccs.len()
                invariant
                    k <= sub_sccs@.len(),
                    scc.sub_sccs == Some(*sub_sccs),
                    views(current_result@) == fold_components(*scc, views(old(current_result)@), k as nat),
                    list_blocks(views(current_result@)) == list_blocks(views(old(current_result)@)),
                    old(current_result)@.len() > 0 ==> current_result@.len() > 0,
                    all_nonempty_lists(old(current_result)@) ==> all_nonempty_lists(current_result@),
                decreases sub_sccs@.len() - k,
            {
                let sub_scc = &sub_sccs[k];
                let ghost prev = views(current_result@);
                let ghost blocks = sub_scc.blocks@;
                proof {
                    lemma_views(current_result@);
                }
                if !sub_scc.trivial {
                    let start = component_position(current_result, sub_scc, false);
                    let end = component_position(current_result, sub_scc, true);
                    proof {
                        match start {
                            Some(i) => lemma_first_component_block(prev, blocks, i as int),
                            None => lemma_no_component_block(prev, blocks),
                        }
                        match end {
                            Some(i) => lemma_last_component_block(prev, blocks, i as int),
                            None => lemma_no_component_block(prev, blocks),
                        }
                    }
                    match (start, end) {
                        (Some(s), Some(e)) => {
                            if s <= e {
                                assert(decreases_to!(scc => scc.sub_sccs));
                                assert(decreases_to!(scc.sub_sccs => scc.sub_sccs->0));
                                assert(decreases_to!(scc.sub_sccs->0 => sub_sccs[k as int]));
                                let ghost before = current_result@;
                                assert(e < current_result.len());
                                let mut tail = current_result.split_off(e + 1);
                                let mut middle = current_result.split_off(s);
                                let ghost old_middle = middle@;
                                proof {
                                    assert(before =~= current_result@ + middle@ + tail@);
                                    assert(views(before) == views(current_result@ + middle@ + tail@));
                                }
                                proof {
                                    lemma_views_add(current_result@, middle@);
                                    lemma_views_add(current_result@ + middle@, tail@);
                                    assert(views(middle@) =~= prev.subrange(s as int, e + 1)) by {
                                        lemma_views(middle@);
                                        lemma_views(before);
                                        assert forall|q: int| 0 <= q < middle@.len() implies views(middle@)[q] == prev.subrange(s as int, e + 1)[q] by {
                                            assert(middle@[q] == before[s + q]);
                                        }
                                    }
                                }
                                fold_loop(sub_scc, &mut middle);
                                let ghost new_middle = middle@;
                                let ghost head = current_result@;
                                let ghost old_tail = tail@;
                                current_result.push(ControlFlowElement::Loop { content: middle });
                                current_result.append(&mut tail);
                                proof {
                                    let looped = ControlFlowElement::Loop { content: middle };
                                    assert(current_result@ =~= head.push(looped) + old_tail);
                                    lemma_views_add(head.push(looped), old_tail);
                                    lemma_views_push(head, looped);
                                    lemma_views(before);
                                    lemma_views(head);
                                    lemma_views(old_tail);
                                    assert(views(head) =~= prev.subrange(0, s as int)) by {
                                        assert forall|q: int| 0 <= q < head.len() implies views(head)[q] == prev.subrange(0, s as int)[q] by {
                                            assert(head[q] == before[q]);
                                        }
                                    }
                                    assert(views(old_tail) =~= prev.subrange(e + 1, prev.len() as int)) by {
                                        assert forall|q: int| 0 <= q < old_tail.len() implies views(old_tail)[q] == prev.subrange(e + 1, prev.len() as int)[q] by {
                                            assert(old_tail[q] == before[e + 1 + q]);
                                        }
                                    }
                                    assert(looped@ == CFTree::Loop(views(new_middle)));
                                    assert(views(current_result@) =~= loop_around(prev, s as int, e as int, views(new_middle)));
                                }
                                proof {
                                    let looped = ControlFlowElement::Loop { content: middle };
                                    assert(current_result@ =~= head.push(looped) + old_tail);
                                    lemma_views_add(head.push(looped), old_tail);
                                    lemma_views_push(head, looped);
                                    lemma_list_blocks_add(views(head).push(looped@), views(old_tail));
                                    lemma_list_blocks_push(views(head), looped@);
                                    lemma_views_add(head + old_middle, old_tail);
                                    lemma_views_add(head, old_middle);
                                    lemma_list_blocks_add(views(head + old_middle), views(old_tail));
                                    lemma_list_blocks_add(views(head), views(old_middle));
                                    if all_nonempty_lists(before) {
                                        assert forall|i: int| 0 <= i < old_middle.len() implies (#[trigger] old_middle[i])@.nonempty_lists() by {
                                            assert(old_middle[i] == before[s + i]);
                                        }
                                        lemma_views(new_middle);
                                        lemma_list_nonempty_lists(views(new_middle));
                                        assert(looped@ == CFTree::Loop(views(new_middle)));
                                        assert forall|i: int| 0 <= i < current_result@.len() implies (#[trigger] current_result@[i])@.nonempty_lists() by {
                                            if i < head.len() {
                                                assert(current_result@[i] == before[i]);
                                            } else if i > head.len() {
                                                assert(current_result@[i] == before[e + 1 + (i - head.len() - 1)]);
                                            }
                                        }
                                    }
                                }
                            }
                        },
                        _ => {},
                    }
                }
                k = k + 1;
            }
        },
        None => {},
    }
}

/// What folding `if`s reads of the control flow graph of a function, as tables indexed by
/// block id.
#[derive(Debug, Clone)]
pub struct FoldFacts {
    /// The predecessors of each block, in the order of the graph.
    pub predecessors: Vec<Vec<usize>>,
    /// Whether each block ends with a branch.
    pub ends_with_branch: Vec<bool>,
    /// `branch_direction[a][b]`: going from `a` to `b` takes the branch of `a` on success.
    pub branch_direction: Vec<Vec<bool>>,
    /// `dominated_by[a][b]`: every path from the entry to `a` passes through `b`.
    pub dominated_by: Vec<Vec<bool>>,
    /// `same_branch_side[c][a][b]`: `a` and `b` lie on the same side of the branch that ends `c`.
    pub same_branch_side: Vec<Vec<Vec<bool>>>,
}

impl FoldFacts {
    /// How many blocks the function has.
    pub open spec fn n(self) -> nat {
        self.predecessors@.len()
    }

    /// Every table covers every block, and every predecessor is a block.
    pub open spec fn wf(self) -> bool {
        &&& self.ends_with_branch@.len() == self.n()
        &&& self.branch_direction@.len() == self.n()
        &&& self.dominated_by@.len() == self.n()
        &&& self.same_branch_side@.len() == self.n()
        &&& forall|a: int, k: int| 0 <= a < self.n() && 0 <= k < self.predecessors@[a]@.len()
            ==> #[trigger] self.predecessors@[a]@[k] < self.n()
        &&& forall|a: int| 0 <= a < self.n() ==> (#[trigger] self.branch_direction@[a])@.len() == self.n()
        &&& forall|a: int| 0 <= a < self.n() ==> (#[trigger] self.dominated_by@[a])@.len() == self.n()
        &&& forall|a: int| 0 <= a < self.n() ==> (#[trigger] self.same_branch_side@[a])@.len() == self.n()
        &&& forall|a: int, b: int| 0 <= a < self.n() && 0 <= b < self.n() ==> (#[trigger] self.same_branch_side@[a]@[b])@.len() == self.n()
    }

    /// The predecessors of block `b`.
    pub open spec fn preds(self, b: int) -> Seq<usize> {
        self.predecessors@[b]@
    }

    /// `a` is dominated by `b`.
    pub open spec fn dominated(self, a: int, b: int) -> bool {
        self.dominated_by@[a]@[b]
    }

    /// `a` and `b` lie on the same side of the branch that ends `c`.
    pub open spec fn same_side(self, c: int, a: int, b: int) -> bool {
        self.same_branch_side@[c]@[a]@[b]
    }

    /// Going from `a` to `b` takes the branch of `a` on success.
    pub open spec fn direction(self, a: int, b: int) -> bool {
        self.branch_direction@[a]@[b]
    }
}

/// Every basic block of `t` is below `n`.
pub open spec fn ids_below(t: CFTree, n: nat) -> bool {
    forall|v: usize| #[trigger] tree_blocks(t).count(v) > 0 ==> v < n
}

/// `segment` moved `k` places on in its list.
pub open spec fn shift(segment: CFSelectorSegment, k: nat) -> CFSelectorSegment {
    match segment {
        CFSelectorSegment::ContentAtIndex(i) => CFSelectorSegment::ContentAtIndex((i + k) as usize),
        CFSelectorSegment::IndexInSuccess(i) => CFSelectorSegment::IndexInSuccess((i + k) as usize),
        CFSelectorSegment::IndexInFailure(i) => CFSelectorSegment::IndexInFailure((i + k) as usize),
        CFSelectorSegment::IfCondition => CFSelectorSegment::IfCondition,
    }
}

/// The selector of the element `k` places after the one `first` addresses, in the same list.
pub open spec fn sibling(first: Seq<CFSelectorSegment>, k: nat) -> Seq<CFSelectorSegment> {
    first.drop_last().push(shift(first.last(), k))
}

/// The length of the list of `x` that `segment` indexes.
pub open spec fn list_len_for(x: CFTree, segment: CFSelectorSegment) -> nat {
    match (x, segment) {
        (CFTree::Block(c), CFSelectorSegment::ContentAtIndex(_)) => c.len(),
        (CFTree::Loop(c), CFSelectorSegment::ContentAtIndex(_)) => c.len(),
        (CFTree::If(_, s, _), CFSelectorSegment::IndexInSuccess(_)) => s.len(),
        (CFTree::If(_, _, f), CFSelectorSegment::IndexInFailure(_)) => f.len(),
        _ => 0,
    }
}

/// The id of the first basic block of the element `selector` leads to in `root`.
pub open spec fn first_id_at(root: CFTree, selector: Seq<CFSelectorSegment>) -> usize {
    root.select(selector)->0.first_id()
}

/// The element `k` places after `first` may move along with it: its first block is dominated by
/// the first block of `first`'s element and lies on the same side of `c`'s branch.
pub open spec fn moves_along(facts: FoldFacts, root: CFTree, first: Seq<CFSelectorSegment>, c: int, k: nat) -> bool {
    let f = first_id_at(root, first);
    let cid = first_id_at(root, sibling(first, k));
    facts.dominated(cid as int, f as int) && facts.same_side(c, f as int, cid as int)
}

/// The element `k` places after `first` exists and may move along with it.
pub open spec fn joins_move(facts: FoldFacts, root: CFTree, first: Seq<CFSelectorSegment>, c: int, k: nat) -> bool {
    root.spec_exists(sibling(first, k)) && moves_along(facts, root, first, c, k)
}

/// Facts about an element `k` places after `first` that exists.
proof fn lemma_sibling(root: CFTree, first: Seq<CFSelectorSegment>, k: nat, n: nat)
    requires
        root.leads_somewhere(first),
        first.len() > 0,
        first.last() != CFSelectorSegment::IfCondition,
        k == 0 || root.spec_exists(sibling(first, k)),
        segment_index(first.last()) + k <= usize::MAX,
        root.nonempty_lists(),
        root.fits_usize(),
        ids_below(root, n),
    ensures
        root.leads_somewhere(sibling(first, k)),
        root.can_check_exists(sibling(first, k)),
        sibling(first, k).last() != CFSelectorSegment::IfCondition,
        segment_index(sibling(first, k).last()) < usize::MAX,
        segment_index(first.last()) + k < list_len_for(root.select(first.drop_last())->0, first.last()),
        next_in_list(sibling(first, k)) == Some(sibling(first, k + 1)),
        root.select(sibling(first, k))->0.has_first(),
        first_id_at(root, sibling(first, k)) < n,
        sibling(first, 0) == first,
        list_len_for(root.select(first.drop_last())->0, first.last()) <= usize::MAX,
{
    let parent = first.drop_last();
    let seg = first.last();
    let s = sibling(first, k);
    assert(first =~= parent.push(seg));
    assert(s.drop_last() =~= parent);
    assert(s.last() == shift(seg, k));
    lemma_select_push(root, parent, seg);
    lemma_select_push(root, parent, shift(seg, k));
    if k > 0 {
        lemma_exists_selects(root, s);
    }
    let x = root.select(parent)->0;
    lemma_select_shape(root, parent);
    match x {
        CFTree::Block(c) => lemma_all_fit(c),
        CFTree::Loop(c) => lemma_all_fit(c),
        CFTree::If(_, sc, fc) => {
            lemma_all_fit(sc);
            lemma_all_fit(fc);
        },
        _ => {},
    }
    lemma_can_select_can_check(root, s);
    lemma_select_shape(root, s);
    lemma_nonempty_lists_has_first(root.select(s)->0);
    assert(tree_blocks(root).count(first_id_at(root, s)) > 0);
    assert(sibling(first, k + 1) =~= s.drop_last().push(shift(seg, k + 1)));
    assert(sibling(first, 0) =~= first);
}

/// The selectors of the elements that move along with the one `first_to_move_node_selector`
/// addresses into a branch: that element, and the elements after it in its list for as long as
/// their first block is dominated by its first block and lies on the same side of the branch of
/// the block before it.
fn collect_to_move(root_element: &ControlFlowElement, first_to_move_node_selector: &CFSelector, facts: &FoldFacts)
    -> (res: Vec<CFSelector>)
    requires
        facts.wf(),
        root_element@.leads_somewhere(first_to_move_node_selector@),
        first_to_move_node_selector@.len() > 0,
        root_element@.nonempty_lists(),
        ids_below(root_element@, facts.n()),
        facts.preds(first_id_at(root_element@, first_to_move_node_selector@) as int).len() > 0,
    ensures
        res@.len() >= 1,
        forall|k: int| 0 <= k < res@.len() ==> (#[trigger] res@[k])@ == sibling(first_to_move_node_selector@, k as nat),
        forall|k: int| 1 <= k < res@.len() ==> #[trigger] joins_move(*facts, root_element@, first_to_move_node_selector@,
            facts.preds(first_id_at(root_element@, first_to_move_node_selector@) as int)[0] as int, k as nat),
        forall|k: int| 0 <= k < res@.len() ==> root_element@.leads_somewhere((#[trigger] res@[k])@),
        first_to_move_node_selector@.last() != CFSelectorSegment::IfCondition ==>
            segment_index(first_to_move_node_selector@.last()) + res@.len() <= usize::MAX,
        first_to_move_node_selector@.last() == CFSelectorSegment::IfCondition ==> res@.len() == 1,
        first_to_move_node_selector@.last() != CFSelectorSegment::IfCondition ==>
            !(root_element@.spec_exists(sibling(first_to_move_node_selector@, res@.len()))
            && moves_along(*facts, root_element@, first_to_move_node_selector@,
                facts.preds(first_id_at(root_element@, first_to_move_node_selector@) as int)[0] as int, res@.len())),
{
    let ghost root = root_element@;
    let ghost first = first_to_move_node_selector@;
    let ghost n = facts.n();
    proof {
        root_element.lemma_fits_usize();
        lemma_select_shape(root, first);
        lemma_nonempty_lists_has_first(root.select(first)->0);
        lemma_can_select_can_check(root, first);
        assert(tree_blocks(root).count(first_id_at(root, first)) > 0);
    }
    let first_to_move_element = root_element.index(first_to_move_node_selector);
    let first_id = first_to_move_element.first_basic_block_id();
    let move_to_if_condition_bb_id = facts.predecessors[first_id][0];
    let ghost c = move_to_if_condition_bb_id as int;
    let mut to_move: Vec<CFSelector> = Vec::new();
    to_move.push(first_to_move_node_selector.duplicate());
    proof {
        if first.last() != CFSelectorSegment::IfCondition {
            lemma_sibling(root, first, 0, n);
        }
    }
    let mut next = root_element.next_element_sibling(first_to_move_node_selector);
    let mut stop = false;
    let ghost bound: nat = if first.last() == CFSelectorSegment::IfCondition {
        1
    } else {
        (list_len_for(root.select(first.drop_last())->0, first.last()) - segment_index(first.last())) as nat
    };
    while !stop
        invariant
            facts.wf(),
            root == root_element@,
            first == first_to_move_node_selector@,
            n == facts.n(),
            root.leads_somewhere(first),
            first.len() > 0,
            root.nonempty_lists(),
            root.fits_usize(),
            ids_below(root, n),
            first_id == first_id_at(root, first),
            c == facts.preds(first_id as int)[0],
            move_to_if_condition_bb_id == c,
            c < n,
            first_id < n,
            to_move@.len() >= 1,
            forall|k: int| 0 <= k < to_move@.len() ==> (#[trigger] to_move@[k])@ == sibling(first, k as nat),
            forall|k: int| 0 <= k < to_move@.len() ==> root.leads_somewhere((#[trigger] to_move@[k])@),
            forall|k: int| 1 <= k < to_move@.len() ==> #[trigger] joins_move(*facts, root, first, c, k as nat),
            first.last() == CFSelectorSegment::IfCondition ==> next is None && to_move@.len() == 1,
            first.last() != CFSelectorSegment::IfCondition ==> to_move@.len() <= bound,
            first.last() != CFSelectorSegment::IfCondition ==> {
                &&& bound == list_len_for(root.select(first.drop_last())->0, first.last()) - segment_index(first.last())
                &&& list_len_for(root.select(first.drop_last())->0, first.last()) <= usize::MAX
                &&& segment_index(first.last()) < list_len_for(root.select(first.drop_last())->0, first.last())
            },
            match next {
                Some(cur) => !stop && first.last() != CFSelectorSegment::IfCondition
                    && cur@ == sibling(first, to_move@.len()) && root.spec_exists(cur@),
                None => !stop && first.last() != CFSelectorSegment::IfCondition ==> !root.spec_exists(sibling(first, to_move@.len())),
            },
            stop ==> next is None,
            stop && first.last() != CFSelectorSegment::IfCondition ==>
                !(root.spec_exists(sibling(first, to_move@.len())) && moves_along(*facts, root, first, c, to_move@.len())),
        decreases bound - to_move@.len(), if stop { 0int } else { 1int },
    {
        match next {
            Some(cur) => {
                let ghost k = to_move@.len();
                proof {
                    lemma_sibling(root, first, k, n);
                }
                let current_node_id = root_element.index(&cur).first_basic_block_id();
                assert(facts.dominated_by@[current_node_id as int]@.len() == n);
                assert(facts.same_branch_side@[c]@.len() == n);
                assert(facts.same_branch_side@[c]@[first_id as int]@.len() == n);
                if facts.dominated_by[current_node_id][first_id] && facts.same_branch_side[move_to_if_condition_bb_id][first_id][current_node_id] {
                    to_move.push(cur.duplicate());
                    next = root_element.next_element_sibling(&cur);
                    proof {
                        assert(next_in_list(cur@) == Some(sibling(first, k + 1)));
                        assert(next matches Some(nx) ==> nx@ == sibling(first, k + 1));
                        assert(next matches Some(nx) ==> root.spec_exists(nx@));
                        assert(to_move@.len() == k + 1);
                        assert(root.spec_exists(sibling(first, k)));
                        assert(moves_along(*facts, root, first, c, k));
                        assert forall|j: int| 0 <= j < to_move@.len() implies root.leads_somewhere((#[trigger] to_move@[j])@) by {
                            if j == k {
                                assert(to_move@[j]@ == sibling(first, k));
                            }
                        }
                        assert forall|j: int| 1 <= j < to_move@.len() implies #[trigger] joins_move(*facts, root, first, c, j as nat) by {
                            if j == k {
                                assert(joins_move(*facts, root, first, c, k));
                            }
                        }
                    }
                } else {
                    next = None;
                    stop = true;
                }
            },
            None => {
                next = None;
                stop = true;
            },
        }
    }
    to_move
}

/// Taking an element out of a list leaves the elements before it.
proof fn lemma_without_child_earlier(x: CFTree, sa: CFSelectorSegment, sb: CFSelectorSegment)
    requires
        same_kind(sa, sb),
        segment_index(sa) < segment_index(sb),
        x.child(sb) is Some,
    ensures
        x.without_child(sb).child(sa) == x.child(sa),
        x.without_child(sb).segment_fits(sa) == x.segment_fits(sa),
{
}

/// The blocks of the elements `j..` of `items`.
pub open spec fn items_blocks(items: Seq<ControlFlowElement>, j: int) -> Multiset<usize> {
    list_blocks(views(items.subrange(j, items.len() as int)))
}

/// `t` with the element at `selector` taken out of its list.
pub open spec fn removed_at(t: CFTree, selector: Seq<CFSelectorSegment>) -> CFTree {
    t.set_at(selector.drop_last(), t.select(selector.drop_last())->0.without_child(selector.last()))
}

/// `t` with the first `m` elements from `first` on in its list taken out, the last first.
pub open spec fn removed_siblings(t: CFTree, first: Seq<CFSelectorSegment>, m: nat) -> CFTree
    decreases m,
{
    if m == 0 {
        t
    } else {
        removed_siblings(removed_at(t, sibling(first, (m - 1) as nat)), first, (m - 1) as nat)
    }
}

/// The first `m` elements of `t` from `first` on in its list.
pub open spec fn selected_siblings(t: CFTree, first: Seq<CFSelectorSegment>, m: nat) -> Seq<CFTree> {
    Seq::new(m, |k: int| t.select(sibling(first, k as nat))->0)
}

/// The `if` `x` with `items` added at the end of its success branch, or of its failure branch.
pub open spec fn with_appended(x: CFTree, items: Seq<CFTree>, on_success: bool) -> CFTree {
    match x {
        CFTree::If(c, s, f) => if on_success { CFTree::If(c, s + items, f) } else { CFTree::If(c, s, f + items) },
        _ => x,
    }
}

/// `t` with the first `m` elements from `first` on in its list moved to the end of a branch of
/// the `if` at `if_selector`.
pub open spec fn moved_into_branch(t: CFTree, if_selector: Seq<CFSelectorSegment>, first: Seq<CFSelectorSegment>,
    m: nat, on_success: bool) -> CFTree {
    let appended = t.set_at(if_selector, with_appended(t.select(if_selector)->0, selected_siblings(t, first, m), on_success));
    removed_siblings(appended, first, m)
}

/// Moves the elements that `to_move` addresses, consecutive elements of one list, to the end of
/// a branch of the `if` that `if_selector` addresses: its success branch when `on_success`.
fn move_into_branch(content: &mut ControlFlowElement, if_selector: &CFSelector, to_move: &Vec<CFSelector>, on_success: bool)
    requires
        old(content)@.leads_somewhere(if_selector@),
        old(content)@.select(if_selector@)->0 is If,
        to_move@.len() >= 1,
        to_move@[0]@.len() > 0,
        to_move@[0]@.last() != CFSelectorSegment::IfCondition,
        forall|k: int| 0 <= k < to_move@.len() ==> (#[trigger] to_move@[k])@ == sibling(to_move@[0]@, k as nat),
        forall|k: int| 0 <= k < to_move@.len() ==> old(content)@.leads_somewhere((#[trigger] to_move@[k])@),
        forall|k: int| 0 <= k < to_move@.len() ==> !related(if_selector@, (#[trigger] to_move@[k])@),
        segment_index(to_move@[0]@.last()) + to_move@.len() <= usize::MAX,
    ensures
        final(content)@ == moved_into_branch(old(content)@, if_selector@, to_move@[0]@, to_move@.len(), on_success),
        tree_blocks(final(content)@) == tree_blocks(old(content)@),
        old(content)@ is Block ==> final(content)@ is Block,
{
    let ghost t1 = content@;
    let ghost first = to_move@[0]@;
    let ghost parent = first.drop_last();
    let ghost seg = first.last();
    let ghost m = to_move@.len();
    let mut items: Vec<ControlFlowElement> = Vec::new();
    let mut i: usize = 0;
    while i < to_move.len()
        invariant
            content@ == t1,
            i <= to_move@.len(),
            items@.len() == i,
            forall|k: int| 0 <= k < to_move@.len() ==> t1.leads_somewhere((#[trigger] to_move@[k])@),
            forall|k: int| 0 <= k < i ==> (#[trigger] items@[k])@ == t1.select(to_move@[k]@)->0,
        decreases to_move@.len() - i,
    {
        let item = content.index(&to_move[i]).duplicate();
        items.push(item);
        i = i + 1;
    }
    let ghost items_all = items@;
    proof {
        lemma_views(items_all);
    }
    let ghost old_if = t1.select(if_selector@)->0;
    let target = content.index_mut(if_selector);
    let ghost before_target = *target;
    match target {
        ControlFlowElement::If { on_success: success_list, on_failure: failure_list, .. } => {
            if on_success {
                let ghost before = success_list@;
                success_list.append(&mut items);
                proof {
                    lemma_views_add(before, items_all);
                    lemma_list_blocks_add(views(before), views(items_all));
                }
            } else {
                let ghost before = failure_list@;
                failure_list.append(&mut items);
                proof {
                    lemma_views_add(before, items_all);
                    lemma_list_blocks_add(views(before), views(items_all));
                }
            }
        },
        _ => {
            proof {
                assert(false);
            }
        },
    }
    let ghost t2 = content@;
    proof {
        assert(views(items_all) =~= selected_siblings(t1, first, m)) by {
            assert forall|k: int| 0 <= k < m implies views(items_all)[k] == selected_siblings(t1, first, m)[k] by {
                assert(to_move@[k]@ == sibling(first, k as nat));
            }
        }
        assert((*target)@ == with_appended(old_if, selected_siblings(t1, first, m), on_success));
        assert(t2 == t1.set_at(if_selector@, with_appended(old_if, selected_siblings(t1, first, m), on_success)));
    }
    proof {
        let new_if = t2.select(if_selector@)->0;
        lemma_set_at_same_path(t1, if_selector@, (*target)@);
        lemma_set_at_blocks(t1, if_selector@, (*target)@);
        assert(items_all.subrange(0, m as int) =~= items_all);
        assert forall|v: usize| #[trigger] tree_blocks(t2).count(v) == tree_blocks(t1).count(v) + items_blocks(items_all, 0).count(v) by {
            assert(tree_blocks(t2).add(tree_blocks(old_if)).count(v) == tree_blocks(t1).add(tree_blocks((*target)@)).count(v));
        }
        assert forall|k: int| 0 <= k < m implies #[trigger] t2.select(to_move@[k]@) == t1.select(to_move@[k]@)
            && t2.leads_somewhere(to_move@[k]@) by {
            lemma_set_at_unrelated(t1, if_selector@, to_move@[k]@, (*target)@);
        }
        assert(t2.leads_somewhere(to_move@[0]@));
        assert(first =~= parent.push(seg));
        lemma_select_push(t2, parent, seg);
        if t1 is Block {
            assert(if_selector@.len() > 0);
            lemma_set_at_keeps_block(t1, if_selector@, (*target)@);
        }
    }
    let mut j: usize = to_move.len();
    while j > 0
        invariant
            j <= m,
            m == to_move@.len(),
            first == to_move@[0]@,
            parent == first.drop_last(),
            seg == first.last(),
            first.len() > 0,
            seg != CFSelectorSegment::IfCondition,
            segment_index(seg) + m <= usize::MAX,
            items_all.len() == m,
            forall|k: int| 0 <= k < m ==> (#[trigger] to_move@[k])@ == sibling(first, k as nat),
            forall|k: int| 0 <= k < m ==> (#[trigger] items_all[k])@ == t1.select(to_move@[k]@)->0,
            forall|k: int| 0 <= k < m ==> #[trigger] t2.select(to_move@[k]@) == t1.select(to_move@[k]@),
            forall|k: int| 0 <= k < j ==> content@.leads_somewhere((#[trigger] to_move@[k])@)
                && content@.select(to_move@[k]@) == t2.select(to_move@[k]@),
            forall|v: usize| #[trigger] tree_blocks(content@).count(v) + items_blocks(items_all, j as int).count(v)
                == tree_blocks(t2).count(v),
            content@.leads_somewhere(parent),
            t1 is Block ==> content@ is Block,
            removed_siblings(content@, first, j as nat) == removed_siblings(t2, first, m),
        decreases j,
    {
        let ghost cur = content@;
        let ghost sel = to_move@[j - 1]@;
        proof {
            assert(sel == sibling(first, (j - 1) as nat));
            assert(sel.drop_last() =~= parent);
            assert(sel.last() == shift(seg, (j - 1) as nat));
        }
        let removed = content.remove(&to_move[j - 1]);
        proof {
            let x = cur.select(parent)->0;
            let x2 = x.without_child(sel.last());
            lemma_select_push(cur, parent, sel.last());
            lemma_set_at_same_path(cur, parent, x2);
            lemma_set_at_blocks(cur, parent, x2);
            lemma_without_child_blocks(x, sel.last());
            if cur is Block {
                if parent.len() > 0 {
                    lemma_set_at_keeps_block(cur, parent, x2);
                } else {
                    lemma_without_child_keeps_block(x, sel.last());
                }
            }
            assert forall|k: int| 0 <= k < j - 1 implies content@.leads_somewhere((#[trigger] to_move@[k])@)
                && content@.select(to_move@[k]@) == t2.select(to_move@[k]@) by {
                let sk = to_move@[k]@;
                assert(sk.drop_last() =~= parent);
                assert(sk == parent.push(shift(seg, k as nat)));
                lemma_select_push(cur, parent, shift(seg, k as nat));
                lemma_select_push(content@, parent, shift(seg, k as nat));
                lemma_without_child_earlier(x, shift(seg, k as nat), sel.last());
            }
            let sub_before = items_all.subrange(j as int, m as int);
            let sub_after = items_all.subrange(j - 1, m as int);
            assert(sub_after =~= seq![items_all[j - 1]] + sub_before);
            lemma_views_add(seq![items_all[j - 1]], sub_before);
            lemma_list_blocks_add(views(seq![items_all[j - 1]]), views(sub_before));
            lemma_views_push(Seq::<ControlFlowElement>::empty(), items_all[j - 1]);
            assert(seq![items_all[j - 1]] =~= Seq::<ControlFlowElement>::empty().push(items_all[j - 1]));
            lemma_list_blocks_push(views(Seq::<ControlFlowElement>::empty()), items_all[j - 1]@);
            assert(views(Seq::<ControlFlowElement>::empty()) =~= Seq::<CFTree>::empty());
            assert(removed@ == items_all[j - 1]@);
            assert forall|v: usize| #[trigger] tree_blocks(content@).count(v) + items_blocks(items_all, j - 1).count(v)
                == tree_blocks(t2).count(v) by {
                assert(tree_blocks(content@).add(tree_blocks(cur.select(parent)->0)).count(v)
                    == tree_blocks(cur).add(tree_blocks(x2)).count(v));
                assert(tree_blocks(x2).add(tree_blocks(x.child(sel.last())->0)).count(v) == tree_blocks(x).count(v));
            }
        }
        j = j - 1;
    }
    proof {
        assert(items_all.subrange(0, m as int) =~= items_all);
        assert(tree_blocks(content@) =~= tree_blocks(t1));
    }
}

/// The element `k` places after `first` exists and may move along with it.
pub open spec fn joins_at(facts: FoldFacts, root: CFTree, first: Seq<CFSelectorSegment>, c: int, k: int) -> bool {
    joins_move(facts, root, first, c, k as nat)
}

/// Whether `n` is how many elements move along from `first`: `n` is at least 1, every element
/// from 1 to `n - 1` places after `first` exists and may move along, and the one `n` places after
/// does not.
pub open spec fn counts_moves(facts: FoldFacts, root: CFTree, first: Seq<CFSelectorSegment>, c: int, n: nat) -> bool {
    &&& n >= 1
    &&& forall|k: int| 1 <= k < n ==> #[trigger] joins_at(facts, root, first, c, k)
    &&& !joins_move(facts, root, first, c, n)
}

/// How many elements move into a branch with the one at `first`: that element alone where it
/// is the condition of an `if`; else it and the elements after it in its list for as long as
/// each exists and may move along.
pub open spec fn move_count(facts: FoldFacts, root: CFTree, first: Seq<CFSelectorSegment>) -> nat {
    let c = facts.preds(first_id_at(root, first) as int)[0] as int;
    if first.last() == CFSelectorSegment::IfCondition {
        1
    } else {
        choose|n: nat| counts_moves(facts, root, first, c, n)
    }
}

proof fn lemma_counts_moves_unique(facts: FoldFacts, root: CFTree, first: Seq<CFSelectorSegment>, c: int, n1: nat, n2: nat)
    requires
        counts_moves(facts, root, first, c, n1),
        counts_moves(facts, root, first, c, n2),
    ensures
        n1 == n2,
{
    if n1 < n2 {
        assert(joins_at(facts, root, first, c, n1 as int));
    } else if n2 < n1 {
        assert(joins_at(facts, root, first, c, n2 as int));
    }
}

/// `q` lies one level under `p`, where passing into the condition of an `if` is no level of
/// its own: every segment of `q` after those of `p`, but the last, is an `if` condition.
pub open spec fn parent_of(p: Seq<CFSelectorSegment>, q: Seq<CFSelectorSegment>) -> bool {
    &&& p.len() < q.len()
    &&& p == q.take(p.len() as int)
    &&& forall|j: int| p.len() <= j < q.len() - 1 ==> q[j] == CFSelectorSegment::IfCondition
}

/// The element `k` places after `bs` lies on the way to `ps` or to `if_sel`, or the other way round.
pub open spec fn move_blocked(ps: Seq<CFSelectorSegment>, if_sel: Seq<CFSelectorSegment>, bs: Seq<CFSelectorSegment>, k: int) -> bool {
    related(ps, sibling(bs, k as nat)) || related(if_sel, sibling(bs, k as nat))
}

/// One of the first `m` elements from `bs` on lies on the way to `ps` or to `if_sel`, or the
/// other way round.
pub open spec fn some_move_blocked(ps: Seq<CFSelectorSegment>, if_sel: Seq<CFSelectorSegment>, bs: Seq<CFSelectorSegment>, m: nat) -> bool {
    exists|k: int| 0 <= k < m && #[trigger] move_blocked(ps, if_sel, bs, k)
}

/// What folding block `block_id` into the branch of its predecessor `pred` makes of `t`, given
/// the paths `ps` to the predecessor and `bs` to the block: the predecessor becomes the condition
/// of an `if` where it is not one already, and the block and the elements that move along with
/// it go to the end of the branch that leads to the block. `None` where the block is in that
/// `if` already, or a path is empty or ends at a condition, or an element to move lies on the way
/// to the `if` or to the predecessor, or the other way round.
pub open spec fn fold_at_result(t: CFTree, facts: FoldFacts, pred: usize, block_id: usize,
    ps: Seq<CFSelectorSegment>, bs: Seq<CFSelectorSegment>) -> Option<CFTree> {
    let promote = !(ps.len() > 0 && ps.last() == CFSelectorSegment::IfCondition);
    let if_sel = if promote { ps } else { ps.drop_last() };
    if !promote && parent_of(if_sel, bs) {
        None
    } else if promote && ps.len() == 0 {
        None
    } else if bs.len() == 0 || bs.last() == CFSelectorSegment::IfCondition {
        None
    } else {
        let m = move_count(facts, t, bs);
        if some_move_blocked(ps, if_sel, bs, m) {
            None
        } else {
            let t1 = if promote {
                t.set_at(ps, CFTree::If(Box::new(CFTree::BasicBlock(pred)), Seq::empty(), Seq::empty()))
            } else {
                t
            };
            Some(moved_into_branch(t1, if_sel, bs, m, facts.direction(pred as int, block_id as int)))
        }
    }
}

/// Folds block `block_id` into the branch of its only predecessor `pred`, given the paths to
/// both; false, and `content` unchanged, where it is already folded or the paths do not allow it.
fn fold_at(content: &mut ControlFlowElement, facts: &FoldFacts, pred: usize, block_id: usize,
    pred_selector: CFSelector, block_selector: CFSelector) -> (res: bool)
    requires
        facts.wf(),
        old(content)@.nonempty_lists(),
        ids_below(old(content)@, facts.n()),
        block_id < facts.n(),
        pred < facts.n(),
        facts.preds(block_id as int).len() == 1,
        old(content)@.leads_somewhere(pred_selector@),
        old(content)@.select(pred_selector@) == Some(CFTree::BasicBlock(pred)),
        old(content)@.leads_somewhere(block_selector@),
        old(content)@.select(block_selector@) == Some(CFTree::BasicBlock(block_id)),
    ensures
        res == fold_at_result(old(content)@, *facts, pred, block_id, pred_selector@, block_selector@) is Some,
        res ==> final(content)@ == fold_at_result(old(content)@, *facts, pred, block_id, pred_selector@, block_selector@)->0,
        tree_blocks(final(content)@) == tree_blocks(old(content)@),
        !res ==> final(content)@ == old(content)@,
        old(content)@ is Block ==> final(content)@ is Block,
{
    let ghost t0 = content@;
    let promote: bool;
    let if_selector: CFSelector;
    if pred_selector.is_if_condition() {
        let parent = pred_selector.parent().unwrap();
        if parent.is_parent_of(&block_selector) {
            return false;
        }
        if_selector = parent;
        promote = false;
    } else {
        if pred_selector.is_empty() {
            return false;
        }
        if_selector = pred_selector.duplicate();
        promote = true;
    }
    if block_selector.is_empty() || block_selector.is_if_condition() {
        return false;
    }
    let to_move = collect_to_move(content, &block_selector, facts);
    proof {
        let c = facts.preds(first_id_at(t0, block_selector@) as int)[0] as int;
        assert forall|k: int| 1 <= k < to_move@.len() implies #[trigger] joins_at(*facts, t0, block_selector@, c, k) by {
            assert(joins_move(*facts, t0, block_selector@, c, k as nat));
        }
        assert(counts_moves(*facts, t0, block_selector@, c, to_move@.len()));
        let n = choose|n: nat| counts_moves(*facts, t0, block_selector@, c, n);
        lemma_counts_moves_unique(*facts, t0, block_selector@, c, n, to_move@.len());
        assert(move_count(*facts, t0, block_selector@) == to_move@.len());
        assert forall|q: int| 0 <= q < to_move@.len() implies (#[trigger] to_move@[q])@ == sibling(block_selector@, q as nat) by {}
    }
    let mut k: usize = 0;
    while k < to_move.len()
        invariant
            k <= to_move@.len(),
            content@ == t0,
            move_count(*facts, t0, block_selector@) == to_move@.len(),
            promote == !(pred_selector@.len() > 0 && pred_selector@.last() == CFSelectorSegment::IfCondition),
            if_selector@ == (if promote { pred_selector@ } else { pred_selector@.drop_last() }),
            !(!promote && parent_of(if_selector@, block_selector@)),
            !(promote && pred_selector@.len() == 0),
            block_selector@.len() > 0 && block_selector@.last() != CFSelectorSegment::IfCondition,
            forall|q: int| 0 <= q < to_move@.len() ==> (#[trigger] to_move@[q])@ == sibling(block_selector@, q as nat),
            forall|i: int| 0 <= i < k ==> !related(pred_selector@, (#[trigger] to_move@[i])@)
                && !related(if_selector@, to_move@[i]@),
        decreases to_move@.len() - k,
    {
        if pred_selector.is_ancestor_of(&to_move[k]) || if_selector.is_ancestor_of(&to_move[k]) {
            proof {
                let ps = pred_selector@;
                let bs = block_selector@;
                let kk = k as int;
                assert(to_move@[kk]@ == sibling(bs, kk as nat));
                assert(related(ps, sibling(bs, kk as nat)) || related(if_selector@, sibling(bs, kk as nat)));
                assert(0 <= kk < move_count(*facts, t0, bs));
                assert(move_blocked(ps, if_selector@, bs, kk));
                let p2 = !(ps.len() > 0 && ps.last() == CFSelectorSegment::IfCondition);
                let if2 = if p2 { ps } else { ps.drop_last() };
                assert(p2 == promote);
                assert(if2 == if_selector@);
                assert(!(!p2 && parent_of(if2, bs)));
                assert(!(p2 && ps.len() == 0));
                assert(!(bs.len() == 0 || bs.last() == CFSelectorSegment::IfCondition));
                assert(some_move_blocked(ps, if2, bs, move_count(*facts, t0, bs)));
                assert(fold_at_result(t0, *facts, pred, block_id, ps, bs) is None);
            }
            return false;
        }
        k = k + 1;
    }
    let ghost new_view = CFTree::BasicBlock(0);
    if promote {
        let on_success_list: Vec<ControlFlowElement> = Vec::new();
        let on_failure_list: Vec<ControlFlowElement> = Vec::new();
        let condition_element = ControlFlowElement::BasicBlock { id: pred };
        assert(condition_element@ == CFTree::BasicBlock(pred));
        let new_element = ControlFlowElement::If {
            condition: Box::new(condition_element),
            on_success: on_success_list,
            on_failure: on_failure_list,
        };
        proof {
            new_view = new_element@;
            assert(views(on_success_list@) =~= Seq::<CFTree>::empty());
            assert(views(on_failure_list@) =~= Seq::<CFTree>::empty());
            assert(new_view == CFTree::If(Box::new(CFTree::BasicBlock(pred)), Seq::<CFTree>::empty(), Seq::<CFTree>::empty()));
        }
        content.replace(&pred_selector, new_element);
    }
    let ghost t1 = content@;
    proof {
        if promote {
            lemma_set_at_same_path(t0, pred_selector@, new_view);
            lemma_set_at_blocks(t0, pred_selector@, new_view);
            let new_if = new_view;
            assert(list_blocks(Seq::<CFTree>::empty()) =~= Multiset::empty());
            assert(tree_blocks(new_if) =~= Multiset::singleton(pred));
            assert forall|v: usize| #[trigger] tree_blocks(t1).count(v) == tree_blocks(t0).count(v) by {
                assert(tree_blocks(t1).add(tree_blocks(CFTree::BasicBlock(pred))).count(v)
                    == tree_blocks(t0).add(tree_blocks(new_if)).count(v));
            }
            assert(tree_blocks(t1) =~= tree_blocks(t0));
            if t0 is Block {
                lemma_set_at_keeps_block(t0, pred_selector@, new_view);
            }
            assert forall|i: int| 0 <= i < to_move@.len() implies #[trigger] t1.leads_somewhere(to_move@[i]@) by {
                assert(t0.leads_somewhere(to_move@[i]@));
                assert(!related(pred_selector@, to_move@[i]@));
                lemma_set_at_unrelated(t0, pred_selector@, to_move@[i]@, new_if);
            }
        } else {
            assert(pred_selector@ =~= if_selector@.push(CFSelectorSegment::IfCondition));
            lemma_select_push(t0, if_selector@, CFSelectorSegment::IfCondition);
        }
    }
    proof {
        let x = t1.select(if_selector@)->0;
        assert(x is If);
        assert(x->If_0 == Box::new(CFTree::BasicBlock(pred)));
        assert(CFTree::BasicBlock(pred).has_first());
        assert(CFTree::BasicBlock(pred).first_id() == pred);
        assert(x.has_first());
        assert(x.first_id() == pred);
        assert(facts.branch_direction@[pred as int]@.len() == facts.n());
    }
    let predecessor_node_id = content.index(&if_selector).first_basic_block_id();
    let on_success = facts.branch_direction[predecessor_node_id][block_id];
    proof {
        assert(sibling(block_selector@, 0) =~= block_selector@);
        assert(to_move@[0]@ == block_selector@);
    }
    proof {
        let ps = pred_selector@;
        let bs = block_selector@;
        assert(predecessor_node_id == pred);
        assert(!some_move_blocked(ps, if_selector@, bs, move_count(*facts, t0, bs))) by {
            assert forall|q: int| 0 <= q < move_count(*facts, t0, bs) implies !#[trigger] move_blocked(ps, if_selector@, bs, q) by {
                assert(to_move@[q]@ == sibling(bs, q as nat));
            }
        }
        assert(t1 == (if promote {
            t0.set_at(ps, CFTree::If(Box::new(CFTree::BasicBlock(pred)), Seq::empty(), Seq::empty()))
        } else {
            t0
        }));
    }
    move_into_branch(content, &if_selector, &to_move, on_success);
    true
}

/// What trying block `b` makes of `t`: where `b` has one predecessor, that predecessor ends
/// with a branch and is not `b` itself, and both stand in `t`, the fold of `b` into that branch;
/// `None` otherwise, or where that fold is refused.
pub open spec fn fold_attempt(t: CFTree, facts: FoldFacts, b: int) -> Option<CFTree> {
    let preds = facts.preds(b);
    if preds.len() == 1 && facts.ends_with_branch@[preds[0] as int] && preds[0] != b {
        match (t.find(preds[0]), t.find(b as usize)) {
            (Some(ps), Some(bs)) => fold_at_result(t, facts, preds[0], b as usize, ps, bs),
            _ => None,
        }
    } else {
        None
    }
}

/// The first fold that succeeds, trying the blocks from `b` on in order of their ids.
pub open spec fn fold_once_from(t: CFTree, facts: FoldFacts, b: int) -> Option<CFTree>
    decreases facts.n() - b,
{
    if b < 0 || b >= facts.n() {
        None
    } else {
        match fold_attempt(t, facts, b) {
            Some(r) => Some(r),
            None => fold_once_from(t, facts, b + 1),
        }
    }
}

/// Folds one block into the branch that ends its only predecessor, together with the elements
/// after it that it dominates on the same side of that branch: the predecessor becomes the
/// condition of an `if` where it is not one already. The blocks are tried in order of their
/// ids, and the first fold that succeeds is made. Returns whether a block was folded; where
/// none was, `content` is unchanged. No block is lost or duplicated.
pub fn fold_if_else_once(content: &mut ControlFlowElement, facts: &FoldFacts) -> (res: bool)
    requires
        facts.wf(),
        old(content)@.nonempty_lists(),
        ids_below(old(content)@, facts.n()),
    ensures
        res == fold_once_from(old(content)@, *facts, 0) is Some,
        res ==> final(content)@ == fold_once_from(old(content)@, *facts, 0)->0,
        !res ==> final(content)@ == old(content)@,
        tree_blocks(final(content)@) == tree_blocks(old(content)@),
        old(content)@ is Block ==> final(content)@ is Block,
{
    let ghost t0 = content@;
    let n = facts.predecessors.len();
    let mut block_id: usize = 0;
    while block_id < n
        invariant
            content@ == t0,
            old(content)@ == t0,
            facts.wf(),
            n == facts.n(),
            block_id <= n,
            t0.nonempty_lists(),
            ids_below(t0, n as nat),
            fold_once_from(t0, *facts, 0) == fold_once_from(t0, *facts, block_id as int),
        decreases n - block_id,
    {
        let ghost b = block_id as int;
        let mut folded = false;
        if facts.predecessors[block_id].len() == 1 {
            let pred = facts.predecessors[block_id][0];
            if facts.ends_with_branch[pred] && pred != block_id {
                let pred_found = content.find_node(pred);
                let block_found = content.find_node(block_id);
                match (pred_found, block_found) {
                    (Some(pred_selector), Some(block_selector)) => {
                        proof {
                            crate::control_flow::element::lemma_find_node_leads_to_block(*content, pred);
                            crate::control_flow::element::lemma_find_node_leads_to_block(*content, block_id);
                        }
                        folded = fold_at(content, facts, pred, block_id, pred_selector, block_selector);
                    },
                    _ => {},
                }
            }
        }
        if folded {
            return true;
        }
        proof {
            assert(fold_attempt(t0, *facts, b) is None);
            assert(fold_once_from(t0, *facts, b) == fold_once_from(t0, *facts, b + 1));
        }
        block_id = block_id + 1;
    }
    false
}

/// Folds an `if` into `content`, where a block can be folded; the analysis of the function
/// does not change between attempts, so one attempt decides.
pub fn fold_if_else(facts: &FoldFacts, content: &mut ControlFlowElement) -> (res: bool)
    requires
        facts.wf(),
        old(content)@.nonempty_lists(),
        ids_below(old(content)@, facts.n()),
    ensures
        res == fold_once_from(old(content)@, *facts, 0) is Some,
        res ==> final(content)@ == fold_once_from(old(content)@, *facts, 0)->0,
        !res ==> final(content)@ == old(content)@,
        tree_blocks(final(content)@) == tree_blocks(old(content)@),
        old(content)@ is Block ==> final(content)@ is Block,
{
    fold_if_else_once(content, facts)
}

/// The blocks `0..n`, each once.
pub open spec fn block_range(n: nat) -> Multiset<usize>
    decreases n,
{
    if n == 0 {
        Multiset::empty()
    } else {
        block_range((n - 1) as nat).insert((n - 1) as usize)
    }
}

/// The blocks `0..n` are all below `n`.
proof fn lemma_block_range(n: nat)
    requires
        n <= usize::MAX + 1,
    ensures
        forall|v: usize| #[trigger] block_range(n).count(v) > 0 ==> v < n,
    decreases n,
{
    if n > 0 {
        lemma_block_range((n - 1) as nat);
        assert forall|v: usize| #[trigger] block_range(n).count(v) > 0 implies v < n by {
            assert(block_range(n).count(v) == block_range((n - 1) as nat).count(v)
                + Multiset::singleton((n - 1) as usize).count(v));
        }
    }
}

/// The basic blocks `0..n`, in order.
pub open spec fn initial_blocks(n: nat) -> Seq<CFTree> {
    Seq::new(n, |i: int| CFTree::BasicBlock(i as usize))
}

/// The blocks of a function folded into structured control flow: the basic blocks in order of
/// their ids, with the components inside `root_scc` folded into loops, then, where there is a
/// block, the first `if` fold that succeeds made on the block that holds them.
pub open spec fn folded(root_scc: Scc, facts: FoldFacts) -> Seq<CFTree> {
    let looped = folded_loops(root_scc, initial_blocks(facts.n()));
    if facts.n() > 0 {
        match fold_once_from(CFTree::Block(looped), facts, 0) {
            Some(CFTree::Block(c)) => c,
            _ => looped,
        }
    } else {
        looped
    }
}

/// The basic blocks `0..n` of a function folded into structured control flow: loops from the
/// strongly connected components inside `root_scc`, then an `if` from the branches. Every block
/// occurs exactly once in the result.
pub fn fold(root_scc: &Scc, facts: &FoldFacts) -> (res: Vec<ControlFlowElement>)
    requires
        facts.wf(),
    ensures
        views(res@) == folded(*root_scc, *facts),
        list_blocks(views(res@)) == block_range(facts.n()),
{
    let n = facts.predecessors.len();
    let mut current_result: Vec<ControlFlowElement> = Vec::new();
    let mut i: usize = 0;
    while i < n
        invariant
            i <= n,
            current_result@.len() == i,
            list_blocks(views(current_result@)) == block_range(i as nat),
            views(current_result@) == initial_blocks(i as nat),
            all_nonempty_lists(current_result@),
        decreases n - i,
    {
        let ghost before = current_result@;
        let node = ControlFlowElement::new_node(i);
        current_result.push(node);
        proof {
            lemma_views_push(before, node);
            lemma_list_blocks_push(views(before), node@);
            assert(tree_blocks(node@) =~= Multiset::singleton(i));
            assert(views(current_result@) =~= initial_blocks((i + 1) as nat));
        }
        i = i + 1;
    }
    let ghost initial = current_result@;
    let mut content = ControlFlowElement::new_block(current_result);
    let list = content.unwrap_content_mut();
    proof {
        lemma_views(list@);
        lemma_views(initial);
        assert forall|k: int| 0 <= k < list@.len() implies (#[trigger] list@[k])@.nonempty_lists() by {
            assert(views(list@)[k] == views(initial)[k]);
            assert(initial[k]@.nonempty_lists());
        }
    }
    fold_loop(root_scc, list);
    proof {
        lemma_block_range(n as nat);
        assert(tree_blocks(content@) == list_blocks(views(list@)));
        if n > 0 {
            lemma_views(list@);
            lemma_list_nonempty_lists(views(list@));
            assert forall|k: int| 0 <= k < views(list@).len() implies #[trigger] views(list@)[k].nonempty_lists() by {
                assert(list@[k]@.nonempty_lists());
            }
            assert(content@ == CFTree::Block(views(list@)));
            assert(content@.nonempty_lists());
        }
    }
    let ghost looped = views(list@);
    proof {
        assert(looped == folded_loops(*root_scc, initial_blocks(n as nat)));
        assert(content@ == CFTree::Block(looped));
    }
    if n > 0 {
        fold_if_else(facts, &mut content);
    }
    match content {
        ControlFlowElement::Block { content } => content,
        _ => {
            proof {
                assert(false);
            }
            Vec::new()
        },
    }
}

} // verus!
