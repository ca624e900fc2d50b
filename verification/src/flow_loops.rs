//! Folding the loops that the control flow analysis of a function finds into a list of control
//! flow items.
use vstd::prelude::*;
use vstd::multiset::Multiset;

use crate::flow::{ControlFlow, ControlFlowContent, FlowTree, items_view, lemma_items_view, lemma_items_view_add, lemma_items_view_subrange};

verus! {

broadcast use vstd::std_specs::vec::group_vec_axioms, vstd::multiset::group_multiset_axioms;

/// A loop as the control flow analysis of a function reports it.
#[derive(Debug)]
pub struct Loop {
    /// The nodes through which the loop is entered.
    pub entries: Vec<usize>,
    /// The nodes and the loops inside this loop.
    pub content: Vec<LoopContent>,
    /// How many nodes the loop holds, those of the loops inside it included.
    pub node_count: usize,
}

/// A node or a loop inside a loop.
#[derive(Debug)]
pub enum LoopContent {
    Node(usize),
    SubLoop(Box<Loop>),
}

/// The position of the first item of `list` that is node `n`.
pub open spec fn node_position(list: Seq<FlowTree>, n: usize) -> Option<int>
    decreases list.len(),
{
    if list.len() == 0 {
        None
    } else {
        match node_position(list.drop_last(), n) {
            Some(i) => Some(i),
            None => if list.last() == FlowTree::Node(n) {
                Some(list.len() - 1)
            } else {
                None
            },
        }
    }
}

/// `list` with `l` folded into one loop: the items from the first entry of `l` on, as many as
/// `l` has nodes, become a loop, once the loops inside `l` are folded among them. `None` where
/// `l` has no entry, its first entry is no item of `list`, or the list ends before that many
/// items, or a loop inside `l` cannot be folded.
pub open spec fn loop_folded(list: Seq<FlowTree>, l: Loop) -> Option<Seq<FlowTree>>
    decreases l, 1nat, 0nat,
{
    if l.entries@.len() == 0 {
        None
    } else {
        match node_position(list, l.entries@[0]) {
            None => None,
            Some(s) => if s + l.node_count > list.len() {
                None
            } else {
                match sub_loops_folded(l, list.subrange(s, s + l.node_count), l.content@.len()) {
                    Some(inner) => Some(list.subrange(0, s).push(FlowTree::Loop(inner))
                        + list.subrange(s + l.node_count, list.len() as int)),
                    None => None,
                }
            },
        }
    }
}

/// `list` with the loops among the first `k` items inside `l` folded, one after the other.
pub open spec fn sub_loops_folded(l: Loop, list: Seq<FlowTree>, k: nat) -> Option<Seq<FlowTree>>
    decreases l, 0nat, k,
{
    if k == 0 || k > l.content@.len() {
        Some(list)
    } else {
        match sub_loops_folded(l, list, (k - 1) as nat) {
            None => None,
            Some(prev) => match l.content@[k - 1] {
                LoopContent::SubLoop(sub) => {
                    proof {
                        assert(decreases_to!(l => l.content));
                        assert(decreases_to!(l.content => l.content@));
                        assert(decreases_to!(l.content@ => l.content@[k - 1]));
                    }
                    loop_folded(prev, *sub)
                },
                LoopContent::Node(_) => Some(prev),
            },
        }
    }
}

/// Once folding a loop inside fails, folding more of them fails too.
proof fn lemma_sub_loops_none_stays(l: Loop, list: Seq<FlowTree>, k: nat, m: nat)
    requires
        k <= m <= l.content@.len(),
        sub_loops_folded(l, list, k) is None,
    ensures
        sub_loops_folded(l, list, m) is None,
    decreases m - k,
{
    if k < m {
        lemma_sub_loops_none_stays(l, list, k + 1, m);
    }
}

/// Where a prefix of `list` holds node `n`, `list` holds it at the same place first.
proof fn lemma_node_position_prefix(list: Seq<FlowTree>, n: usize, k: nat)
    requires
        k <= list.len(),
        node_position(list.take(k as int), n) is Some,
    ensures
        node_position(list, n) == node_position(list.take(k as int), n),
    decreases list.len() - k,
{
    if k < list.len() {
        assert(list.take((k + 1) as int).drop_last() =~= list.take(k as int));
        lemma_node_position_prefix(list, n, k + 1);
    } else {
        assert(list.take(k as int) =~= list);
    }
}

/// A position of node `n` is a position in `list`.
proof fn lemma_node_position_in(list: Seq<FlowTree>, n: usize)
    ensures
        node_position(list, n) matches Some(i) ==> 0 <= i < list.len(),
    decreases list.len(),
{
    if list.len() > 0 {
        lemma_node_position_in(list.drop_last(), n);
    }
}

/// The nodes of each item of `list`, together, each as often as it occurs.
pub open spec fn items_nodes(list: Seq<FlowTree>) -> Multiset<usize>
    decreases list,
{
    if list.len() == 0 {
        Multiset::empty()
    } else {
        items_nodes(list.drop_last()).add(flow_nodes(list.last()))
    }
}

/// The nodes of an item, each as often as it occurs.
pub open spec fn flow_nodes(t: FlowTree) -> Multiset<usize>
    decreases t,
{
    match t {
        FlowTree::Block(content) => items_nodes(content),
        FlowTree::BrIf(_) => Multiset::empty(),
        FlowTree::If(on_success, on_failure) => items_nodes(on_success).add(match on_failure {
            Some(f) => items_nodes(f),
            None => Multiset::empty(),
        }),
        FlowTree::Loop(content) => items_nodes(content),
        FlowTree::Node(n) => Multiset::singleton(n),
    }
}

/// The nodes of two lists joined are the nodes of each.
proof fn lemma_items_nodes_add(a: Seq<FlowTree>, b: Seq<FlowTree>)
    ensures
        items_nodes(a + b) == items_nodes(a).add(items_nodes(b)),
    decreases b.len(),
{
    if b.len() == 0 {
        assert(a + b =~= a);
        assert(items_nodes(a).add(items_nodes(b)) =~= items_nodes(a));
    } else {
        assert((a + b).drop_last() =~= a + b.drop_last());
        assert((a + b).last() == b.last());
        lemma_items_nodes_add(a, b.drop_last());
        assert(items_nodes(a + b) =~= items_nodes(a).add(items_nodes(b)));
    }
}

/// Folding a loop neither loses nor duplicates a node: the nodes of the list are those it had.
pub proof fn lemma_loop_folded_keeps_nodes(list: Seq<FlowTree>, l: Loop)
    requires
        loop_folded(list, l) is Some,
    ensures
        items_nodes(loop_folded(list, l)->0) == items_nodes(list),
    decreases l, 1nat, 0nat,
{
    lemma_node_position_in(list, l.entries@[0]);
    let s = node_position(list, l.entries@[0])->0;
    let e = s + l.node_count;
    assert(0 <= s <= e <= list.len());
    let head = list.subrange(0, s);
    let middle = list.subrange(s, e);
    let tail = list.subrange(e, list.len() as int);
    lemma_sub_loops_folded_keeps_nodes(l, middle, l.content@.len());
    let inner = sub_loops_folded(l, middle, l.content@.len())->0;
    assert(list =~= head + middle + tail);
    lemma_items_nodes_add(head + middle, tail);
    lemma_items_nodes_add(head, middle);
    assert(head.push(FlowTree::Loop(inner)) =~= head + seq![FlowTree::Loop(inner)]);
    lemma_items_nodes_add(head.push(FlowTree::Loop(inner)), tail);
    lemma_items_nodes_add(head, seq![FlowTree::Loop(inner)]);
    let single = seq![FlowTree::Loop(inner)];
    assert(single.drop_last() =~= Seq::<FlowTree>::empty());
    assert(single.last() == FlowTree::Loop(inner));
    assert(items_nodes(Seq::<FlowTree>::empty()) == Multiset::<usize>::empty());
    assert(flow_nodes(FlowTree::Loop(inner)) == items_nodes(inner));
    assert(items_nodes(single) == items_nodes(single.drop_last()).add(flow_nodes(single.last())));
    assert(items_nodes(single) =~= items_nodes(inner));
    assert(items_nodes(loop_folded(list, l)->0) =~= items_nodes(list));
}

/// Folding the loops inside a loop neither loses nor duplicates a node.
pub proof fn lemma_sub_loops_folded_keeps_nodes(l: Loop, list: Seq<FlowTree>, k: nat)
    requires
        sub_loops_folded(l, list, k) is Some,
    ensures
        items_nodes(sub_loops_folded(l, list, k)->0) == items_nodes(list),
    decreases l, 0nat, k,
{
    if k == 0 || k > l.content@.len() {
    } else {
        lemma_sub_loops_folded_keeps_nodes(l, list, (k - 1) as nat);
        let prev = sub_loops_folded(l, list, (k - 1) as nat)->0;
        match l.content@[k - 1] {
            LoopContent::SubLoop(sub) => {
                assert(decreases_to!(l => l.content));
                assert(decreases_to!(l.content => l.content@));
                assert(decreases_to!(l.content@ => l.content@[k - 1]));
                lemma_loop_folded_keeps_nodes(prev, *sub);
            },
            LoopContent::Node(_) => {},
        }
    }
}

/// The position of the first item of `list` that is node `n`.
fn position_of_node(list: &Vec<ControlFlowContent>, n: usize) -> (res: Option<usize>)
    ensures
        match res {
            Some(i) => node_position(items_view(list@), n) == Some(i as int),
            None => node_position(items_view(list@), n) is None,
        },
{
    let ghost whole = items_view(list@);
    proof {
        lemma_items_view(list@);
    }
    let mut i: usize = 0;
    while i < list.len()
        invariant
            i <= list@.len(),
            whole == items_view(list@),
            whole.len() == list@.len(),
            forall|j: int| 0 <= j < list@.len() ==> #[trigger] whole[j] == list@[j]@,
            node_position(whole.take(i as int), n) is None,
        decreases list@.len() - i,
    {
        assert(whole.take((i + 1) as int).drop_last() =~= whole.take(i as int));
        let hit = match &list[i] {
            ControlFlowContent::Node(x) => *x == n,
            _ => false,
        };
        assert(hit == (whole[i as int] == FlowTree::Node(n)));
        if hit {
            proof {
                lemma_node_position_prefix(whole, n, (i + 1) as nat);
            }
            return Some(i);
        }
        i = i + 1;
    }
    assert(whole.take(i as int) =~= whole);
    None
}

/// Folds `loop_item` into one loop item of `current`: the items from its first entry on, as
/// many as it has nodes, once the loops inside it are folded among them.
pub fn fold_loop(current: &mut Vec<ControlFlowContent>, loop_item: &Loop)
    requires
        loop_folded(items_view(old(current)@), *loop_item) is Some,
    ensures
        items_view(final(current)@) == loop_folded(items_view(old(current)@), *loop_item)->0,
    decreases loop_item, 1nat,
{
    let ghost list = items_view(current@);
    let ghost before = current@;
    let entry = loop_item.entries[0];
    let found = position_of_node(current, entry);
    proof {
        lemma_node_position_in(list, entry);
        lemma_items_view(current@);
    }
    let start = match found {
        Some(s) => s,
        None => {
            proof {
                assert(false);
            }
            return;
        },
    };
    assert(node_position(list, entry) == Some(start as int));
    assert(start + loop_item.node_count <= list.len());
    assert(list.len() == current@.len());
    assert(current@.len() == current.len());
    let end = start + loop_item.node_count;
    let mut tail = current.split_off(end);
    let mut removed = current.split_off(start);
    let ghost head = current@;
    let ghost old_tail = tail@;
    proof {
        assert(before =~= head + removed@ + old_tail);
        assert(removed@ =~= before.subrange(start as int, end as int));
        assert(head =~= before.subrange(0, start as int));
        assert(old_tail =~= before.subrange(end as int, before.len() as int));
        lemma_items_view_subrange(before, start as int, end as int);
        lemma_items_view_subrange(before, 0, start as int);
        lemma_items_view_subrange(before, end as int, before.len() as int);
    }
    fold_all_loops(loop_item, &mut removed);
    let ghost inner = items_view(removed@);
    let looped = ControlFlowContent::Loop(Box::new(ControlFlow { content: removed }));
    current.push(looped);
    current.append(&mut tail);
    proof {
        assert(current@ =~= head.push(looped) + old_tail);
        lemma_items_view_add(head.push(looped), old_tail);
        lemma_items_view_add(head, seq![looped]);
        assert(head.push(looped) =~= head + seq![looped]);
        lemma_items_view(seq![looped]);
        assert(items_view(seq![looped]) =~= seq![FlowTree::Loop(inner)]);
        assert(items_view(head) + seq![FlowTree::Loop(inner)] =~= items_view(head).push(FlowTree::Loop(inner)));
    }
}

/// Folds the loops inside `loops` into `initial`, one after the other.
pub fn fold_all_loops(loops: &Loop, initial: &mut Vec<ControlFlowContent>)
    requires
        sub_loops_folded(*loops, items_view(old(initial)@), loops.content@.len()) is Some,
    ensures
        items_view(final(initial)@) == sub_loops_folded(*loops, items_view(old(initial)@), loops.content@.len())->0,
    decreases loops, 0nat,
{
    let ghost start = items_view(initial@);
    let mut k: usize = 0;
    while k < loops.content.len()
        invariant
            k <= loops.content@.len(),
            sub_loops_folded(*loops, start, loops.content@.len()) is Some,
            sub_loops_folded(*loops, start, k as nat) == Some(items_view(initial@)),
        decreases loops.content@.len() - k,
    {
        proof {
            if sub_loops_folded(*loops, start, (k + 1) as nat) is None {
                lemma_sub_loops_none_stays(*loops, start, (k + 1) as nat, loops.content@.len());
            }
        }
        match &loops.content[k] {
            LoopContent::SubLoop(sub) => {
                assert(decreases_to!(loops => loops.content));
                assert(decreases_to!(loops.content => loops.content@));
                assert(decreases_to!(loops.content@ => loops.content@[k as int]));
                fold_loop(initial, sub);
            },
            LoopContent::Node(_) => {},
        }
        k = k + 1;
    }
}

} // verus!
