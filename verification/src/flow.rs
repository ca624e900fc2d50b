//! Structured control flow as nested lists of nodes, blocks, loops and `if`s.
use vstd::prelude::*;
use crate::number_text::{push_decimal_u64, push_text};
use crate::text::decimal;

verus! {

broadcast use vstd::std_specs::vec::group_vec_axioms;

/// A list of control flow items.
#[derive(PartialEq, Debug)]
pub struct ControlFlow {
    pub content: Vec<ControlFlowContent>,
}

/// An item of control flow.
#[derive(PartialEq, Debug)]
pub enum ControlFlowContent {
    Block(Box<ControlFlow>),
    BrIf(usize),
    If(Box<ControlFlow>, Option<ControlFlow>),
    Loop(Box<ControlFlow>),
    Node(usize),
}

/// How many nodes the items of `list` hold.
pub open spec fn list_node_count(list: Seq<ControlFlowContent>) -> nat
    decreases list,
{
    if list.len() == 0 {
        0
    } else {
        list_node_count(list.drop_last()) + list.last().spec_node_count()
    }
}

/// Whether some item of `list` holds `node`.
pub open spec fn list_contains(list: Seq<ControlFlowContent>, node: usize) -> bool
    decreases list,
{
    list.len() > 0 && (list_contains(list.drop_last(), node) || list.last().spec_contains(node))
}

impl ControlFlow {
    /// How many nodes this control flow holds.
    pub open spec fn spec_node_count(self) -> nat
        decreases self,
    {
        list_node_count(self.content@)
    }

    /// Whether `node` occurs in this control flow, as a node or as the target of a `br_if`.
    pub open spec fn spec_contains(self, node: usize) -> bool
        decreases self,
    {
        list_contains(self.content@, node)
    }

    /// Whether the first node is defined: the list is not empty and its first item has one.
    pub open spec fn has_first_node(self) -> bool
        decreases self,
    {
        self.content@.len() > 0 && self.content@[0].has_first_node()
    }

    /// The first node of this control flow.
    pub open spec fn spec_first_node(self) -> usize
        decreases self,
    {
        if self.content@.len() > 0 {
            self.content@[0].spec_first_node()
        } else {
            0
        }
    }
}

impl ControlFlowContent {
    /// How many nodes this item holds.
    pub open spec fn spec_node_count(self) -> nat
        decreases self,
    {
        match self {
            ControlFlowContent::Block(x) => x.spec_node_count(),
            ControlFlowContent::BrIf(_) => 0,
            ControlFlowContent::If(x, y) => x.spec_node_count() + match y {
                Some(y) => y.spec_node_count(),
                None => 0,
            },
            ControlFlowContent::Loop(x) => x.spec_node_count(),
            ControlFlowContent::Node(_) => 1,
        }
    }

    /// Whether `node` occurs in this item.
    pub open spec fn spec_contains(self, node: usize) -> bool
        decreases self,
    {
        match self {
            ControlFlowContent::Block(x) => x.spec_contains(node),
            ControlFlowContent::BrIf(x) => x == node,
            ControlFlowContent::If(x, y) => x.spec_contains(node) || match y {
                Some(y) => y.spec_contains(node),
                None => false,
            },
            ControlFlowContent::Loop(x) => x.spec_contains(node),
            ControlFlowContent::Node(x) => x == node,
        }
    }

    /// Whether the first node of this item is defined: a `br_if` has none.
    pub open spec fn has_first_node(self) -> bool
        decreases self,
    {
        match self {
            ControlFlowContent::Block(x) => x.has_first_node(),
            ControlFlowContent::BrIf(_) => false,
            ControlFlowContent::If(x, _) => x.has_first_node(),
            ControlFlowContent::Loop(x) => x.has_first_node(),
            ControlFlowContent::Node(_) => true,
        }
    }

    /// The first node of this item.
    pub open spec fn spec_first_node(self) -> usize
        decreases self,
    {
        match self {
            ControlFlowContent::Block(x) => x.spec_first_node(),
            ControlFlowContent::BrIf(_) => 0,
            ControlFlowContent::If(x, _) => x.spec_first_node(),
            ControlFlowContent::Loop(x) => x.spec_first_node(),
            ControlFlowContent::Node(x) => x,
        }
    }
}

/// The count of a list prefix grows with the prefix.
proof fn lemma_list_node_count_prefix(list: Seq<ControlFlowContent>, i: int)
    requires
        0 <= i <= list.len(),
    ensures
        list_node_count(list.take(i)) <= list_node_count(list),
    decreases list.len() - i,
{
    if i < list.len() {
        lemma_list_node_count_prefix(list, i + 1);
        assert(list.take(i + 1).drop_last() =~= list.take(i));
    } else {
        assert(list.take(i) =~= list);
    }
}

/// The node count of control flow laid one list after another is the sum of their counts: a
/// list counts the nodes of each of its items, whatever the order.
pub proof fn lemma_node_count_adds_up(a: Seq<ControlFlowContent>, b: Seq<ControlFlowContent>)
    ensures
        list_node_count(a + b) == list_node_count(a) + list_node_count(b),
    decreases b.len(),
{
    if b.len() == 0 {
        assert(a + b =~= a);
    } else {
        lemma_node_count_adds_up(a, b.drop_last());
        assert((a + b).drop_last() =~= a + b.drop_last());
        assert((a + b).last() == b.last());
    }
}

/// A control flow counts the nodes of its items one by one: for every split of its items, the
/// count is that of the items before plus that of the items after.
pub proof fn lemma_node_count_of_items(cf: ControlFlow, i: int)
    requires
        0 <= i <= cf.content@.len(),
    ensures
        cf.spec_node_count() == list_node_count(cf.content@.take(i)) + list_node_count(cf.content@.skip(i)),
{
    lemma_node_count_adds_up(cf.content@.take(i), cf.content@.skip(i));
    assert(cf.content@.take(i) + cf.content@.skip(i) =~= cf.content@);
}

impl ControlFlow {
    /// How many nodes this control flow holds.
    pub fn node_count(&self) -> (res: usize)
        requires
            self.spec_node_count() <= usize::MAX,
        ensures
            res == self.spec_node_count(),
        decreases self,
    {
        let mut total: usize = 0;
        let mut i: usize = 0;
        while i < self.content.len()
            invariant
                i <= self.content@.len(),
                list_node_count(self.content@) <= usize::MAX,
                total == list_node_count(self.content@.take(i as int)),
            decreases self.content@.len() - i,
        {
            assert(decreases_to!(self => self.content));
            assert(decreases_to!(self.content => self.content[i as int]));
            let ghost pre = self.content@.take(i as int + 1);
            proof {
                assert(pre.drop_last() =~= self.content@.take(i as int));
                lemma_list_node_count_prefix(self.content@, i as int + 1);
            }
            let c = self.content[i].node_count();
            total = total + c;
            i = i + 1;
        }
        assert(self.content@.take(i as int) =~= self.content@);
        total
    }

    /// Whether `node` occurs in this control flow.
    pub fn contains(&self, node: usize) -> (res: bool)
        ensures
            res == self.spec_contains(node),
        decreases self,
    {
        let mut i: usize = 0;
        while i < self.content.len()
            invariant
                i <= self.content@.len(),
                !list_contains(self.content@.take(i as int), node),
            decreases self.content@.len() - i,
        {
            assert(decreases_to!(self => self.content));
            assert(decreases_to!(self.content => self.content[i as int]));
            let ghost pre = self.content@.take(i as int + 1);
            assert(pre.drop_last() =~= self.content@.take(i as int));
            if self.content[i].contains(node) {
                proof {
                    lemma_list_contains_prefix(self.content@, i as int + 1, node);
                }
                return true;
            }
            i = i + 1;
        }
        assert(self.content@.take(i as int) =~= self.content@);
        false
    }

    /// The first node of this control flow.
    pub fn first_node(&self) -> (res: usize)
        requires
            self.has_first_node(),
        ensures
            res == self.spec_first_node(),
        decreases self,
    {
        assert(decreases_to!(self => self.content));
        assert(decreases_to!(self.content => self.content[0]));
        self.content[0].first_node()
    }
}

/// An item in a prefix that holds the node is an item in the whole list.
proof fn lemma_list_contains_prefix(list: Seq<ControlFlowContent>, i: int, node: usize)
    requires
        0 <= i <= list.len(),
        list_contains(list.take(i), node),
    ensures
        list_contains(list, node),
    decreases list.len() - i,
{
    if i < list.len() {
        assert(list.take(i + 1).drop_last() =~= list.take(i));
        lemma_list_contains_prefix(list, i + 1, node);
    } else {
        assert(list.take(i) =~= list);
    }
}

impl ControlFlowContent {
    /// How many nodes this item holds.
    pub fn node_count(&self) -> (res: usize)
        requires
            self.spec_node_count() <= usize::MAX,
        ensures
            res == self.spec_node_count(),
        decreases self,
    {
        match self {
            ControlFlowContent::Block(x) => x.node_count(),
            ControlFlowContent::BrIf(_) => 0,
            ControlFlowContent::If(x, y) => {
                let a = x.node_count();
                let b = match y {
                    Some(y) => y.node_count(),
                    None => 0,
                };
                a + b
            },
            ControlFlowContent::Loop(x) => x.node_count(),
            ControlFlowContent::Node(_) => 1,
        }
    }

    /// Whether `node` occurs in this item.
    pub fn contains(&self, node: usize) -> (res: bool)
        ensures
            res == self.spec_contains(node),
        decreases self,
    {
        match self {
            ControlFlowContent::Block(x) => x.contains(node),
            ControlFlowContent::BrIf(x) => *x == node,
            ControlFlowContent::If(x, y) => {
                if x.contains(node) {
                    true
                } else {
                    match y {
                        Some(y) => y.contains(node),
                        None => false,
                    }
                }
            },
            ControlFlowContent::Loop(x) => x.contains(node),
            ControlFlowContent::Node(x) => *x == node,
        }
    }

    /// The first node of this item.
    pub fn first_node(&self) -> (res: usize)
        requires
            self.has_first_node(),
        ensures
            res == self.spec_first_node(),
        decreases self,
    {
        match self {
            ControlFlowContent::Block(x) => x.first_node(),
            ControlFlowContent::BrIf(_) => 0,
            ControlFlowContent::If(x, _) => x.first_node(),
            ControlFlowContent::Loop(x) => x.first_node(),
            ControlFlowContent::Node(x) => *x,
        }
    }
}

/// How the items of `list` are shown, one after another.
pub open spec fn list_text(list: Seq<ControlFlowContent>) -> Seq<char>
    decreases list,
{
    if list.len() == 0 {
        Seq::empty()
    } else {
        list_text(list.drop_last()) + list.last().spec_text()
    }
}

impl ControlFlow {
    /// How this control flow is shown: its items one after another.
    pub open spec fn spec_text(self) -> Seq<char>
        decreases self,
    {
        list_text(self.content@)
    }

    /// Appends how this control flow is shown to `out`.
    pub fn push_text_to(&self, out: &mut String)
        ensures
            final(out)@ == old(out)@ + self.spec_text(),
        decreases self,
    {
        let ghost start = out@;
        let mut i: usize = 0;
        assert(self.content@.take(0) =~= Seq::<ControlFlowContent>::empty());
        assert(start + list_text(self.content@.take(0)) =~= start);
        while i < self.content.len()
            invariant
                i <= self.content@.len(),
                out@ == start + list_text(self.content@.take(i as int)),
            decreases self.content@.len() - i,
        {
            assert(decreases_to!(self => self.content));
            assert(decreases_to!(self.content => self.content[i as int]));
            let ghost pre = self.content@.take(i as int + 1);
            assert(pre.drop_last() =~= self.content@.take(i as int));
            self.content[i].push_text_to(out);
            assert(out@ =~= start + list_text(pre));
            i = i + 1;
        }
        assert(self.content@.take(i as int) =~= self.content@);
    }

    /// How this control flow is shown, such as `Block { 1 2 } BrIf 0`.
    pub fn debug_text(&self) -> (res: String)
        ensures
            res@ == self.spec_text(),
    {
        let mut res = String::new();
        self.push_text_to(&mut res);
        assert(res@ =~= self.spec_text());
        res
    }
}

impl ControlFlowContent {
    /// How this item is shown: a node by its number, the others by their kind and their
    /// contents in braces.
    pub open spec fn spec_text(self) -> Seq<char>
        decreases self,
    {
        match self {
            ControlFlowContent::Block(x) => "Block { "@ + x.spec_text() + "} "@,
            ControlFlowContent::BrIf(i) => "BrIf "@ + decimal(i as nat),
            ControlFlowContent::If(x, y) => "If { "@ + x.spec_text() + "} "@ + match y {
                Some(y) => "Else { "@ + y.spec_text() + "} "@,
                None => Seq::empty(),
            },
            ControlFlowContent::Loop(x) => "Loop { "@ + x.spec_text() + "} "@,
            ControlFlowContent::Node(i) => decimal(i as nat) + " "@,
        }
    }

    /// Appends how this item is shown to `out`.
    pub fn push_text_to(&self, out: &mut String)
        ensures
            final(out)@ == old(out)@ + self.spec_text(),
        decreases self,
    {
        let ghost start = out@;
        match self {
            ControlFlowContent::Block(x) => {
                push_text(out, "Block { ");
                x.push_text_to(out);
                push_text(out, "} ");
            },
            ControlFlowContent::BrIf(i) => {
                push_text(out, "BrIf ");
                push_decimal_u64(out, *i as u64);
            },
            ControlFlowContent::If(x, y) => {
                push_text(out, "If { ");
                x.push_text_to(out);
                push_text(out, "} ");
                match y {
                    Some(y) => {
                        push_text(out, "Else { ");
                        y.push_text_to(out);
                        push_text(out, "} ");
                    },
                    None => {},
                }
            },
            ControlFlowContent::Loop(x) => {
                push_text(out, "Loop { ");
                x.push_text_to(out);
                push_text(out, "} ");
            },
            ControlFlowContent::Node(i) => {
                push_decimal_u64(out, *i as u64);
                push_text(out, " ");
            },
        }
        assert(out@ =~= start + self.spec_text());
    }

    /// How this item is shown.
    pub fn debug_text(&self) -> (res: String)
        ensures
            res@ == self.spec_text(),
    {
        let mut res = String::new();
        self.push_text_to(&mut res);
        assert(res@ =~= self.spec_text());
        res
    }
}

/// The mathematical form of a control flow item: a node, a `br_if`, or a block, loop or `if`
/// with the items it holds.
#[verifier::ext_equal]
pub enum FlowTree {
    Block(Seq<FlowTree>),
    BrIf(usize),
    If(Seq<FlowTree>, Option<Seq<FlowTree>>),
    Loop(Seq<FlowTree>),
    Node(usize),
}

/// The mathematical form of each item of a list.
pub open spec fn items_view(list: Seq<ControlFlowContent>) -> Seq<FlowTree>
    decreases list,
{
    if list.len() == 0 {
        Seq::empty()
    } else {
        items_view(list.drop_last()).push(list.last().view())
    }
}

impl View for ControlFlow {
    type V = Seq<FlowTree>;

    open spec fn view(&self) -> Seq<FlowTree>
        decreases self,
    {
        items_view(self.content@)
    }
}

impl View for ControlFlowContent {
    type V = FlowTree;

    open spec fn view(&self) -> FlowTree
        decreases self,
    {
        match self {
            ControlFlowContent::Block(x) => FlowTree::Block(ControlFlow::view(x)),
            ControlFlowContent::BrIf(i) => FlowTree::BrIf(*i),
            ControlFlowContent::If(x, y) => FlowTree::If(ControlFlow::view(x), match y {
                Some(y) => Some(ControlFlow::view(y)),
                None => None,
            }),
            ControlFlowContent::Loop(x) => FlowTree::Loop(ControlFlow::view(x)),
            ControlFlowContent::Node(i) => FlowTree::Node(*i),
        }
    }
}

/// The forms of a list are the forms of its items, in order.
pub proof fn lemma_items_view(list: Seq<ControlFlowContent>)
    ensures
        items_view(list).len() == list.len(),
        forall|i: int| 0 <= i < list.len() ==> #[trigger] items_view(list)[i] == list[i]@,
    decreases list.len(),
{
    if list.len() > 0 {
        lemma_items_view(list.drop_last());
        assert(items_view(list) == items_view(list.drop_last()).push(list.last().view()));
        assert forall|i: int| 0 <= i < list.len() implies #[trigger] items_view(list)[i] == list[i]@ by {
            if i < list.len() - 1 {
                assert(list.drop_last()[i] == list[i]);
            }
        }
    } else {
        assert(items_view(list) == Seq::<FlowTree>::empty());
    }
}

/// Lists whose items have the given forms have those forms.
pub proof fn lemma_items_view_eq(a: Seq<ControlFlowContent>, b: Seq<FlowTree>)
    requires
        a.len() == b.len(),
        forall|i: int| 0 <= i < a.len() ==> #[trigger] b[i] == a[i]@,
    ensures
        items_view(a) == b,
{
    lemma_items_view(a);
    assert(items_view(a) =~= b);
}

/// The forms of two lists one after the other.
pub proof fn lemma_items_view_add(a: Seq<ControlFlowContent>, b: Seq<ControlFlowContent>)
    ensures
        items_view(a + b) == items_view(a) + items_view(b),
{
    lemma_items_view(a);
    lemma_items_view(b);
    lemma_items_view_eq(a + b, items_view(a) + items_view(b));
}

/// The forms of a part of a list.
pub proof fn lemma_items_view_subrange(a: Seq<ControlFlowContent>, i: int, j: int)
    requires
        0 <= i <= j <= a.len(),
    ensures
        items_view(a.subrange(i, j)) == items_view(a).subrange(i, j),
{
    lemma_items_view(a);
    lemma_items_view_eq(a.subrange(i, j), items_view(a).subrange(i, j));
}

} // verus!
