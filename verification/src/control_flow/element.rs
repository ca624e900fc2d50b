//! A tree of structured control flow and its operations through selectors.
use vstd::prelude::*;

use super::selector::{CFSelector, CFSelectorSegment};

verus! {

broadcast use vstd::std_specs::vec::group_vec_axioms;

/// An element of structured control flow.
#[derive(Debug, PartialEq, Eq)]
pub enum ControlFlowElement {
    Block { content: Vec<ControlFlowElement> },
    If {
        condition: Box<ControlFlowElement>,
        on_success: Vec<ControlFlowElement>,
        on_failure: Vec<ControlFlowElement>,
    },
    Loop { content: Vec<ControlFlowElement> },
    BasicBlock { id: usize },
}

/// The mathematical form of a [`ControlFlowElement`].
#[verifier::ext_equal]
pub enum CFTree {
    Block(Seq<CFTree>),
    If(Box<CFTree>, Seq<CFTree>, Seq<CFTree>),
    Loop(Seq<CFTree>),
    BasicBlock(usize),
}

/// The mathematical form of each element of a list.
pub open spec fn views(list: Seq<ControlFlowElement>) -> Seq<CFTree>
    decreases list,
{
    if list.len() == 0 {
        Seq::empty()
    } else {
        views(list.drop_last()).push(list.last().view())
    }
}

impl View for ControlFlowElement {
    type V = CFTree;

    open spec fn view(&self) -> CFTree
        decreases self,
    {
        match self {
            ControlFlowElement::Block { content } => CFTree::Block(views(content@)),
            ControlFlowElement::If { condition, on_success, on_failure } => CFTree::If(
                Box::new(ControlFlowElement::view(condition)),
                views(on_success@),
                views(on_failure@),
            ),
            ControlFlowElement::Loop { content } => CFTree::Loop(views(content@)),
            ControlFlowElement::BasicBlock { id } => CFTree::BasicBlock(*id),
        }
    }
}

/// The views of a list are the views of its elements, in order.
pub proof fn lemma_views(list: Seq<ControlFlowElement>)
    ensures
        views(list).len() == list.len(),
        forall|i: int| 0 <= i < list.len() ==> #[trigger] views(list)[i] == list[i]@,
    decreases list.len(),
{
    if list.len() > 0 {
        lemma_views(list.drop_last());
        assert(views(list) == views(list.drop_last()).push(list.last().view()));
        assert forall|i: int| 0 <= i < list.len() implies #[trigger] views(list)[i] == list[i]@ by {
            if i < list.len() - 1 {
                assert(list.drop_last()[i] == list[i]);
            }
        }
    } else {
        assert(views(list) == Seq::<CFTree>::empty());
    }
}

/// A list whose elements have the given views has them as its views.
pub proof fn lemma_views_eq(a: Seq<ControlFlowElement>, b: Seq<CFTree>)
    requires
        a.len() == b.len(),
        forall|i: int| 0 <= i < a.len() ==> #[trigger] b[i] == a[i]@,
    ensures
        views(a) == b,
{
    lemma_views(a);
    assert(views(a) =~= b);
}

/// The views of a list with one element replaced.
pub proof fn lemma_views_update(list: Seq<ControlFlowElement>, i: int, e: ControlFlowElement)
    requires
        0 <= i < list.len(),
    ensures
        views(list.update(i, e)) == views(list).update(i, e@),
{
    lemma_views(list);
    lemma_views_eq(list.update(i, e), views(list).update(i, e@));
}

/// The views of a list with one element taken out.
pub proof fn lemma_views_remove(list: Seq<ControlFlowElement>, i: int)
    requires
        0 <= i < list.len(),
    ensures
        views(list.remove(i)) == views(list).remove(i),
{
    lemma_views(list);
    lemma_views_eq(list.remove(i), views(list).remove(i));
}

/// The views of a list with one element pushed.
pub proof fn lemma_views_push(list: Seq<ControlFlowElement>, e: ControlFlowElement)
    ensures
        views(list.push(e)) == views(list).push(e@),
{
    lemma_views(list);
    lemma_views_eq(list.push(e), views(list).push(e@));
}

/// The views of two lists one after the other.
pub proof fn lemma_views_add(a: Seq<ControlFlowElement>, b: Seq<ControlFlowElement>)
    ensures
        views(a + b) == views(a) + views(b),
{
    lemma_views(a);
    lemma_views(b);
    lemma_views_eq(a + b, views(a) + views(b));
}

/// The element at `i` of `list`, if there is one.
pub open spec fn list_get(list: Seq<CFTree>, i: usize) -> Option<CFTree> {
    if i < list.len() {
        Some(list[i as int])
    } else {
        None
    }
}

/// The position of the first element of `list` that holds basic block `id`, and the path to it
/// inside that element.
pub open spec fn first_found(list: Seq<CFTree>, id: usize) -> Option<(int, Seq<CFSelectorSegment>)>
    decreases list,
{
    if list.len() == 0 {
        None
    } else {
        match first_found(list.drop_last(), id) {
            Some(r) => Some(r),
            None => match list.last().find(id) {
                Some(p) => Some((list.len() - 1, p)),
                None => None,
            },
        }
    }
}

impl CFTree {
    /// Whether `segment` names a kind of child that this element has.
    pub open spec fn segment_fits(self, segment: CFSelectorSegment) -> bool {
        match (self, segment) {
            (CFTree::Block(_), CFSelectorSegment::ContentAtIndex(_)) => true,
            (CFTree::Loop(_), CFSelectorSegment::ContentAtIndex(_)) => true,
            (CFTree::If(..), CFSelectorSegment::IfCondition) => true,
            (CFTree::If(..), CFSelectorSegment::IndexInSuccess(_)) => true,
            (CFTree::If(..), CFSelectorSegment::IndexInFailure(_)) => true,
            _ => false,
        }
    }

    /// The child named by `segment`, if there is one.
    pub open spec fn child(self, segment: CFSelectorSegment) -> Option<CFTree> {
        match (self, segment) {
            (CFTree::Block(content), CFSelectorSegment::ContentAtIndex(i)) => list_get(content, i),
            (CFTree::Loop(content), CFSelectorSegment::ContentAtIndex(i)) => list_get(content, i),
            (CFTree::If(condition, _, _), CFSelectorSegment::IfCondition) => Some(*condition),
            (CFTree::If(_, on_success, _), CFSelectorSegment::IndexInSuccess(i)) => list_get(on_success, i),
            (CFTree::If(_, _, on_failure), CFSelectorSegment::IndexInFailure(i)) => list_get(on_failure, i),
            _ => None,
        }
    }

    /// This element with the child named by `segment` replaced by `new_child`.
    pub open spec fn with_child(self, segment: CFSelectorSegment, new_child: CFTree) -> CFTree {
        match (self, segment) {
            (CFTree::Block(content), CFSelectorSegment::ContentAtIndex(i)) => CFTree::Block(content.update(i as int, new_child)),
            (CFTree::Loop(content), CFSelectorSegment::ContentAtIndex(i)) => CFTree::Loop(content.update(i as int, new_child)),
            (CFTree::If(_, on_success, on_failure), CFSelectorSegment::IfCondition) => CFTree::If(Box::new(new_child), on_success, on_failure),
            (CFTree::If(condition, on_success, on_failure), CFSelectorSegment::IndexInSuccess(i)) => CFTree::If(condition, on_success.update(i as int, new_child), on_failure),
            (CFTree::If(condition, on_success, on_failure), CFSelectorSegment::IndexInFailure(i)) => CFTree::If(condition, on_success, on_failure.update(i as int, new_child)),
            _ => self,
        }
    }

    /// This element with the child named by `segment` taken out of its list.
    pub open spec fn without_child(self, segment: CFSelectorSegment) -> CFTree {
        match (self, segment) {
            (CFTree::Block(content), CFSelectorSegment::ContentAtIndex(i)) => CFTree::Block(content.remove(i as int)),
            (CFTree::Loop(content), CFSelectorSegment::ContentAtIndex(i)) => CFTree::Loop(content.remove(i as int)),
            (CFTree::If(condition, on_success, on_failure), CFSelectorSegment::IndexInSuccess(i)) => CFTree::If(condition, on_success.remove(i as int), on_failure),
            (CFTree::If(condition, on_success, on_failure), CFSelectorSegment::IndexInFailure(i)) => CFTree::If(condition, on_success, on_failure.remove(i as int)),
            _ => self,
        }
    }

    /// The element that `selector` leads to, if there is one.
    pub open spec fn select(self, selector: Seq<CFSelectorSegment>) -> Option<CFTree>
        decreases selector.len(),
    {
        if selector.len() == 0 {
            Some(self)
        } else {
            match self.child(selector[0]) {
                Some(c) => c.select(selector.drop_first()),
                None => None,
            }
        }
    }

    /// Following `selector` never meets a segment that names a kind of child the element at
    /// hand does not have.
    pub open spec fn can_select(self, selector: Seq<CFSelectorSegment>) -> bool
        decreases selector.len(),
    {
        selector.len() == 0 || (self.segment_fits(selector[0]) && match self.child(selector[0]) {
            Some(c) => c.can_select(selector.drop_first()),
            None => true,
        })
    }

    /// `selector` can be followed and leads to an element.
    pub open spec fn leads_somewhere(self, selector: Seq<CFSelectorSegment>) -> bool {
        self.can_select(selector) && self.select(selector) is Some
    }

    /// This element with the element at `selector` replaced by `new_element`.
    pub open spec fn set_at(self, selector: Seq<CFSelectorSegment>, new_element: CFTree) -> CFTree
        decreases selector.len(),
    {
        if selector.len() == 0 {
            new_element
        } else {
            match self.child(selector[0]) {
                Some(c) => self.with_child(selector[0], c.set_at(selector.drop_first(), new_element)),
                None => self,
            }
        }
    }

    /// Whether the id of the first basic block is defined: every block or loop on the way to
    /// it has content.
    pub open spec fn has_first(self) -> bool
        decreases self,
    {
        match self {
            CFTree::Block(content) => content.len() > 0 && content[0].has_first(),
            CFTree::Loop(content) => content.len() > 0 && content[0].has_first(),
            CFTree::If(condition, _, _) => condition.has_first(),
            CFTree::BasicBlock(_) => true,
        }
    }

    /// The id of the first basic block in this element.
    pub open spec fn first_id(self) -> usize
        decreases self,
    {
        match self {
            CFTree::Block(content) => if content.len() > 0 { content[0].first_id() } else { 0 },
            CFTree::Loop(content) => if content.len() > 0 { content[0].first_id() } else { 0 },
            CFTree::If(condition, _, _) => condition.first_id(),
            CFTree::BasicBlock(id) => id,
        }
    }

    /// The selector of the first basic block, stopping at the condition of an `if`.
    pub open spec fn first_selector(self) -> Seq<CFSelectorSegment>
        decreases self,
    {
        match self {
            CFTree::Block(content) => if content.len() > 0 {
                seq![CFSelectorSegment::ContentAtIndex(0)] + content[0].first_selector()
            } else {
                Seq::empty()
            },
            CFTree::Loop(content) => if content.len() > 0 {
                seq![CFSelectorSegment::ContentAtIndex(0)] + content[0].first_selector()
            } else {
                Seq::empty()
            },
            CFTree::If(..) => seq![CFSelectorSegment::IfCondition],
            CFTree::BasicBlock(_) => Seq::empty(),
        }
    }

    /// Whether `selector` addresses an element, where the condition of an `if` is addressed only
    /// as a whole.
    pub open spec fn spec_exists(self, selector: Seq<CFSelectorSegment>) -> bool
        decreases selector.len(),
    {
        if selector.len() == 0 {
            true
        } else {
            match (self, selector[0]) {
                (CFTree::BasicBlock(_), _) => false,
                (CFTree::If(..), CFSelectorSegment::IfCondition) => selector.len() == 1,
                _ => match self.child(selector[0]) {
                    Some(c) => c.spec_exists(selector.drop_first()),
                    None => false,
                },
            }
        }
    }

    /// Checking whether `selector` exists never meets a segment that names a list the element
    /// at hand does not have.
    pub open spec fn can_check_exists(self, selector: Seq<CFSelectorSegment>) -> bool
        decreases selector.len(),
    {
        if selector.len() == 0 {
            true
        } else {
            match (self, selector[0]) {
                (CFTree::BasicBlock(_), _) => true,
                (CFTree::If(..), CFSelectorSegment::IfCondition) => true,
                _ => self.segment_fits(selector[0]) && match self.child(selector[0]) {
                    Some(c) => c.can_check_exists(selector.drop_first()),
                    None => true,
                },
            }
        }
    }

    /// The path to basic block `id`: found in the condition first, then in the lists in order.
    pub open spec fn find(self, id: usize) -> Option<Seq<CFSelectorSegment>>
        decreases self,
    {
        match self {
            CFTree::BasicBlock(x) => if x == id { Some(Seq::empty()) } else { None },
            CFTree::Block(content) => match first_found(content, id) {
                Some((i, p)) => Some(seq![CFSelectorSegment::ContentAtIndex(i as usize)] + p),
                None => None,
            },
            CFTree::Loop(content) => match first_found(content, id) {
                Some((i, p)) => Some(seq![CFSelectorSegment::ContentAtIndex(i as usize)] + p),
                None => None,
            },
            CFTree::If(condition, on_success, on_failure) => match condition.find(id) {
                Some(p) => Some(seq![CFSelectorSegment::IfCondition] + p),
                None => match first_found(on_success, id) {
                    Some((i, p)) => Some(seq![CFSelectorSegment::IndexInSuccess(i as usize)] + p),
                    None => match first_found(on_failure, id) {
                        Some((i, p)) => Some(seq![CFSelectorSegment::IndexInFailure(i as usize)] + p),
                        None => None,
                    },
                },
            },
        }
    }
}

impl CFTree {
    /// Whether the selector of the first basic block is defined: every block or loop on the
    /// way to it, up to the first `if`, has content.
    pub open spec fn has_first_selector(self) -> bool
        decreases self,
    {
        match self {
            CFTree::Block(content) => content.len() > 0 && content[0].has_first_selector(),
            CFTree::Loop(content) => content.len() > 0 && content[0].has_first_selector(),
            _ => true,
        }
    }
}

impl ControlFlowElement {
    /// A basic block.
    pub fn new_node(index: usize) -> (res: Self)
        ensures
            res@ == CFTree::BasicBlock(index),
    {
        Self::BasicBlock { id: index }
    }

    /// A block holding `content`.
    pub fn new_block(content: Vec<ControlFlowElement>) -> (res: Self)
        ensures
            res@ == CFTree::Block(views(content@)),
    {
        Self::Block { content }
    }

    /// The id of the first basic block in this element.
    pub fn first_basic_block_id(&self) -> (res: usize)
        requires
            self@.has_first(),
        ensures
            res == self@.first_id(),
        decreases self,
    {
        match self {
            ControlFlowElement::Block { content } => {
                proof {
                    lemma_views(content@);
                    assert(decreases_to!(*self => self->Block_content));
                    assert(decreases_to!(self->Block_content => content[0]));
                }
                content[0].first_basic_block_id()
            },
            ControlFlowElement::If { condition, .. } => condition.first_basic_block_id(),
            ControlFlowElement::Loop { content } => {
                proof {
                    lemma_views(content@);
                    assert(decreases_to!(*self => self->Loop_content));
                    assert(decreases_to!(self->Loop_content => content[0]));
                }
                content[0].first_basic_block_id()
            },
            ControlFlowElement::BasicBlock { id: node_id } => *node_id,
        }
    }

    /// The selector of the first basic block, stopping at the condition of an `if`.
    pub fn first_basic_block_selector(&self) -> (res: CFSelector)
        requires
            self@.has_first_selector(),
        ensures
            res@ == self@.first_selector(),
        decreases self,
    {
        match self {
            ControlFlowElement::Block { content } => {
                proof {
                    lemma_views(content@);
                    assert(decreases_to!(*self => self->Block_content));
                    assert(decreases_to!(self->Block_content => content[0]));
                }
                let mut result = content[0].first_basic_block_selector();
                result.push_front(CFSelectorSegment::ContentAtIndex(0));
                result
            },
            ControlFlowElement::Loop { content } => {
                proof {
                    lemma_views(content@);
                    assert(decreases_to!(*self => self->Loop_content));
                    assert(decreases_to!(self->Loop_content => content[0]));
                }
                let mut result = content[0].first_basic_block_selector();
                result.push_front(CFSelectorSegment::ContentAtIndex(0));
                result
            },
            ControlFlowElement::If { .. } => CFSelector::from_segment(CFSelectorSegment::IfCondition),
            ControlFlowElement::BasicBlock { .. } => CFSelector::new_empty(),
        }
    }

    /// The child named by `segment`, if there is one.
    fn select_by_segment(&self, segment: CFSelectorSegment) -> (res: Option<&ControlFlowElement>)
        requires
            self@.segment_fits(segment),
        ensures
            res is Some <==> self@.child(segment) is Some,
            res is Some ==> res->0@ == self@.child(segment)->0,
    {
        proof {
            self.lemma_view_lists();
        }
        match (self, segment) {
            (ControlFlowElement::Block { content }, CFSelectorSegment::ContentAtIndex(index))
            | (ControlFlowElement::Loop { content }, CFSelectorSegment::ContentAtIndex(index)) => {
                if index < content.len() {
                    Some(&content[index])
                } else {
                    None
                }
            },
            (ControlFlowElement::If { condition, .. }, CFSelectorSegment::IfCondition) => {
                Some(&**condition)
            },
            (ControlFlowElement::If { on_success, .. }, CFSelectorSegment::IndexInSuccess(index)) => {
                if index < on_success.len() {
                    Some(&on_success[index])
                } else {
                    None
                }
            },
            (ControlFlowElement::If { on_failure, .. }, CFSelectorSegment::IndexInFailure(index)) => {
                if index < on_failure.len() {
                    Some(&on_failure[index])
                } else {
                    None
                }
            },
            _ => None,
        }
    }

    /// The lists of an element are the views of its vectors.
    proof fn lemma_view_lists(&self)
        ensures
            match self {
                ControlFlowElement::Block { content } => views(content@).len() == content@.len()
                    && forall|i: int| 0 <= i < content@.len() ==> #[trigger] views(content@)[i] == content@[i]@,
                ControlFlowElement::Loop { content } => views(content@).len() == content@.len()
                    && forall|i: int| 0 <= i < content@.len() ==> #[trigger] views(content@)[i] == content@[i]@,
                ControlFlowElement::If { on_success, on_failure, .. } => views(on_success@).len() == on_success@.len()
                    && views(on_failure@).len() == on_failure@.len()
                    && (forall|i: int| 0 <= i < on_success@.len() ==> #[trigger] views(on_success@)[i] == on_success@[i]@)
                    && (forall|i: int| 0 <= i < on_failure@.len() ==> #[trigger] views(on_failure@)[i] == on_failure@[i]@),
                ControlFlowElement::BasicBlock { .. } => true,
            },
    {
        match self {
            ControlFlowElement::Block { content } => lemma_views(content@),
            ControlFlowElement::Loop { content } => lemma_views(content@),
            ControlFlowElement::If { on_success, on_failure, .. } => {
                lemma_views(on_success@);
                lemma_views(on_failure@);
            },
            ControlFlowElement::BasicBlock { .. } => {},
        }
    }

    /// The element that `index[pos..]` leads to.
    fn get_from(&self, index: &CFSelector, pos: usize) -> (res: Option<&ControlFlowElement>)
        requires
            pos <= index@.len(),
            self@.can_select(index@.skip(pos as int)),
        ensures
            res is Some <==> self@.select(index@.skip(pos as int)) is Some,
            res is Some ==> res->0@ == self@.select(index@.skip(pos as int))->0,
        decreases index@.len() - pos,
    {
        if pos == index.len() {
            assert(index@.skip(pos as int).len() == 0);
            Some(self)
        } else {
            let first = index.segment_at(pos);
            let ghost rest = index@.skip(pos as int);
            assert(rest[0] == first);
            assert(rest.drop_first() =~= index@.skip(pos + 1));
            match self.select_by_segment(first) {
                Some(c) => c.get_from(index, pos + 1),
                None => None,
            }
        }
    }

    /// The element that `index` leads to, if there is one.
    pub fn get(&self, index: &CFSelector) -> (res: Option<&ControlFlowElement>)
        requires
            self@.can_select(index@),
        ensures
            res is Some <==> self@.select(index@) is Some,
            res is Some ==> res->0@ == self@.select(index@)->0,
    {
        assert(index@.skip(0) =~= index@);
        self.get_from(index, 0)
    }

    /// The element that `index` leads to.
    pub fn index(&self, index: &CFSelector) -> (res: &ControlFlowElement)
        requires
            self@.leads_somewhere(index@),
        ensures
            res@ == self@.select(index@)->0,
    {
        self.get(index).unwrap()
    }

    /// The id of a basic block.
    pub fn unwrap_node(&self) -> (res: usize)
        requires
            self@ is BasicBlock,
        ensures
            self@ == CFTree::BasicBlock(res),
    {
        if let Self::BasicBlock { id: node_id } = self {
            *node_id
        } else {
            0
        }
    }

    /// The content of a block.
    pub fn block_content(&self) -> (res: Option<&Vec<ControlFlowElement>>)
        ensures
            self@ is Block <==> res is Some,
            res is Some ==> self@ == CFTree::Block(views(res->0@)),
    {
        if let ControlFlowElement::Block { content } = self {
            Some(content)
        } else {
            None
        }
    }
}

impl ControlFlowElement {
    /// The child named by `segment`, for changing it in place.
    fn select_mut_by_segment(&mut self, segment: CFSelectorSegment) -> (res: &mut ControlFlowElement)
        requires
            old(self)@.segment_fits(segment),
            old(self)@.child(segment) is Some,
        ensures
            res@ == old(self)@.child(segment)->0,
            final(self)@ == old(self)@.with_child(segment, final(res)@),
    {
        proof {
            self.lemma_view_lists();
        }
        match (self, segment) {
            (ControlFlowElement::Block { content }, CFSelectorSegment::ContentAtIndex(index)) => {
                let ghost before = content@;
                let r = &mut content[index];
                proof {
                    lemma_views_update(before, index as int, *final(r));
                }
                r
            },
            (ControlFlowElement::Loop { content }, CFSelectorSegment::ContentAtIndex(index)) => {
                let ghost before = content@;
                let r = &mut content[index];
                proof {
                    lemma_views_update(before, index as int, *final(r));
                }
                r
            },
            (ControlFlowElement::If { condition, .. }, CFSelectorSegment::IfCondition) => {
                &mut **condition
            },
            (ControlFlowElement::If { on_success, .. }, CFSelectorSegment::IndexInSuccess(index)) => {
                let ghost before = on_success@;
                let r = &mut on_success[index];
                proof {
                    lemma_views_update(before, index as int, *final(r));
                }
                r
            },
            (ControlFlowElement::If { on_failure, .. }, CFSelectorSegment::IndexInFailure(index)) => {
                let ghost before = on_failure@;
                let r = &mut on_failure[index];
                proof {
                    lemma_views_update(before, index as int, *final(r));
                }
                r
            },
            (this, _) => vstd::pervasive::unreached(),
        }
    }
}

/// Following `p` and then `last` is following `p.push(last)`.
pub proof fn lemma_select_push(t: CFTree, p: Seq<CFSelectorSegment>, last: CFSelectorSegment)
    ensures
        t.select(p.push(last)) == (match t.select(p) {
            Some(x) => x.child(last),
            None => None,
        }),
        t.can_select(p.push(last)) == (t.can_select(p) && match t.select(p) {
            Some(x) => x.segment_fits(last),
            None => true,
        }),
    decreases p.len(),
{
    let s = p.push(last);
    if p.len() == 0 {
        assert(s.drop_first() =~= Seq::<CFSelectorSegment>::empty());
        assert(s[0] == last);
        assert(t.select(p) == Some(t));
        assert(t.can_select(p));
        match t.child(last) {
            Some(c) => {
                assert(c.select(s.drop_first()) == Some(c));
                assert(c.can_select(s.drop_first()));
            },
            None => {},
        }
    } else {
        assert(s.drop_first() =~= p.drop_first().push(last));
        assert(s[0] == p[0]);
        match t.child(p[0]) {
            Some(c) => lemma_select_push(c, p.drop_first(), last),
            None => {},
        }
    }
}

/// Replacing the element at `p.push(last)` is replacing, in the element at `p`, its child
/// named by `last`.
pub proof fn lemma_set_at_push(t: CFTree, p: Seq<CFSelectorSegment>, last: CFSelectorSegment, x: CFTree)
    requires
        t.select(p) is Some,
        t.select(p)->0.child(last) is Some,
    ensures
        t.set_at(p.push(last), x) == t.set_at(p, t.select(p)->0.with_child(last, x)),
    decreases p.len(),
{
    let s = p.push(last);
    if p.len() == 0 {
        assert(s.drop_first() =~= Seq::<CFSelectorSegment>::empty());
        assert(s[0] == last);
        assert(t.select(p) == Some(t));
        let c = t.child(last)->0;
        assert(c.set_at(s.drop_first(), x) == x);
        assert(t.set_at(p, t.with_child(last, x)) == t.with_child(last, x));
    } else {
        assert(s.drop_first() =~= p.drop_first().push(last));
        assert(s[0] == p[0]);
        let c = t.child(p[0])->0;
        lemma_set_at_push(c, p.drop_first(), last, x);
    }
}

/// Every element of `list` fits in `usize` lists, and so does `list` itself.
pub open spec fn all_fit(list: Seq<CFTree>) -> bool
    decreases list,
{
    list.len() <= usize::MAX && (list.len() == 0 || (all_fit(list.drop_last()) && list.last().fits_usize()))
}

/// Some element of `list` holds basic block `id`.
pub open spec fn any_contains(list: Seq<CFTree>, id: usize) -> bool
    decreases list,
{
    list.len() > 0 && (any_contains(list.drop_last(), id) || list.last().contains_node(id))
}

impl CFTree {
    /// Every list in this element has at most `usize::MAX` elements.
    pub open spec fn fits_usize(self) -> bool
        decreases self,
    {
        match self {
            CFTree::Block(content) => all_fit(content),
            CFTree::Loop(content) => all_fit(content),
            CFTree::If(condition, on_success, on_failure) => condition.fits_usize() && all_fit(on_success) && all_fit(on_failure),
            CFTree::BasicBlock(_) => true,
        }
    }

    /// Whether basic block `id` occurs in this element.
    pub open spec fn contains_node(self, id: usize) -> bool
        decreases self,
    {
        match self {
            CFTree::Block(content) => any_contains(content, id),
            CFTree::Loop(content) => any_contains(content, id),
            CFTree::If(condition, on_success, on_failure) => condition.contains_node(id)
                || any_contains(on_success, id) || any_contains(on_failure, id),
            CFTree::BasicBlock(x) => x == id,
        }
    }
}

/// `all_fit` checks every element.
pub proof fn lemma_all_fit(list: Seq<CFTree>)
    ensures
        all_fit(list) <==> (list.len() <= usize::MAX && forall|i: int| 0 <= i < list.len() ==> #[trigger] list[i].fits_usize()),
    decreases list.len(),
{
    if list.len() > 0 {
        let d = list.drop_last();
        lemma_all_fit(d);
        assert forall|i: int| 0 <= i < list.len() - 1 implies d[i] == list[i] by {}
        assert(all_fit(list) == (list.len() <= usize::MAX && all_fit(d) && list.last().fits_usize()));
        if all_fit(list) {
            assert forall|i: int| 0 <= i < list.len() implies #[trigger] list[i].fits_usize() by {
                if i < list.len() - 1 {
                    assert(d[i].fits_usize());
                } else {
                    assert(list[i] == list.last());
                }
            }
        }
        if list.len() <= usize::MAX && forall|i: int| 0 <= i < list.len() ==> #[trigger] list[i].fits_usize() {
            assert(list[list.len() - 1].fits_usize());
            assert forall|i: int| 0 <= i < d.len() implies #[trigger] d[i].fits_usize() by {
                assert(list[i].fits_usize());
            }
            assert(all_fit(d));
        }
    } else {
        assert(all_fit(list));
    }
}

/// `any_contains` looks at every element.
pub proof fn lemma_any_contains(list: Seq<CFTree>, id: usize)
    ensures
        any_contains(list, id) <==> exists|i: int| 0 <= i < list.len() && #[trigger] list[i].contains_node(id),
    decreases list.len(),
{
    if list.len() > 0 {
        lemma_any_contains(list.drop_last(), id);
        assert forall|i: int| 0 <= i < list.len() - 1 implies list.drop_last()[i] == list[i] by {}
        if exists|i: int| 0 <= i < list.len() && #[trigger] list[i].contains_node(id) {
            let i = choose|i: int| 0 <= i < list.len() && #[trigger] list[i].contains_node(id);
            if i < list.len() - 1 {
                assert(list.drop_last()[i].contains_node(id));
            }
        }
        if any_contains(list.drop_last(), id) {
            let i = choose|i: int| 0 <= i < list.drop_last().len() && #[trigger] list.drop_last()[i].contains_node(id);
            assert(list[i].contains_node(id));
        }
        if list.last().contains_node(id) {
            assert(list[list.len() - 1].contains_node(id));
        }
    }
}

/// What the search of a list finds: the first element that holds the block.
pub proof fn lemma_first_found(list: Seq<CFTree>, id: usize)
    ensures
        first_found(list, id) matches Some((i, p)) ==> 0 <= i < list.len() && list[i].find(id) == Some(p)
            && forall|j: int| 0 <= j < i ==> (#[trigger] list[j].find(id)) is None,
        first_found(list, id) is None ==> forall|j: int| 0 <= j < list.len() ==> (#[trigger] list[j].find(id)) is None,
    decreases list.len(),
{
    if list.len() > 0 {
        lemma_first_found(list.drop_last(), id);
        assert forall|j: int| 0 <= j < list.len() - 1 implies list[j] == list.drop_last()[j] by {}
    }
}

/// The search of a list prefix that finds the block is the search of the whole list.
pub proof fn lemma_first_found_prefix(list: Seq<CFTree>, id: usize, k: int)
    requires
        0 <= k <= list.len(),
        first_found(list.take(k), id) is Some,
    ensures
        first_found(list, id) == first_found(list.take(k), id),
    decreases list.len() - k,
{
    if k < list.len() {
        assert(list.take(k + 1).drop_last() =~= list.take(k));
        lemma_first_found_prefix(list, id, k + 1);
    } else {
        assert(list.take(k) =~= list);
    }
}

/// The path that `find` gives leads to the basic block; `find` gives no path exactly when the
/// block does not occur.
pub proof fn lemma_find_selects(t: CFTree, id: usize)
    requires
        t.fits_usize(),
    ensures
        t.find(id) matches Some(p) ==> t.can_select(p) && t.select(p) == Some(CFTree::BasicBlock(id)),
        t.find(id) is Some <==> t.contains_node(id),
    decreases t,
{
    match t {
        CFTree::BasicBlock(x) => {},
        CFTree::Block(content) => {
            lemma_all_fit(content);
            lemma_any_contains(content, id);
            lemma_first_found(content, id);
            lemma_find_in_list(content, id);
            lemma_first_found_contains(content, id);
            if let Some((i, p)) = first_found(content, id) {
                let s = seq![CFSelectorSegment::ContentAtIndex(i as usize)] + p;
                assert(s.drop_first() =~= p);
            }
        },
        CFTree::Loop(content) => {
            lemma_all_fit(content);
            lemma_any_contains(content, id);
            lemma_first_found(content, id);
            lemma_find_in_list(content, id);
            lemma_first_found_contains(content, id);
            if let Some((i, p)) = first_found(content, id) {
                let s = seq![CFSelectorSegment::ContentAtIndex(i as usize)] + p;
                assert(s.drop_first() =~= p);
            }
        },
        CFTree::If(condition, on_success, on_failure) => {
            lemma_find_selects(*condition, id);
            lemma_all_fit(on_success);
            lemma_all_fit(on_failure);
            lemma_any_contains(on_success, id);
            lemma_any_contains(on_failure, id);
            lemma_first_found(on_success, id);
            lemma_find_in_list(on_success, id);
            lemma_first_found(on_failure, id);
            lemma_find_in_list(on_failure, id);
            lemma_first_found_contains(on_success, id);
            lemma_first_found_contains(on_failure, id);
            if let Some(p) = condition.find(id) {
                let s = seq![CFSelectorSegment::IfCondition] + p;
                assert(s.drop_first() =~= p);
            } else if let Some((i, p)) = first_found(on_success, id) {
                let s = seq![CFSelectorSegment::IndexInSuccess(i as usize)] + p;
                assert(s.drop_first() =~= p);
            } else if let Some((i, p)) = first_found(on_failure, id) {
                let s = seq![CFSelectorSegment::IndexInFailure(i as usize)] + p;
                assert(s.drop_first() =~= p);
            }
        },
    }
}

/// A list search finds the block exactly when some element holds it.
proof fn lemma_first_found_contains(list: Seq<CFTree>, id: usize)
    requires
        forall|i: int| 0 <= i < list.len() ==> ((#[trigger] list[i].find(id)) is Some <==> list[i].contains_node(id)),
    ensures
        first_found(list, id) is Some <==> any_contains(list, id),
{
    lemma_first_found(list, id);
    lemma_any_contains(list, id);
    if any_contains(list, id) {
        let j = choose|j: int| 0 <= j < list.len() && #[trigger] list[j].contains_node(id);
        assert(list[j].find(id) is Some);
    }
    if let Some((i, p)) = first_found(list, id) {
        assert(list[i].find(id) is Some);
        assert(list[i].contains_node(id));
    }
}

/// `lemma_find_selects` for every element of a list.
proof fn lemma_find_in_list(list: Seq<CFTree>, id: usize)
    requires
        forall|i: int| 0 <= i < list.len() ==> #[trigger] list[i].fits_usize(),
    ensures
        forall|i: int| 0 <= i < list.len() ==> ((#[trigger] list[i].find(id)) matches Some(p) ==> list[i].can_select(p)
            && list[i].select(p) == Some(CFTree::BasicBlock(id))),
        forall|i: int| 0 <= i < list.len() ==> ((#[trigger] list[i].find(id)) is Some <==> list[i].contains_node(id)),
    decreases list,
{
    assert forall|i: int| 0 <= i < list.len() implies ((#[trigger] list[i].find(id)) matches Some(p) ==> list[i].can_select(p)
            && list[i].select(p) == Some(CFTree::BasicBlock(id))) && (list[i].find(id) is Some <==> list[i].contains_node(id)) by {
        lemma_find_selects(list[i], id);
    }
}

impl ControlFlowElement {
    /// The mathematical form of an element has no list longer than `usize::MAX`.
    pub proof fn lemma_fits_usize(&self)
        ensures
            self@.fits_usize(),
        decreases self,
    {
        match self {
            ControlFlowElement::Block { content } => {
                lemma_views(content@);
                assert(content.len() == content@.len());
                assert forall|i: int| 0 <= i < content@.len() implies #[trigger] views(content@)[i].fits_usize() by {
                    assert(decreases_to!(*self => self->Block_content));
                    assert(decreases_to!(self->Block_content => content[i]));
                    content[i].lemma_fits_usize();
                }
                lemma_all_fit(views(content@));
            },
            ControlFlowElement::Loop { content } => {
                lemma_views(content@);
                assert(content.len() == content@.len());
                assert forall|i: int| 0 <= i < content@.len() implies #[trigger] views(content@)[i].fits_usize() by {
                    assert(decreases_to!(*self => self->Loop_content));
                    assert(decreases_to!(self->Loop_content => content[i]));
                    content[i].lemma_fits_usize();
                }
                lemma_all_fit(views(content@));
            },
            ControlFlowElement::If { condition, on_success, on_failure } => {
                condition.lemma_fits_usize();
                lemma_views(on_success@);
                lemma_views(on_failure@);
                assert(on_success.len() == on_success@.len());
                assert(on_failure.len() == on_failure@.len());
                assert forall|i: int| 0 <= i < on_success@.len() implies #[trigger] views(on_success@)[i].fits_usize() by {
                    assert(decreases_to!(*self => self->If_on_success));
                    assert(decreases_to!(self->If_on_success => on_success[i]));
                    on_success[i].lemma_fits_usize();
                }
                lemma_all_fit(views(on_success@));
                assert forall|i: int| 0 <= i < on_failure@.len() implies #[trigger] views(on_failure@)[i].fits_usize() by {
                    assert(decreases_to!(*self => self->If_on_failure));
                    assert(decreases_to!(self->If_on_failure => on_failure[i]));
                    on_failure[i].lemma_fits_usize();
                }
                lemma_all_fit(views(on_failure@));
            },
            ControlFlowElement::BasicBlock { .. } => {},
        }
    }

    /// The element that `index[pos..]` leads to, for changing it in place.
    fn index_mut_from(&mut self, index: &CFSelector, pos: usize) -> (res: &mut ControlFlowElement)
        requires
            pos <= index@.len(),
            old(self)@.leads_somewhere(index@.skip(pos as int)),
        ensures
            res@ == old(self)@.select(index@.skip(pos as int))->0,
            final(self)@ == old(self)@.set_at(index@.skip(pos as int), final(res)@),
        decreases index@.len() - pos,
    {
        if pos == index.len() {
            assert(index@.skip(pos as int).len() == 0);
            self
        } else {
            let first = index.segment_at(pos);
            let ghost rest = index@.skip(pos as int);
            assert(rest[0] == first);
            assert(rest.drop_first() =~= index@.skip(pos + 1));
            let child = self.select_mut_by_segment(first);
            child.index_mut_from(index, pos + 1)
        }
    }

    /// The element that `index` leads to, for changing it in place.
    pub fn index_mut(&mut self, index: &CFSelector) -> (res: &mut ControlFlowElement)
        requires
            old(self)@.leads_somewhere(index@),
        ensures
            res@ == old(self)@.select(index@)->0,
            final(self)@ == old(self)@.set_at(index@, final(res)@),
    {
        assert(index@.skip(0) =~= index@);
        self.index_mut_from(index, 0)
    }

    /// Replaces the child named by `segment`.
    fn set_child(&mut self, segment: CFSelectorSegment, new_child: ControlFlowElement)
        requires
            old(self)@.segment_fits(segment),
            old(self)@.child(segment) is Some,
        ensures
            final(self)@ == old(self)@.with_child(segment, new_child@),
    {
        let child = self.select_mut_by_segment(segment);
        *child = new_child;
    }

    /// Replaces the element at `selector` by `to_element`.
    pub fn replace(&mut self, selector: &CFSelector, to_element: ControlFlowElement)
        requires
            old(self)@.leads_somewhere(selector@),
            selector@.len() > 0,
        ensures
            final(self)@ == old(self)@.set_at(selector@, to_element@),
    {
        let (parent_selector, last_segment) = selector.duplicate().split_last().unwrap();
        proof {
            assert(selector@ =~= parent_selector@.push(last_segment));
            lemma_select_push(self@, parent_selector@, last_segment);
            lemma_set_at_push(self@, parent_selector@, last_segment, to_element@);
        }
        let parent = self.index_mut(&parent_selector);
        parent.set_child(last_segment, to_element);
    }

    /// Takes the child named by `segment` out of its list.
    fn remove_child(&mut self, segment: CFSelectorSegment) -> (res: ControlFlowElement)
        requires
            old(self)@.segment_fits(segment),
            old(self)@.child(segment) is Some,
            segment != CFSelectorSegment::IfCondition,
        ensures
            res@ == old(self)@.child(segment)->0,
            final(self)@ == old(self)@.without_child(segment),
    {
        proof {
            self.lemma_view_lists();
        }
        match (self, segment) {
            (ControlFlowElement::Block { content }, CFSelectorSegment::ContentAtIndex(i)) => {
                let ghost before = content@;
                let r = content.remove(i);
                proof {
                    lemma_views_remove(before, i as int);
                }
                r
            },
            (ControlFlowElement::Loop { content }, CFSelectorSegment::ContentAtIndex(i)) => {
                let ghost before = content@;
                let r = content.remove(i);
                proof {
                    lemma_views_remove(before, i as int);
                }
                r
            },
            (ControlFlowElement::If { on_success, .. }, CFSelectorSegment::IndexInSuccess(i)) => {
                let ghost before = on_success@;
                let r = on_success.remove(i);
                proof {
                    lemma_views_remove(before, i as int);
                }
                r
            },
            (ControlFlowElement::If { on_failure, .. }, CFSelectorSegment::IndexInFailure(i)) => {
                let ghost before = on_failure@;
                let r = on_failure.remove(i);
                proof {
                    lemma_views_remove(before, i as int);
                }
                r
            },
            (this, _) => vstd::pervasive::unreached(),
        }
    }

    /// Takes the element at `element` out of the list it is in.
    pub fn remove(&mut self, element: &CFSelector) -> (res: ControlFlowElement)
        requires
            old(self)@.leads_somewhere(element@),
            element@.len() > 0,
            element@.last() != CFSelectorSegment::IfCondition,
        ensures
            res@ == old(self)@.select(element@)->0,
            final(self)@ == old(self)@.set_at(
                element@.drop_last(),
                old(self)@.select(element@.drop_last())->0.without_child(element@.last()),
            ),
    {
        let (parent_selector, last_segment) = element.duplicate().split_last().unwrap();
        proof {
            assert(element@ =~= parent_selector@.push(last_segment));
            lemma_select_push(self@, parent_selector@, last_segment);
        }
        let parent = self.index_mut(&parent_selector);
        parent.remove_child(last_segment)
    }

    /// The content of a block or a loop, for changing it in place.
    pub fn unwrap_content_mut(&mut self) -> (res: &mut Vec<ControlFlowElement>)
        requires
            old(self)@ is Block || old(self)@ is Loop,
        ensures
            old(self)@ is Block ==> old(self)@ == CFTree::Block(views(res@)) && final(self)@ == CFTree::Block(views(final(res)@)),
            old(self)@ is Loop ==> old(self)@ == CFTree::Loop(views(res@)) && final(self)@ == CFTree::Loop(views(final(res)@)),
    {
        match self {
            Self::Block { content } => content,
            Self::Loop { content } => content,
            _ => vstd::pervasive::unreached(),
        }
    }
}

/// The selector of the next element in the same list as the one `selector` addresses: its last
/// index moved one on. The condition of an `if` has no such sibling.
pub open spec fn next_in_list(selector: Seq<CFSelectorSegment>) -> Option<Seq<CFSelectorSegment>> {
    match selector.last() {
        CFSelectorSegment::ContentAtIndex(i) => Some(selector.drop_last().push(CFSelectorSegment::ContentAtIndex((i + 1) as usize))),
        CFSelectorSegment::IndexInSuccess(i) => Some(selector.drop_last().push(CFSelectorSegment::IndexInSuccess((i + 1) as usize))),
        CFSelectorSegment::IndexInFailure(i) => Some(selector.drop_last().push(CFSelectorSegment::IndexInFailure((i + 1) as usize))),
        CFSelectorSegment::IfCondition => None,
    }
}

/// The index carried by a segment that is not the condition of an `if`.
pub open spec fn segment_index(segment: CFSelectorSegment) -> usize {
    match segment {
        CFSelectorSegment::ContentAtIndex(i) => i,
        CFSelectorSegment::IndexInSuccess(i) => i,
        CFSelectorSegment::IndexInFailure(i) => i,
        CFSelectorSegment::IfCondition => 0,
    }
}

/// Two segments name the same kind of child.
pub open spec fn same_kind(a: CFSelectorSegment, b: CFSelectorSegment) -> bool {
    match (a, b) {
        (CFSelectorSegment::ContentAtIndex(_), CFSelectorSegment::ContentAtIndex(_)) => true,
        (CFSelectorSegment::IndexInSuccess(_), CFSelectorSegment::IndexInSuccess(_)) => true,
        (CFSelectorSegment::IndexInFailure(_), CFSelectorSegment::IndexInFailure(_)) => true,
        _ => false,
    }
}

/// Whether the existence of a selector can be checked depends on its last segment only through
/// the kind of child it names.
pub proof fn lemma_can_check_exists_kind(t: CFTree, p: Seq<CFSelectorSegment>, a: CFSelectorSegment, b: CFSelectorSegment)
    requires
        same_kind(a, b),
    ensures
        t.can_check_exists(p.push(a)) == t.can_check_exists(p.push(b)),
    decreases p.len(),
{
    let sa = p.push(a);
    let sb = p.push(b);
    if p.len() == 0 {
        assert(sa.drop_first() =~= Seq::<CFSelectorSegment>::empty());
        assert(sb.drop_first() =~= Seq::<CFSelectorSegment>::empty());
        assert(sa[0] == a);
        assert(sb[0] == b);
        match t.child(a) {
            Some(c) => assert(c.can_check_exists(sa.drop_first())),
            None => {},
        }
        match t.child(b) {
            Some(c) => assert(c.can_check_exists(sb.drop_first())),
            None => {},
        }
    } else {
        assert(sa.drop_first() =~= p.drop_first().push(a));
        assert(sb.drop_first() =~= p.drop_first().push(b));
        assert(sa[0] == p[0]);
        assert(sb[0] == p[0]);
        match t.child(p[0]) {
            Some(c) => lemma_can_check_exists_kind(c, p.drop_first(), a, b),
            None => {},
        }
    }
}

impl ControlFlowElement {
    /// Whether `element[pos..]` addresses an element of this one.
    fn exists_from(&self, element: &CFSelector, pos: usize) -> (res: bool)
        requires
            pos <= element@.len(),
            self@.can_check_exists(element@.skip(pos as int)),
        ensures
            res == self@.spec_exists(element@.skip(pos as int)),
        decreases element@.len() - pos,
    {
        let ghost rest = element@.skip(pos as int);
        if pos == element.len() {
            assert(rest.len() == 0);
            return true;
        }
        let first = element.segment_at(pos);
        assert(rest[0] == first);
        assert(rest.drop_first() =~= element@.skip(pos + 1));
        proof {
            self.lemma_view_lists();
        }
        let sub: Option<&ControlFlowElement> = match (self, first) {
            (ControlFlowElement::BasicBlock { .. }, _) => {
                return false;
            },
            (ControlFlowElement::If { .. }, CFSelectorSegment::IfCondition) => {
                return pos + 1 == element.len();
            },
            (ControlFlowElement::Block { content }, CFSelectorSegment::ContentAtIndex(i)) => {
                if i < content.len() { Some(&content[i]) } else { None }
            },
            (ControlFlowElement::Loop { content }, CFSelectorSegment::ContentAtIndex(i)) => {
                if i < content.len() { Some(&content[i]) } else { None }
            },
            (ControlFlowElement::If { on_success, .. }, CFSelectorSegment::IndexInSuccess(i)) => {
                if i < on_success.len() { Some(&on_success[i]) } else { None }
            },
            (ControlFlowElement::If { on_failure, .. }, CFSelectorSegment::IndexInFailure(i)) => {
                if i < on_failure.len() { Some(&on_failure[i]) } else { None }
            },
            (this, _) => vstd::pervasive::unreached(),
        };
        match sub {
            Some(c) => c.exists_from(element, pos + 1),
            None => false,
        }
    }

    /// Whether `element` addresses an element of this one.
    fn element_exists(&self, element: &CFSelector) -> (res: bool)
        requires
            self@.can_check_exists(element@),
        ensures
            res == self@.spec_exists(element@),
    {
        assert(element@.skip(0) =~= element@);
        self.exists_from(element, 0)
    }

    /// The selector of the element after the one `element` addresses in the same list, if that
    /// element exists.
    pub fn next_element_sibling(&self, element: &CFSelector) -> (res: Option<CFSelector>)
        requires
            element@.len() > 0,
            element@.last() != CFSelectorSegment::IfCondition ==> segment_index(element@.last()) < usize::MAX,
            self@.can_check_exists(element@),
        ensures
            res matches Some(s) ==> next_in_list(element@) == Some(s@) && self@.spec_exists(s@),
            res is None ==> match next_in_list(element@) {
                Some(s) => !self@.spec_exists(s),
                None => true,
            },
    {
        let mut result = element.duplicate();
        let back = result.pop_back().unwrap();
        let next = match back {
            CFSelectorSegment::ContentAtIndex(i) => CFSelectorSegment::ContentAtIndex(i + 1),
            CFSelectorSegment::IndexInSuccess(i) => CFSelectorSegment::IndexInSuccess(i + 1),
            CFSelectorSegment::IndexInFailure(i) => CFSelectorSegment::IndexInFailure(i + 1),
            CFSelectorSegment::IfCondition => {
                return None;
            },
        };
        proof {
            assert(element@ =~= element@.drop_last().push(back));
            lemma_can_check_exists_kind(self@, element@.drop_last(), back, next);
        }
        result.push_back(next);
        if self.element_exists(&result) {
            Some(result)
        } else {
            None
        }
    }

    /// The position in `list` of the first element that holds basic block `node_id`, with the
    /// path to the block inside it.
    fn find_in_list(list: &Vec<ControlFlowElement>, node_id: usize) -> (res: Option<(usize, CFSelector)>)
        ensures
            match res {
                Some((i, s)) => first_found(views(list@), node_id) == Some((i as int, s@)),
                None => first_found(views(list@), node_id) is None,
            },
        decreases list,
    {
        let ghost all = views(list@);
        proof {
            lemma_views(list@);
        }
        let mut i: usize = 0;
        while i < list.len()
            invariant
                i <= list@.len(),
                all == views(list@),
                all.len() == list@.len(),
                forall|k: int| 0 <= k < list@.len() ==> #[trigger] all[k] == list@[k]@,
                first_found(all.take(i as int), node_id) is None,
            decreases list@.len() - i,
        {
            assert(decreases_to!(list => list[i as int]));
            match list[i].find_node(node_id) {
                Some(sub) => {
                    proof {
                        let pre = all.take(i as int + 1);
                        assert(pre.drop_last() =~= all.take(i as int));
                        assert(pre.last() == list@[i as int]@);
                        assert(first_found(pre, node_id) == Some((i as int, sub@)));
                        lemma_first_found_prefix(all, node_id, i as int + 1);
                    }
                    return Some((i, sub));
                },
                None => {
                    proof {
                        let pre = all.take(i as int + 1);
                        assert(pre.drop_last() =~= all.take(i as int));
                        assert(pre.last() == list@[i as int]@);
                    }
                },
            }
            i = i + 1;
        }
        assert(all.take(i as int) =~= all);
        None
    }

    /// The path to basic block `node_id`: in a block or loop, in the first element that holds
    /// it; in an `if`, in the condition first, then in the success branch, then in the failure
    /// branch.
    pub fn find_node(&self, node_id: usize) -> (res: Option<CFSelector>)
        ensures
            match res {
                Some(s) => self@.find(node_id) == Some(s@),
                None => self@.find(node_id) is None,
            },
        decreases self,
    {
        match self {
            ControlFlowElement::BasicBlock { id: self_node_id } => {
                if *self_node_id == node_id {
                    Some(CFSelector::new_empty())
                } else {
                    None
                }
            },
            ControlFlowElement::Block { content } => {
                assert(decreases_to!(*self => self->Block_content));
                match Self::find_in_list(content, node_id) {
                    Some((i, mut sub)) => {
                        sub.push_front(CFSelectorSegment::ContentAtIndex(i));
                        Some(sub)
                    },
                    None => None,
                }
            },
            ControlFlowElement::Loop { content } => {
                assert(decreases_to!(*self => self->Loop_content));
                match Self::find_in_list(content, node_id) {
                    Some((i, mut sub)) => {
                        sub.push_front(CFSelectorSegment::ContentAtIndex(i));
                        Some(sub)
                    },
                    None => None,
                }
            },
            ControlFlowElement::If { condition, on_success, on_failure } => {
                if let Some(mut sub) = condition.find_node(node_id) {
                    sub.push_front(CFSelectorSegment::IfCondition);
                    return Some(sub);
                }
                assert(decreases_to!(*self => self->If_on_success));
                if let Some((i, mut sub)) = Self::find_in_list(on_success, node_id) {
                    sub.push_front(CFSelectorSegment::IndexInSuccess(i));
                    return Some(sub);
                }
                assert(decreases_to!(*self => self->If_on_failure));
                if let Some((i, mut sub)) = Self::find_in_list(on_failure, node_id) {
                    sub.push_front(CFSelectorSegment::IndexInFailure(i));
                    return Some(sub);
                }
                None
            },
        }
    }
}

impl ControlFlowElement {
    /// A copy of this element.
    pub fn duplicate(&self) -> (res: Self)
        ensures
            res@ == self@,
        decreases self,
    {
        match self {
            ControlFlowElement::Block { content } => {
                assert(decreases_to!(*self => self->Block_content));
                ControlFlowElement::Block { content: Self::duplicate_list(content) }
            },
            ControlFlowElement::Loop { content } => {
                assert(decreases_to!(*self => self->Loop_content));
                ControlFlowElement::Loop { content: Self::duplicate_list(content) }
            },
            ControlFlowElement::If { condition, on_success, on_failure } => {
                let c = condition.duplicate();
                assert(decreases_to!(*self => self->If_on_success));
                assert(decreases_to!(*self => self->If_on_failure));
                ControlFlowElement::If {
                    condition: Box::new(c),
                    on_success: Self::duplicate_list(on_success),
                    on_failure: Self::duplicate_list(on_failure),
                }
            },
            ControlFlowElement::BasicBlock { id } => ControlFlowElement::BasicBlock { id: *id },
        }
    }

    /// A copy of each element of `list`.
    fn duplicate_list(list: &Vec<ControlFlowElement>) -> (res: Vec<ControlFlowElement>)
        ensures
            views(res@) == views(list@),
        decreases list,
    {
        let mut result: Vec<ControlFlowElement> = Vec::new();
        let mut i: usize = 0;
        while i < list.len()
            invariant
                i <= list@.len(),
                result@.len() == i,
                forall|k: int| 0 <= k < i ==> #[trigger] result@[k]@ == list@[k]@,
            decreases list@.len() - i,
        {
            assert(decreases_to!(list => list[i as int]));
            let c = list[i].duplicate();
            result.push(c);
            i = i + 1;
        }
        proof {
            lemma_views(list@);
            lemma_views_eq(result@, views(list@));
        }
        result
    }
}

impl Clone for ControlFlowElement {
    fn clone(&self) -> (res: Self)
        ensures
            res@ == self@,
    {
        self.duplicate()
    }
}

/// The path that `find_node` gives leads to the basic block it was asked for, and it gives one
/// exactly when that block occurs in the element.
pub proof fn lemma_find_node_leads_to_block(e: ControlFlowElement, id: usize)
    ensures
        e@.find(id) matches Some(p) ==> e@.leads_somewhere(p) && e@.select(p) == Some(CFTree::BasicBlock(id)),
        e@.find(id) is Some <==> e@.contains_node(id),
{
    e.lemma_fits_usize();
    lemma_find_selects(e@, id);
}

/// Along the path to the first basic block, every block and loop has content, and the
/// condition of an `if` met on it is a basic block.
pub open spec fn first_path_plain(t: CFTree) -> bool
    decreases t,
{
    match t {
        CFTree::Block(content) => content.len() > 0 && first_path_plain(content[0]),
        CFTree::Loop(content) => content.len() > 0 && first_path_plain(content[0]),
        CFTree::If(condition, _, _) => *condition is BasicBlock,
        CFTree::BasicBlock(_) => true,
    }
}

/// The selector of the first basic block leads to the first basic block: a run of
/// `ContentAtIndex(0)` segments, ended by `IfCondition` where the first element there is an `if`.
pub proof fn lemma_first_selector_leads_to_first_block(t: CFTree)
    requires
        first_path_plain(t),
    ensures
        t.select(t.first_selector()) == Some(CFTree::BasicBlock(t.first_id())),
        forall|j: int| 0 <= j < t.first_selector().len() - 1 ==> t.first_selector()[j] == CFSelectorSegment::ContentAtIndex(0),
        t.first_selector().len() > 0 ==> (t.first_selector().last() == CFSelectorSegment::ContentAtIndex(0)
            || t.first_selector().last() == CFSelectorSegment::IfCondition),
    decreases t,
{
    match t {
        CFTree::Block(content) => {
            let c = content[0];
            lemma_first_selector_leads_to_first_block(c);
            let rest = c.first_selector();
            let sel = seq![CFSelectorSegment::ContentAtIndex(0)] + rest;
            assert(sel.drop_first() =~= rest);
            assert(t.child(CFSelectorSegment::ContentAtIndex(0)) == Some(c));
            assert(sel == t.first_selector());
            assert(sel.len() > 0 && sel[0] == CFSelectorSegment::ContentAtIndex(0));
            assert(t.select(sel) == c.select(sel.drop_first()));
            assert(t.first_id() == c.first_id());
            assert forall|j: int| 0 <= j < sel.len() - 1 implies sel[j] == CFSelectorSegment::ContentAtIndex(0) by {
                if j > 0 {
                    assert(sel[j] == rest[j - 1]);
                }
            }
            if rest.len() > 0 {
                assert(sel.last() == rest.last());
            }
        },
        CFTree::Loop(content) => {
            let c = content[0];
            lemma_first_selector_leads_to_first_block(c);
            let rest = c.first_selector();
            let sel = seq![CFSelectorSegment::ContentAtIndex(0)] + rest;
            assert(sel.drop_first() =~= rest);
            assert(t.child(CFSelectorSegment::ContentAtIndex(0)) == Some(c));
            assert(sel == t.first_selector());
            assert(sel.len() > 0 && sel[0] == CFSelectorSegment::ContentAtIndex(0));
            assert(t.select(sel) == c.select(sel.drop_first()));
            assert(t.first_id() == c.first_id());
            assert forall|j: int| 0 <= j < sel.len() - 1 implies sel[j] == CFSelectorSegment::ContentAtIndex(0) by {
                if j > 0 {
                    assert(sel[j] == rest[j - 1]);
                }
            }
            if rest.len() > 0 {
                assert(sel.last() == rest.last());
            }
        },
        CFTree::If(condition, _, _) => {
            let sel = seq![CFSelectorSegment::IfCondition];
            assert(sel.drop_first() =~= Seq::<CFSelectorSegment>::empty());
            assert(sel == t.first_selector());
            assert(t.child(CFSelectorSegment::IfCondition) == Some(*condition));
            assert(t.select(sel) == (*condition).select(sel.drop_first()));
            let id = (*condition)->BasicBlock_0;
            assert(*condition == CFTree::BasicBlock(id));
            assert(CFTree::BasicBlock(id).first_id() == id);
            assert((*condition).first_id() == id);
            assert(t.first_id() == id);
        },
        CFTree::BasicBlock(_) => {},
    }
}

/// After the element at `p` is replaced by `x`, the element at `p` is `x`.
pub proof fn lemma_select_after_set(t: CFTree, p: Seq<CFSelectorSegment>, x: CFTree)
    requires
        t.select(p) is Some,
    ensures
        t.set_at(p, x).select(p) == Some(x),
    decreases p.len(),
{
    if p.len() > 0 {
        let c = t.child(p[0])->0;
        lemma_select_after_set(c, p.drop_first(), x);
        lemma_child_after_with_child(t, p[0], c.set_at(p.drop_first(), x));
    }
}

/// After the child named by `segment` is replaced by `x`, that child is `x`.
proof fn lemma_child_after_with_child(t: CFTree, segment: CFSelectorSegment, x: CFTree)
    requires
        t.child(segment) is Some,
    ensures
        t.with_child(segment, x).child(segment) == Some(x),
{
}

} // verus!
