//! Selectors: paths that address an element inside a tree of structured control flow.
use std::collections::VecDeque;
use vstd::prelude::*;

use crate::text::{lemma_decimal_roundtrip, string_push, chars_of, decimal, parse_usize, push_decimal, spec_parse_usize, IntErrorKind};

verus! {

broadcast use vstd::std_specs::vecdeque::group_vec_dequeue_axioms;

/// One step of a [`CFSelector`].
#[derive(Clone, Copy, Debug, PartialEq, Eq, Structural)]
pub enum CFSelectorSegment {
    /// The element at an index of a block's or a loop's content.
    ContentAtIndex(usize),
    /// The condition of an `if`.
    IfCondition,
    /// The element at an index of the success branch of an `if`.
    IndexInSuccess(usize),
    /// The element at an index of the failure branch of an `if`.
    IndexInFailure(usize),
}

/// `a` comes strictly before `b` in the partial order of segments.
pub open spec fn segment_precedes(a: CFSelectorSegment, b: CFSelectorSegment) -> bool {
    match (a, b) {
        (CFSelectorSegment::ContentAtIndex(i), CFSelectorSegment::ContentAtIndex(j)) => i < j,
        (CFSelectorSegment::IndexInSuccess(i), CFSelectorSegment::IndexInSuccess(j)) => i < j,
        (CFSelectorSegment::IndexInFailure(i), CFSelectorSegment::IndexInFailure(j)) => i < j,
        (CFSelectorSegment::IfCondition, CFSelectorSegment::IndexInSuccess(_)) => true,
        (CFSelectorSegment::IfCondition, CFSelectorSegment::IndexInFailure(_)) => true,
        (CFSelectorSegment::IndexInSuccess(_), CFSelectorSegment::IndexInFailure(_)) => true,
        _ => false,
    }
}

/// The text `if_condition`.
pub open spec fn if_condition_text() -> Seq<char> {
    seq!['i', 'f', '_', 'c', 'o', 'n', 'd', 'i', 't', 'i', 'o', 'n']
}

/// The text `success->`.
pub open spec fn success_prefix() -> Seq<char> {
    seq!['s', 'u', 'c', 'c', 'e', 's', 's', '-', '>']
}

/// The text `failure->`.
pub open spec fn failure_prefix() -> Seq<char> {
    seq!['f', 'a', 'i', 'l', 'u', 'r', 'e', '-', '>']
}

/// The textual form of a segment.
pub open spec fn segment_text(segment: CFSelectorSegment) -> Seq<char> {
    match segment {
        CFSelectorSegment::ContentAtIndex(i) => decimal(i as nat),
        CFSelectorSegment::IfCondition => if_condition_text(),
        CFSelectorSegment::IndexInSuccess(i) => success_prefix() + decimal(i as nat),
        CFSelectorSegment::IndexInFailure(i) => failure_prefix() + decimal(i as nat),
    }
}

/// Whether `prefix` is a prefix of `s`.
pub open spec fn has_prefix(s: Seq<char>, prefix: Seq<char>) -> bool {
    prefix.len() <= s.len() && s.take(prefix.len() as int) == prefix
}

/// How a segment is read from its textual form.
pub open spec fn spec_parse_segment(s: Seq<char>) -> Result<CFSelectorSegment, IntErrorKind> {
    if s == if_condition_text() {
        Ok(CFSelectorSegment::IfCondition)
    } else if has_prefix(s, success_prefix()) {
        match spec_parse_usize(s.skip(9)) {
            Ok(i) => Ok(CFSelectorSegment::IndexInSuccess(i)),
            Err(e) => Err(e),
        }
    } else if has_prefix(s, failure_prefix()) {
        match spec_parse_usize(s.skip(9)) {
            Ok(i) => Ok(CFSelectorSegment::IndexInFailure(i)),
            Err(e) => Err(e),
        }
    } else {
        match spec_parse_usize(s) {
            Ok(i) => Ok(CFSelectorSegment::ContentAtIndex(i)),
            Err(e) => Err(e),
        }
    }
}

/// Whether `s[start..end]` equals the characters of `text`.
fn range_equals(s: &Vec<char>, start: usize, end: usize, text: &str) -> (res: bool)
    requires
        start <= end <= s@.len(),
    ensures
        res == (s@.subrange(start as int, end as int) == text@),
{
    let t = chars_of(text);
    if end - start != t.len() {
        return false;
    }
    let mut i: usize = 0;
    while i < t.len()
        invariant
            start <= end <= s@.len(),
            end - start == t@.len(),
            t@ == text@,
            i <= t@.len(),
            forall|j: int| 0 <= j < i ==> s@[start + j] == t@[j],
        decreases t@.len() - i,
    {
        if s[start + i] != t[i] {
            assert(s@.subrange(start as int, end as int)[i as int] != t@[i as int]);
            return false;
        }
        i = i + 1;
    }
    assert(s@.subrange(start as int, end as int) =~= t@);
    true
}

/// Whether `s[start..end]` starts with the characters of `text`.
fn range_has_prefix(s: &Vec<char>, start: usize, end: usize, text: &str) -> (res: bool)
    requires
        start <= end <= s@.len(),
    ensures
        res == has_prefix(s@.subrange(start as int, end as int), text@),
{
    let n = text.unicode_len();
    if end - start < n {
        return false;
    }
    let r = range_equals(s, start, start + n, text);
    assert(s@.subrange(start as int, end as int).take(n as int) =~= s@.subrange(
        start as int,
        start + n,
    ));
    r
}

impl CFSelectorSegment {
    /// Reads a segment from `s[start..end]`.
    pub fn parse_range(s: &Vec<char>, start: usize, end: usize) -> (res: Result<
        CFSelectorSegment,
        IntErrorKind,
    >)
        requires
            start <= end <= s@.len(),
        ensures
            res == spec_parse_segment(s@.subrange(start as int, end as int)),
    {
        let ghost t = s@.subrange(start as int, end as int);
        proof {
            reveal_strlit("if_condition");
            reveal_strlit("success->");
            reveal_strlit("failure->");
        }
        if range_equals(s, start, end, "if_condition") {
            assert("if_condition"@ == if_condition_text());
            Ok(CFSelectorSegment::IfCondition)
        } else if range_has_prefix(s, start, end, "success->") {
            assert("success->"@ == success_prefix());
            assert(t.skip(9) =~= s@.subrange(start + 9, end as int));
            match parse_usize(s, start + 9, end) {
                Ok(i) => Ok(CFSelectorSegment::IndexInSuccess(i)),
                Err(e) => Err(e),
            }
        } else if range_has_prefix(s, start, end, "failure->") {
            assert("failure->"@ == failure_prefix());
            assert(t.skip(9) =~= s@.subrange(start + 9, end as int));
            match parse_usize(s, start + 9, end) {
                Ok(i) => Ok(CFSelectorSegment::IndexInFailure(i)),
                Err(e) => Err(e),
            }
        } else {
            assert("if_condition"@ == if_condition_text());
            assert("success->"@ == success_prefix());
            assert("failure->"@ == failure_prefix());
            match parse_usize(s, start, end) {
                Ok(i) => Ok(CFSelectorSegment::ContentAtIndex(i)),
                Err(e) => Err(e),
            }
        }
    }

    /// Reads a segment from its textual form.
    pub fn parse(s: &str) -> (res: Result<CFSelectorSegment, IntErrorKind>)
        ensures
            res == spec_parse_segment(s@),
    {
        let chars = chars_of(s);
        assert(chars@.subrange(0, chars@.len() as int) == chars@);
        Self::parse_range(&chars, 0, chars.len())
    }

    /// Appends the textual form of this segment to `out`.
    pub fn write_to(&self, out: &mut String)
        ensures
            final(out)@ == old(out)@ + segment_text(*self),
    {
        proof {
            reveal_strlit("if_condition");
            reveal_strlit("success->");
            reveal_strlit("failure->");
        }
        match self {
            CFSelectorSegment::ContentAtIndex(index) => push_decimal(out, *index),
            CFSelectorSegment::IfCondition => {
                out.append("if_condition");
            },
            CFSelectorSegment::IndexInSuccess(index) => {
                out.append("success->");
                push_decimal(out, *index);
                assert(out@ == old(out)@ + segment_text(*self));
            },
            CFSelectorSegment::IndexInFailure(index) => {
                out.append("failure->");
                push_decimal(out, *index);
                assert(out@ == old(out)@ + segment_text(*self));
            },
        }
    }

    /// The textual form of this segment.
    pub fn to_string(&self) -> (res: String)
        ensures
            res@ == segment_text(*self),
    {
        let mut out = String::new();
        self.write_to(&mut out);
        out
    }
}


/// A path from the root of a control flow tree to one of its elements.
#[derive(Clone, Debug, Default, PartialEq, Eq)]
pub struct CFSelector(VecDeque<CFSelectorSegment>);

impl View for CFSelector {
    type V = Seq<CFSelectorSegment>;

    closed spec fn view(&self) -> Seq<CFSelectorSegment> {
        self.0@
    }
}

/// `n` is the length of the longest common prefix of `a` and `b`.
pub open spec fn is_common_prefix_len(a: Seq<CFSelectorSegment>, b: Seq<CFSelectorSegment>, n: nat) -> bool {
    &&& n <= a.len()
    &&& n <= b.len()
    &&& forall|j: int| 0 <= j < n ==> a[j] == b[j]
    &&& (n == a.len() || n == b.len() || a[n as int] != b[n as int])
}

/// The length of the longest common prefix of `a` and `b`.
pub open spec fn common_prefix_len(a: Seq<CFSelectorSegment>, b: Seq<CFSelectorSegment>) -> nat
    decreases a.len(),
{
    if a.len() == 0 || b.len() == 0 || a[0] != b[0] {
        0
    } else {
        1 + common_prefix_len(a.drop_first(), b.drop_first())
    }
}

/// The longest common prefix is the only length with the prefix property.
pub proof fn lemma_common_prefix_len(a: Seq<CFSelectorSegment>, b: Seq<CFSelectorSegment>, n: nat)
    ensures
        is_common_prefix_len(a, b, common_prefix_len(a, b)),
        is_common_prefix_len(a, b, n) ==> n == common_prefix_len(a, b),
    decreases a.len(),
{
    if a.len() == 0 || b.len() == 0 || a[0] != b[0] {
    } else {
        if n > 0 {
            lemma_common_prefix_len(a.drop_first(), b.drop_first(), (n - 1) as nat);
            if is_common_prefix_len(a, b, n) {
                assert(is_common_prefix_len(a.drop_first(), b.drop_first(), (n - 1) as nat)) by {
                    assert forall|j: int| 0 <= j < n - 1 implies a.drop_first()[j]
                        == b.drop_first()[j] by {
                        assert(a[j + 1] == b[j + 1]);
                    }
                }
            }
        } else {
            lemma_common_prefix_len(a.drop_first(), b.drop_first(), 0);
        }
        let m = common_prefix_len(a.drop_first(), b.drop_first());
        assert forall|j: int| 0 <= j < m + 1 implies a[j] == b[j] by {
            if j > 0 {
                assert(a.drop_first()[j - 1] == b.drop_first()[j - 1]);
            }
        }
    }
}

/// The number of segments of `s` that step into the content of a block or a loop.
pub open spec fn count_content(s: Seq<CFSelectorSegment>) -> nat
    decreases s.len(),
{
    if s.len() == 0 {
        0
    } else {
        count_content(s.drop_last()) + if s.last() is ContentAtIndex {
            1nat
        } else {
            0nat
        }
    }
}

/// How `a` compares with `b` at the first position, from `i` on, where their segments are ordered apart.
pub open spec fn spec_is_after_from(a: Seq<CFSelectorSegment>, b: Seq<CFSelectorSegment>, i: nat) -> Option<bool>
    decreases a.len() - i,
{
    if i >= a.len() || i >= b.len() {
        None
    } else if segment_precedes(b[i as int], a[i as int]) {
        Some(false)
    } else if segment_precedes(a[i as int], b[i as int]) {
        Some(true)
    } else {
        spec_is_after_from(a, b, i + 1)
    }
}

/// Comparing from position `i` on gives opposite answers either way round, no answer for a
/// selector against itself, and no answer where one is a prefix of the other.
proof fn lemma_is_after_from_laws(a: Seq<CFSelectorSegment>, b: Seq<CFSelectorSegment>, i: nat)
    ensures
        spec_is_after_from(a, b, i) is None <==> spec_is_after_from(b, a, i) is None,
        spec_is_after_from(a, b, i) matches Some(x) ==> spec_is_after_from(b, a, i) == Some(!x),
        spec_is_after_from(a, a, i) is None,
        a.len() <= b.len() && a == b.take(a.len() as int) ==> spec_is_after_from(a, b, i) is None,
    decreases a.len() - i,
{
    if i < a.len() {
        lemma_is_after_from_laws(a, b, i + 1);
    }
}

/// `is_after` is antisymmetric: comparing two selectors either way round gives opposite
/// answers, or no answer both ways; a selector is neither before nor after itself; and a
/// selector is neither before nor after one it is a prefix of.
pub proof fn lemma_is_after_antisymmetric(a: Seq<CFSelectorSegment>, b: Seq<CFSelectorSegment>)
    ensures
        spec_is_after_from(a, b, 0) is None <==> spec_is_after_from(b, a, 0) is None,
        spec_is_after_from(a, b, 0) matches Some(x) ==> spec_is_after_from(b, a, 0) == Some(!x),
        spec_is_after_from(a, a, 0) is None,
        a.len() <= b.len() && a == b.take(a.len() as int) ==> spec_is_after_from(a, b, 0) is None,
{
    lemma_is_after_from_laws(a, b, 0);
}

/// The textual form of a sequence of segments, joined by `/`.
pub open spec fn join_segments(s: Seq<CFSelectorSegment>) -> Seq<char>
    decreases s.len(),
{
    if s.len() == 0 {
        Seq::empty()
    } else if s.len() == 1 {
        segment_text(s[0])
    } else {
        join_segments(s.drop_last()) + seq!['/'] + segment_text(s.last())
    }
}

/// The textual form of a selector: `()` when empty.
pub open spec fn selector_text(s: Seq<CFSelectorSegment>) -> Seq<char> {
    if s.len() == 0 {
        seq!['(', ')']
    } else {
        join_segments(s)
    }
}

/// `s` split at every `/`.
pub open spec fn split_slash(s: Seq<char>) -> Seq<Seq<char>>
    decreases s.len(),
{
    if s.len() == 0 {
        seq![Seq::empty()]
    } else {
        let parts = split_slash(s.drop_last());
        if s.last() == '/' {
            parts.push(Seq::empty())
        } else {
            parts.update(parts.len() - 1, parts.last().push(s.last()))
        }
    }
}

/// The text `success`.
pub open spec fn success_word() -> Seq<char> {
    seq!['s', 'u', 'c', 'c', 'e', 's', 's']
}

/// The text `failure`.
pub open spec fn failure_word() -> Seq<char> {
    seq!['f', 'a', 'i', 'l', 'u', 'r', 'e']
}

/// How the parts of a selector's text from the `i`th on are read: a part `success` or
/// `failure` followed by a part with a number is one segment into that branch; any other part
/// is a segment of its own. The first part that cannot be read gives the error.
pub open spec fn parse_parts_from(parts: Seq<Seq<char>>, i: nat) -> Result<Seq<CFSelectorSegment>, IntErrorKind>
    decreases parts.len() - i,
{
    if i >= parts.len() {
        Ok(Seq::empty())
    } else if i + 1 < parts.len() && (parts[i as int] == success_word() || parts[i as int] == failure_word()) {
        match spec_parse_usize(parts[i + 1int]) {
            Err(e) => Err(e),
            Ok(n) => match parse_parts_from(parts, i + 2) {
                Ok(rest) => Ok(seq![if parts[i as int] == success_word() {
                    CFSelectorSegment::IndexInSuccess(n)
                } else {
                    CFSelectorSegment::IndexInFailure(n)
                }] + rest),
                Err(e) => Err(e),
            },
        }
    } else {
        match spec_parse_segment(parts[i as int]) {
            Err(e) => Err(e),
            Ok(x) => match parse_parts_from(parts, i + 1) {
                Ok(rest) => Ok(seq![x] + rest),
                Err(e) => Err(e),
            },
        }
    }
}

/// How a selector is read from text: its parts between `/`s, read in turn.
pub open spec fn spec_parse_selector(s: Seq<char>) -> Result<Seq<CFSelectorSegment>, IntErrorKind> {
    parse_parts_from(split_slash(s), 0)
}

/// `split_slash` is splitting at `/`.
proof fn lemma_split_slash_is_split(s: Seq<char>)
    ensures
        split_slash(s) == crate::lines::split(s, '/'),
    decreases s.len(),
{
    if s.len() > 0 {
        lemma_split_slash_is_split(s.drop_last());
    }
}

proof fn lemma_split_slash_len(s: Seq<char>)
    ensures
        split_slash(s).len() >= 1,
    decreases s.len(),
{
    if s.len() > 0 {
        lemma_split_slash_len(s.drop_last());
    }
}

impl CFSelector {
    /// The empty selector, which addresses the root.
    pub fn new_empty() -> (res: Self)
        ensures
            res@ == Seq::<CFSelectorSegment>::empty(),
    {
        CFSelector(VecDeque::new())
    }

    /// A selector of one segment.
    pub fn from_segment(segment: CFSelectorSegment) -> (res: Self)
        ensures
            res@ == seq![segment],
    {
        let mut result = VecDeque::new();
        result.push_back(segment);
        CFSelector(result)
    }

    /// Whether the selector has no segment.
    pub fn is_empty(&self) -> (res: bool)
        ensures
            res == (self@.len() == 0),
    {
        self.0.len() == 0
    }

    /// How many segments the selector has.
    pub fn len(&self) -> (res: usize)
        ensures
            res == self@.len(),
    {
        self.0.len()
    }

    /// Takes the first segment off.
    pub fn pop_front(&mut self) -> (res: Option<CFSelectorSegment>)
        ensures
            old(self)@.len() == 0 ==> res is None && final(self)@ == old(self)@,
            old(self)@.len() > 0 ==> res == Some(old(self)@[0]) && final(self)@ == old(
                self,
            )@.drop_first(),
    {
        self.0.pop_front()
    }

    /// Takes the last segment off.
    pub fn pop_back(&mut self) -> (res: Option<CFSelectorSegment>)
        ensures
            old(self)@.len() == 0 ==> res is None && final(self)@ == old(self)@,
            old(self)@.len() > 0 ==> res == Some(old(self)@.last()) && final(self)@ == old(
                self,
            )@.drop_last(),
    {
        self.0.pop_back()
    }

    /// The first segment.
    pub fn front(&self) -> (res: Option<&CFSelectorSegment>)
        ensures
            self@.len() == 0 ==> res is None,
            self@.len() > 0 ==> res == Some(&self@[0]),
    {
        if self.0.len() == 0 {
            None
        } else {
            Some(&self.0[0])
        }
    }

    /// The last segment.
    pub fn back(&self) -> (res: Option<&CFSelectorSegment>)
        ensures
            self@.len() == 0 ==> res is None,
            self@.len() > 0 ==> res == Some(&self@.last()),
    {
        let n = self.0.len();
        if n == 0 {
            None
        } else {
            Some(&self.0[n - 1])
        }
    }

    /// The segment at position `index`.
    pub fn segment_at(&self, index: usize) -> (res: CFSelectorSegment)
        requires
            index < self@.len(),
        ensures
            res == self@[index as int],
    {
        self.0[index]
    }

    /// Puts a segment before the others.
    pub fn push_front(&mut self, segment: CFSelectorSegment)
        ensures
            final(self)@ == seq![segment] + old(self)@,
    {
        self.0.push_front(segment);
    }

    /// Puts a segment after the others.
    pub fn push_back(&mut self, segment: CFSelectorSegment)
        ensures
            final(self)@ == old(self)@.push(segment),
    {
        self.0.push_back(segment);
    }

    /// A copy of this selector.
    pub fn duplicate(&self) -> (res: Self)
        ensures
            res@ == self@,
    {
        let mut result = VecDeque::new();
        let mut i: usize = 0;
        while i < self.0.len()
            invariant
                i <= self@.len(),
                result@ == self@.take(i as int),
            decreases self@.len() - i,
        {
            result.push_back(self.0[i]);
            i = i + 1;
            assert(result@ =~= self@.take(i as int));
        }
        assert(self@.take(i as int) =~= self@);
        CFSelector(result)
    }

    /// The selector of the parent element, or `None` for the root.
    pub fn parent(&self) -> (res: Option<CFSelector>)
        ensures
            self@.len() == 0 ==> res is None,
            self@.len() > 0 ==> res is Some && res->0@ == self@.drop_last(),
    {
        let mut result = self.duplicate();
        if result.is_empty() {
            None
        } else {
            result.pop_back();
            Some(result)
        }
    }

    /// The first segment and the rest, or `None` for the empty selector.
    pub fn split_first(self) -> (res: Option<(CFSelectorSegment, CFSelector)>)
        ensures
            self@.len() == 0 ==> res is None,
            self@.len() > 0 ==> (res matches Some((f, r)) && f == self@[0] && r@
                == self@.drop_first()),
    {
        let mut this = self;
        let front = this.pop_front();
        match front {
            Some(f) => Some((f, this)),
            None => None,
        }
    }

    /// The rest and the last segment, or `None` for the empty selector.
    pub fn split_last(self) -> (res: Option<(CFSelector, CFSelectorSegment)>)
        ensures
            self@.len() == 0 ==> res is None,
            self@.len() > 0 ==> (res matches Some((r, l)) && l == self@.last() && r@
                == self@.drop_last()),
    {
        let mut this = self;
        let back = this.pop_back();
        match back {
            Some(b) => Some((this, b)),
            None => None,
        }
    }

    /// Whether the two selectors agree on every position that both have.
    pub fn is_ancestor_of(&self, other: &CFSelector) -> (res: bool)
        ensures
            res == (forall|j: int|
                0 <= j < self@.len() && j < other@.len() ==> self@[j] == other@[j]),
    {
        let mut i: usize = 0;
        while i < self.0.len() && i < other.0.len()
            invariant
                i <= self@.len(),
                i <= other@.len(),
                forall|j: int| 0 <= j < i ==> self@[j] == other@[j],
            decreases self@.len() - i,
        {
            if self.0[i] != other.0[i] {
                return false;
            }
            i = i + 1;
        }
        true
    }

    /// The longest common prefix of the two selectors.
    pub fn lowest_common_ancestor(&self, other: &CFSelector) -> (res: CFSelector)
        ensures
            res@ == self@.take(common_prefix_len(self@, other@) as int),
            is_common_prefix_len(self@, other@, res@.len()),
    {
        let mut result = Self::new_empty();
        let mut i: usize = 0;
        while i < self.0.len() && i < other.0.len() && self.0[i] == other.0[i]
            invariant
                i <= self@.len(),
                i <= other@.len(),
                forall|j: int| 0 <= j < i ==> self@[j] == other@[j],
                result@ == self@.take(i as int),
            decreases self@.len() - i,
        {
            result.push_back(self.0[i]);
            i = i + 1;
            assert(result@ =~= self@.take(i as int));
        }
        proof {
            lemma_common_prefix_len(self@, other@, i as nat);
        }
        result
    }

    /// Whether `other` lies one level under `self`, where passing into the condition of an `if`
    /// is no level of its own: every segment of `other` after those of `self`, but the last, is
    /// an `if` condition (for example `0` is a parent of `0/if_condition/0`).
    pub fn is_parent_of(&self, other: &CFSelector) -> (res: bool)
        ensures
            res == ({
                &&& self@.len() < other@.len()
                &&& self@ == other@.take(self@.len() as int)
                &&& forall|j: int|
                    self@.len() <= j < other@.len() - 1 ==> other@[j] == CFSelectorSegment::IfCondition
            }),
    {
        let lca = self.lowest_common_ancestor(other);
        let parent_rest = self.range(lca.len()..self.len());
        let mut child_rest = other.range(lca.len()..other.len());
        proof {
            lemma_common_prefix_len(self@, other@, lca@.len());
        }
        if !parent_rest.is_empty() || child_rest.is_empty() {
            proof {
                if self@.len() < other@.len() && self@ == other@.take(self@.len() as int) {
                    assert(is_common_prefix_len(self@, other@, self@.len()));
                    lemma_common_prefix_len(self@, other@, self@.len());
                }
            }
            return false;
        }
        assert(lca@ =~= self@);
        assert(self@ =~= other@.take(self@.len() as int));
        while child_rest.len() > 1
            invariant
                self@.len() < other@.len(),
                self@ == other@.take(self@.len() as int),
                1 <= child_rest@.len() <= other@.len() - self@.len(),
                child_rest@ == other@.skip(other@.len() - child_rest@.len()),
                forall|j: int|
                    self@.len() <= j < other@.len() - child_rest@.len() ==> other@[j]
                        == CFSelectorSegment::IfCondition,
            decreases child_rest@.len(),
        {
            let ghost before = child_rest@;
            let front = child_rest.pop_front().unwrap();
            assert(front == other@[other@.len() - before.len()]);
            if front != CFSelectorSegment::IfCondition {
                return false;
            }
            assert(child_rest@ =~= other@.skip(other@.len() - child_rest@.len()));
        }
        true
    }

    /// The concatenation of the two selectors.
    pub fn merge(&self, other: &CFSelector) -> (res: CFSelector)
        ensures
            res@ == self@ + other@,
    {
        let mut result = self.duplicate();
        let mut i: usize = 0;
        while i < other.0.len()
            invariant
                i <= other@.len(),
                result@ == self@ + other@.take(i as int),
            decreases other@.len() - i,
        {
            result.push_back(other.0[i]);
            i = i + 1;
            assert(result@ =~= self@ + other@.take(i as int));
        }
        assert(other@.take(i as int) =~= other@);
        result
    }

    /// Whether this selector addresses the condition of an `if`.
    pub fn is_if_condition(&self) -> (res: bool)
        ensures
            res == (self@.len() > 0 && self@.last() == CFSelectorSegment::IfCondition),
    {
        match self.back() {
            Some(CFSelectorSegment::IfCondition) => true,
            _ => false,
        }
    }

    /// The segments at the positions `range`.
    pub fn range(&self, range: core::ops::Range<usize>) -> (res: Self)
        requires
            range.start <= range.end <= self@.len(),
        ensures
            res@ == self@.subrange(range.start as int, range.end as int),
    {
        let mut result = VecDeque::new();
        let mut i = range.start;
        while i < range.end
            invariant
                range.start <= i <= range.end <= self@.len(),
                result@ == self@.subrange(range.start as int, i as int),
            decreases range.end - i,
        {
            result.push_back(self.0[i]);
            i = i + 1;
            assert(result@ =~= self@.subrange(range.start as int, i as int));
        }
        CFSelector(result)
    }

    /// Whether the two selectors address distinct elements of one parent.
    pub fn is_sibling(selector: &CFSelector, last_selector: &CFSelector) -> (res: bool)
        requires
            selector@.len() > 0 || last_selector@.len() > 0,
        ensures
            res == (selector@.len() == last_selector@.len() && common_prefix_len(
                selector@,
                last_selector@,
            ) == selector@.len() - 1),
    {
        if selector.len() != last_selector.len() {
            false
        } else {
            let shared_part = Self::lowest_common_ancestor(selector, last_selector);
            proof {
                lemma_common_prefix_len(selector@, last_selector@, shared_part@.len());
            }
            shared_part.len() == selector.len() - 1
        }
    }

    /// How many segments step into the content of a block or a loop.
    pub fn block_like_count(&self) -> (res: usize)
        ensures
            res == count_content(self@),
    {
        let mut count: usize = 0;
        let mut i: usize = 0;
        while i < self.0.len()
            invariant
                i <= self@.len(),
                count == count_content(self@.take(i as int)),
                count <= i,
            decreases self@.len() - i,
        {
            assert(self@.take(i + 1).drop_last() =~= self@.take(i as int));
            if let CFSelectorSegment::ContentAtIndex(_) = self.0[i] {
                count = count + 1;
            }
            i = i + 1;
        }
        assert(self@.take(i as int) =~= self@);
        count
    }

    /// Compares the two selectors at the first position where their segments are ordered
    /// apart: `Some(true)` when `self` comes first there, `Some(false)` when `other` does.
    pub fn is_after(&self, other: &CFSelector) -> (res: Option<bool>)
        ensures
            res == spec_is_after_from(self@, other@, 0),
    {
        let mut i: usize = 0;
        while i < self.0.len() && i < other.0.len()
            invariant
                i <= self@.len(),
                i <= other@.len(),
                spec_is_after_from(self@, other@, 0) == spec_is_after_from(self@, other@, i as nat),
            decreases self@.len() - i,
        {
            let from_self = &self.0[i];
            let from_other = &other.0[i];
            if from_other < from_self {
                return Some(false);
            } else if from_other > from_self {
                return Some(true);
            }
            i = i + 1;
        }
        None
    }

    /// How many blocks or loops `self` lies in below the common ancestor with `other`, where a
    /// branch from `other` back to `self` leaves that many levels; `None` when `self` comes after
    /// `other`, where no branch goes back.
    pub fn levels_before(&self, other: &CFSelector) -> (res: Option<usize>)
        ensures
            spec_is_after_from(self@, other@, 0) == Some(false) ==> res is None,
            spec_is_after_from(self@, other@, 0) != Some(false) ==> res == Some(
                count_content(self@.skip(common_prefix_len(self@, other@) as int)) as usize,
            ),
    {
        let after = self.is_after(other);
        if let Some(false) = after {
            return None;
        }
        let shared_part = Self::lowest_common_ancestor(self, other);
        proof {
            lemma_common_prefix_len(self@, other@, 0);
        }
        let self_unique_part = self.range(shared_part.len()..self.len());
        assert(self_unique_part@ =~= self@.skip(common_prefix_len(self@, other@) as int));
        Some(self_unique_part.block_like_count())
    }
}

/// Whether `s` holds no `/`.
pub open spec fn no_slash(s: Seq<char>) -> bool {
    forall|i: int| 0 <= i < s.len() ==> s[i] != '/'
}

proof fn lemma_split_slash_single(q: Seq<char>)
    requires
        no_slash(q),
    ensures
        split_slash(q) == seq![q],
    decreases q.len(),
{
    if q.len() == 0 {
        assert(q =~= Seq::<char>::empty());
        assert(split_slash(q) =~= seq![q]);
    } else {
        assert(q.last() != '/');
        lemma_split_slash_single(q.drop_last());
        assert(q.drop_last().push(q.last()) =~= q);
        let parts = split_slash(q.drop_last());
        assert(parts =~= seq![q.drop_last()]);
        assert(split_slash(q) == parts.update(parts.len() - 1, parts.last().push(q.last())));
        assert(parts.update(parts.len() - 1, parts.last().push(q.last())) =~= seq![q]);
    }
}

proof fn lemma_split_slash_append(p: Seq<char>, q: Seq<char>)
    requires
        no_slash(q),
    ensures
        split_slash(p + seq!['/'] + q) == split_slash(p).push(q),
    decreases q.len(),
{
    let x = p + seq!['/'] + q;
    if q.len() == 0 {
        assert(q =~= Seq::<char>::empty());
        assert(x.drop_last() =~= p);
        assert(split_slash(x) =~= split_slash(p).push(q));
    } else {
        assert(q.last() != '/');
        lemma_split_slash_append(p, q.drop_last());
        assert(x.drop_last() =~= p + seq!['/'] + q.drop_last());
        assert(x.last() == q.last());
        assert(q.drop_last().push(q.last()) =~= q);
        let parts = split_slash(x.drop_last());
        assert(parts =~= split_slash(p).push(q.drop_last()));
        assert(split_slash(x) == parts.update(parts.len() - 1, parts.last().push(q.last())));
        assert(parts.update(parts.len() - 1, parts.last().push(q.last())) =~= split_slash(p).push(q));
    }
}

proof fn lemma_decimal_no_slash(n: nat)
    requires
        n <= usize::MAX,
    ensures
        no_slash(decimal(n)),
{
    lemma_decimal_roundtrip(n);
    assert forall|i: int| 0 <= i < decimal(n).len() implies decimal(n)[i] != '/' by {
        assert(crate::text::is_digit(decimal(n)[i]));
    }
}

proof fn lemma_segment_text_no_slash(segment: CFSelectorSegment)
    ensures
        no_slash(segment_text(segment)),
        segment_text(segment).len() > 0,
{
    match segment {
        CFSelectorSegment::ContentAtIndex(i) => {
            lemma_decimal_no_slash(i as nat);
            lemma_decimal_roundtrip(i as nat);
        },
        CFSelectorSegment::IfCondition => {},
        CFSelectorSegment::IndexInSuccess(i) => {
            lemma_decimal_no_slash(i as nat);
            assert forall|k: int| 0 <= k < segment_text(segment).len() implies segment_text(
                segment,
            )[k] != '/' by {
                if k >= 9 {
                    assert(segment_text(segment)[k] == decimal(i as nat)[k - 9]);
                }
            }
        },
        CFSelectorSegment::IndexInFailure(i) => {
            lemma_decimal_no_slash(i as nat);
            assert forall|k: int| 0 <= k < segment_text(segment).len() implies segment_text(
                segment,
            )[k] != '/' by {
                if k >= 9 {
                    assert(segment_text(segment)[k] == decimal(i as nat)[k - 9]);
                }
            }
        },
    }
}

/// A segment reads back from its textual form.
pub proof fn lemma_segment_text_roundtrip(segment: CFSelectorSegment)
    ensures
        spec_parse_segment(segment_text(segment)) == Ok::<CFSelectorSegment, IntErrorKind>(segment),
{
    let t = segment_text(segment);
    match segment {
        CFSelectorSegment::ContentAtIndex(i) => {
            lemma_decimal_roundtrip(i as nat);
            assert(crate::text::is_digit(t[0]));
            assert(t != if_condition_text()) by {
                if t == if_condition_text() {
                    assert(t[0] == 'i');
                }
            }
            assert(!has_prefix(t, success_prefix())) by {
                if has_prefix(t, success_prefix()) {
                    assert(t.take(9)[0] == 's');
                }
            }
            assert(!has_prefix(t, failure_prefix())) by {
                if has_prefix(t, failure_prefix()) {
                    assert(t.take(9)[0] == 'f');
                }
            }
        },
        CFSelectorSegment::IfCondition => {},
        CFSelectorSegment::IndexInSuccess(i) => {
            lemma_decimal_roundtrip(i as nat);
            assert(t[0] == 's');
            assert(t != if_condition_text()) by {
                if t == if_condition_text() {
                    assert(t[0] == 'i');
                }
            }
            assert(t.take(9) =~= success_prefix());
            assert(t.skip(9) =~= decimal(i as nat));
        },
        CFSelectorSegment::IndexInFailure(i) => {
            lemma_decimal_roundtrip(i as nat);
            assert(t[0] == 'f');
            assert(t != if_condition_text()) by {
                if t == if_condition_text() {
                    assert(t[0] == 'i');
                }
            }
            assert(!has_prefix(t, success_prefix())) by {
                if has_prefix(t, success_prefix()) {
                    assert(t.take(9)[0] == 's');
                }
            }
            assert(t.take(9) =~= failure_prefix());
            assert(t.skip(9) =~= decimal(i as nat));
        },
    }
}

/// The textual form of every segment, in order.
pub open spec fn segment_texts(s: Seq<CFSelectorSegment>) -> Seq<Seq<char>> {
    s.map_values(|x: CFSelectorSegment| segment_text(x))
}

proof fn lemma_split_join(s: Seq<CFSelectorSegment>)
    requires
        s.len() > 0,
    ensures
        split_slash(join_segments(s)) == segment_texts(s),
    decreases s.len(),
{
    if s.len() == 1 {
        lemma_segment_text_no_slash(s[0]);
        lemma_split_slash_single(segment_text(s[0]));
        assert(segment_texts(s) =~= seq![segment_text(s[0])]);
    } else {
        lemma_split_join(s.drop_last());
        lemma_segment_text_no_slash(s.last());
        lemma_split_slash_append(join_segments(s.drop_last()), segment_text(s.last()));
        assert(segment_texts(s) =~= segment_texts(s.drop_last()).push(segment_text(s.last())));
    }
}

/// The textual form of a segment is neither `success` nor `failure`.
proof fn lemma_segment_text_not_word(segment: CFSelectorSegment)
    ensures
        segment_text(segment) != success_word(),
        segment_text(segment) != failure_word(),
{
    let t = segment_text(segment);
    match segment {
        CFSelectorSegment::ContentAtIndex(i) => {
            lemma_decimal_roundtrip(i as nat);
            assert(crate::text::is_digit(t[0]));
            assert(t != success_word()) by {
                if t == success_word() {
                    assert(t[0] == 's');
                }
            }
            assert(t != failure_word()) by {
                if t == failure_word() {
                    assert(t[0] == 'f');
                }
            }
        },
        CFSelectorSegment::IfCondition => {
            assert(t.len() == 12);
        },
        CFSelectorSegment::IndexInSuccess(i) => {
            assert(t.len() >= 9);
            assert(t.len() != 7);
        },
        CFSelectorSegment::IndexInFailure(i) => {
            assert(t.len() >= 9);
            assert(t.len() != 7);
        },
    }
}

proof fn lemma_parse_texts(s: Seq<CFSelectorSegment>, i: nat)
    requires
        i <= s.len(),
    ensures
        parse_parts_from(segment_texts(s), i) == Ok::<Seq<CFSelectorSegment>, IntErrorKind>(s.skip(i as int)),
    decreases s.len() - i,
{
    let texts = segment_texts(s);
    if i == s.len() {
        assert(s.skip(i as int) =~= Seq::<CFSelectorSegment>::empty());
    } else {
        lemma_parse_texts(s, i + 1);
        lemma_segment_text_roundtrip(s[i as int]);
        lemma_segment_text_not_word(s[i as int]);
        assert(texts[i as int] == segment_text(s[i as int]));
        assert(seq![s[i as int]] + s.skip(i + 1int) =~= s.skip(i as int));
    }
}

/// A non-empty selector reads back from its textual form.
pub proof fn lemma_selector_text_roundtrip(s: Seq<CFSelectorSegment>)
    requires
        s.len() > 0,
    ensures
        spec_parse_selector(selector_text(s)) == Ok::<Seq<CFSelectorSegment>, IntErrorKind>(s),
{
    lemma_split_join(s);
    lemma_parse_texts(s, 0);
    assert(s.skip(0) =~= s);
}

impl CFSelector {
    /// Reads a selector from its textual form: segments joined by `/`, where a branch index may
    /// also be written as `success` or `failure`, a `/` and the index.
    pub fn parse(s: &str) -> (res: Result<CFSelector, IntErrorKind>)
        ensures
            res matches Ok(sel) ==> spec_parse_selector(s@) == Ok::<Seq<CFSelectorSegment>, IntErrorKind>(sel@),
            res matches Err(e) ==> spec_parse_selector(s@) == Err::<Seq<CFSelectorSegment>, IntErrorKind>(e),
    {
        let chars = chars_of(s);
        let ranges = crate::lines::split_ranges(&chars, 0, chars.len(), '/');
        let ghost parts = split_slash(s@);
        proof {
            assert(chars@.subrange(0, chars@.len() as int) =~= chars@);
            lemma_split_slash_is_split(s@);
            lemma_split_slash_len(s@);
        }
        assert(crate::lines::range_texts(chars@, ranges@) == parts);
        assert(ranges@.len() == parts.len());
        proof {
            reveal_strlit("success");
            reveal_strlit("failure");
        }
        let mut result = VecDeque::new();
        let mut i: usize = 0;
        while i < ranges.len()
            invariant
                i <= ranges@.len(),
                chars@ == s@,
                ranges@.len() == parts.len(),
                crate::lines::ranges_within(ranges@, 0, chars@.len() as int),
                crate::lines::range_texts(chars@, ranges@) == parts,
                parts == split_slash(s@),
                "success"@ == success_word(),
                "failure"@ == failure_word(),
                spec_parse_selector(s@) == match parse_parts_from(parts, i as nat) {
                    Ok(rest) => Ok(result@ + rest),
                    Err(e) => Err::<Seq<CFSelectorSegment>, IntErrorKind>(e),
                },
            decreases ranges@.len() - i,
        {
            let (start, end) = ranges[i];
            assert(parts[i as int] == chars@.subrange(start as int, end as int));
            let mut word = false;
            let mut success = false;
            if i + 1 < ranges.len() {
                if range_equals(&chars, start, end, "success") {
                    word = true;
                    success = true;
                } else if range_equals(&chars, start, end, "failure") {
                    word = true;
                }
            }
            let ghost before = result@;
            if word {
                let (next_start, next_end) = ranges[i + 1];
                assert(parts[i + 1] == chars@.subrange(next_start as int, next_end as int));
                match parse_usize(&chars, next_start, next_end) {
                    Ok(n) => {
                        let segment = if success {
                            CFSelectorSegment::IndexInSuccess(n)
                        } else {
                            CFSelectorSegment::IndexInFailure(n)
                        };
                        result.push_back(segment);
                        proof {
                            match parse_parts_from(parts, (i + 2) as nat) {
                                Ok(rest) => {
                                    assert(before + (seq![segment] + rest) =~= result@ + rest);
                                },
                                Err(e) => {},
                            }
                        }
                        i = i + 2;
                    },
                    Err(e) => {
                        return Err(e);
                    },
                }
            } else {
                match CFSelectorSegment::parse_range(&chars, start, end) {
                    Ok(segment) => {
                        result.push_back(segment);
                        proof {
                            match parse_parts_from(parts, (i + 1) as nat) {
                                Ok(rest) => {
                                    assert(before + (seq![segment] + rest) =~= result@ + rest);
                                },
                                Err(e) => {},
                            }
                        }
                        i = i + 1;
                    },
                    Err(e) => {
                        return Err(e);
                    },
                }
            }
        }
        assert(result@ + Seq::<CFSelectorSegment>::empty() =~= result@);
        Ok(CFSelector(result))
    }

    /// The textual form of this selector: segments joined by `/`, or `()` when empty.
    pub fn to_string(&self) -> (res: String)
        ensures
            res@ == selector_text(self@),
    {
        let mut out = String::new();
        if self.0.len() == 0 {
            proof {
                reveal_strlit("()");
            }
            out.append("()");
            return out;
        }
        let mut i: usize = 0;
        while i < self.0.len()
            invariant
                i <= self@.len(),
                self@.len() > 0,
                out@ == join_segments(self@.take(i as int)),
            decreases self@.len() - i,
        {
            let ghost before = out@;
            if i != 0 {
                string_push(&mut out, '/');
            }
            self.0[i].write_to(&mut out);
            proof {
                let t = self@.take(i + 1);
                assert(t.drop_last() =~= self@.take(i as int));
                if i == 0 {
                    assert(before =~= Seq::<char>::empty());
                }
            }
            i = i + 1;
        }
        assert(self@.take(i as int) =~= self@);
        out
    }
}

impl core::str::FromStr for CFSelectorSegment {
    type Err = IntErrorKind;

    fn from_str(s: &str) -> (res: Result<Self, Self::Err>)
        ensures
            res == spec_parse_segment(s@),
    {
        Self::parse(s)
    }
}

impl core::str::FromStr for CFSelector {
    type Err = IntErrorKind;

    fn from_str(s: &str) -> (res: Result<Self, Self::Err>)
        ensures
            res matches Ok(sel) ==> spec_parse_selector(s@) == Ok::<Seq<CFSelectorSegment>, IntErrorKind>(sel@),
            res matches Err(e) ==> spec_parse_selector(s@) == Err::<Seq<CFSelectorSegment>, IntErrorKind>(e),
    {
        Self::parse(s)
    }
}

} // verus!
