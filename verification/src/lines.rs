//! Splitting text into pieces and trimming white space around them.
use vstd::prelude::*;
use crate::text::string_push;

verus! {

/// Whether `c` has Unicode's `White_Space` property.
pub open spec fn is_white(c: char) -> bool {
    ||| '\t' <= c <= '\r'
    ||| c == ' '
    ||| c == '\u{85}'
    ||| c == '\u{a0}'
    ||| c == '\u{1680}'
    ||| '\u{2000}' <= c <= '\u{200a}'
    ||| c == '\u{2028}'
    ||| c == '\u{2029}'
    ||| c == '\u{202f}'
    ||| c == '\u{205f}'
    ||| c == '\u{3000}'
}

/// `s` without its leading white space.
pub open spec fn trim_start(s: Seq<char>) -> Seq<char>
    decreases s.len(),
{
    if s.len() > 0 && is_white(s[0]) {
        trim_start(s.drop_first())
    } else {
        s
    }
}

/// `s` without its trailing white space.
pub open spec fn trim_end(s: Seq<char>) -> Seq<char>
    decreases s.len(),
{
    if s.len() > 0 && is_white(s.last()) {
        trim_end(s.drop_last())
    } else {
        s
    }
}

/// `s` without white space at either end.
pub open spec fn trim(s: Seq<char>) -> Seq<char> {
    trim_end(trim_start(s))
}

/// The pieces of `s` between occurrences of `sep`, in order; empty pieces included.
pub open spec fn split(s: Seq<char>, sep: char) -> Seq<Seq<char>>
    decreases s.len(),
{
    if s.len() == 0 {
        seq![Seq::<char>::empty()]
    } else {
        let rest = split(s.drop_last(), sep);
        if s.last() == sep {
            rest.push(Seq::<char>::empty())
        } else {
            rest.update(rest.len() - 1, rest.last().push(s.last()))
        }
    }
}

/// Each of `ss` trimmed.
pub open spec fn trimmed(ss: Seq<Seq<char>>) -> Seq<Seq<char>> {
    ss.map_values(|p: Seq<char>| trim(p))
}

/// The non-empty members of `ss`, in order.
pub open spec fn nonempty(ss: Seq<Seq<char>>) -> Seq<Seq<char>>
    decreases ss.len(),
{
    if ss.len() == 0 {
        ss
    } else {
        let r = nonempty(ss.drop_last());
        if ss.last().len() > 0 {
            r.push(ss.last())
        } else {
            r
        }
    }
}

/// The trimmed, non-empty pieces of `s` between occurrences of `sep`.
pub open spec fn fields(s: Seq<char>, sep: char) -> Seq<Seq<char>> {
    nonempty(trimmed(split(s, sep)))
}

/// The texts of the ranges `rs` of `s`.
/// The texts of `s` that the ranges `rs` cover, in order.
pub open spec fn range_texts(s: Seq<char>, rs: Seq<(usize, usize)>) -> Seq<Seq<char>> {
    rs.map_values(|r: (usize, usize)| s.subrange(r.0 as int, r.1 as int))
}

/// Whether every range of `rs` lies within `start..end`.
pub open spec fn ranges_within(rs: Seq<(usize, usize)>, start: int, end: int) -> bool {
    forall|k: int| 0 <= k < rs.len() ==> start <= (#[trigger] rs[k]).0 <= rs[k].1 <= end
}

/// Whether `c` is white space.
pub fn is_whitespace(c: char) -> (res: bool)
    ensures
        res == is_white(c),
{
    ('\t' <= c && c <= '\r') || c == ' ' || c == '\u{85}' || c == '\u{a0}' || c == '\u{1680}'
        || ('\u{2000}' <= c && c <= '\u{200a}') || c == '\u{2028}' || c == '\u{2029}'
        || c == '\u{202f}' || c == '\u{205f}' || c == '\u{3000}'
}

/// The range of `s[start..end]` left once white space is trimmed from both ends.
pub fn trim_range(s: &Vec<char>, start: usize, end: usize) -> (res: (usize, usize))
    requires
        start <= end <= s@.len(),
    ensures
        start <= res.0 <= res.1 <= end,
        s@.subrange(res.0 as int, res.1 as int) == trim(s@.subrange(start as int, end as int)),
{
    let mut a = start;
    while a < end && is_whitespace(s[a])
        invariant
            start <= a <= end <= s@.len(),
            trim_start(s@.subrange(start as int, end as int)) == trim_start(s@.subrange(a as int, end as int)),
        decreases end - a,
    {
        assert(s@.subrange(a as int, end as int).drop_first() =~= s@.subrange(a + 1, end as int));
        a = a + 1;
    }
    assert(trim_start(s@.subrange(a as int, end as int)) == s@.subrange(a as int, end as int));
    let mut b = end;
    while b > a && is_whitespace(s[b - 1])
        invariant
            start <= a <= b <= end <= s@.len(),
            trim_end(s@.subrange(a as int, end as int)) == trim_end(s@.subrange(a as int, b as int)),
        decreases b - a,
    {
        assert(s@.subrange(a as int, b as int).drop_last() =~= s@.subrange(a as int, b - 1));
        b = b - 1;
    }
    assert(trim_end(s@.subrange(a as int, b as int)) == s@.subrange(a as int, b as int));
    (a, b)
}

/// The ranges of the pieces of `s[start..end]` between occurrences of `sep`.
pub fn split_ranges(s: &Vec<char>, start: usize, end: usize, sep: char) -> (res: Vec<(usize, usize)>)
    requires
        start <= end <= s@.len(),
    ensures
        ranges_within(res@, start as int, end as int),
        range_texts(s@, res@) == split(s@.subrange(start as int, end as int), sep),
{
    let mut res: Vec<(usize, usize)> = Vec::new();
    let mut cur = start;
    let mut i = start;
    assert(s@.subrange(start as int, start as int) =~= Seq::<char>::empty());
    assert(range_texts(s@, res@).push(s@.subrange(start as int, start as int)) =~= seq![Seq::<char>::empty()]);
    while i < end
        invariant
            start <= cur <= i <= end <= s@.len(),
            ranges_within(res@, start as int, i as int),
            range_texts(s@, res@).push(s@.subrange(cur as int, i as int))
                == split(s@.subrange(start as int, i as int), sep),
        decreases end - i,
    {
        let ghost t = s@.subrange(start as int, i + 1);
        assert(t.drop_last() =~= s@.subrange(start as int, i as int));
        assert(t.last() == s@[i as int]);
        let ghost before = res@;
        if s[i] == sep {
            res.push((cur, i));
            proof {
                assert(range_texts(s@, res@) =~= range_texts(s@, before).push(s@.subrange(cur as int, i as int)));
                assert(s@.subrange(i + 1, i + 1) =~= Seq::<char>::empty());
            }
            cur = i + 1;
        } else {
            proof {
                let r = range_texts(s@, before).push(s@.subrange(cur as int, i as int));
                assert(s@.subrange(cur as int, i as int).push(s@[i as int]) =~= s@.subrange(cur as int, i + 1));
                assert(r.update(r.len() - 1, r.last().push(s@[i as int]))
                    =~= range_texts(s@, before).push(s@.subrange(cur as int, i + 1)));
            }
        }
        i = i + 1;
    }
    let ghost before = res@;
    res.push((cur, end));
    assert(range_texts(s@, res@) =~= range_texts(s@, before).push(s@.subrange(cur as int, end as int)));
    res
}

/// The ranges of the trimmed, non-empty pieces of `s[start..end]` between occurrences of `sep`.
pub fn field_ranges(s: &Vec<char>, start: usize, end: usize, sep: char) -> (res: Vec<(usize, usize)>)
    requires
        start <= end <= s@.len(),
    ensures
        ranges_within(res@, start as int, end as int),
        range_texts(s@, res@) == fields(s@.subrange(start as int, end as int), sep),
{
    let pieces = split_ranges(s, start, end, sep);
    let ghost all = split(s@.subrange(start as int, end as int), sep);
    let mut res: Vec<(usize, usize)> = Vec::new();
    let mut k: usize = 0;
    while k < pieces.len()
        invariant
            k <= pieces@.len(),
            start <= end <= s@.len(),
            ranges_within(pieces@, start as int, end as int),
            range_texts(s@, pieces@) == all,
            ranges_within(res@, start as int, end as int),
            range_texts(s@, res@) == nonempty(trimmed(all.take(k as int))),
        decreases pieces@.len() - k,
    {
        let (a, b) = pieces[k];
        assert(pieces@[k as int] == (a, b));
        assert(all[k as int] == s@.subrange(a as int, b as int));
        let (c, d) = trim_range(s, a, b);
        let ghost tk = trimmed(all.take(k + 1));
        assert(tk.drop_last() =~= trimmed(all.take(k as int)));
        assert(tk.last() == trim(all[k as int]));
        let ghost before = res@;
        if c < d {
            res.push((c, d));
            assert(range_texts(s@, res@) =~= range_texts(s@, before).push(s@.subrange(c as int, d as int)));
        }
        k = k + 1;
    }
    assert(all.take(pieces@.len() as int) =~= all);
    res
}

/// The text of `s[start..end]`.
pub fn text_of(s: &Vec<char>, start: usize, end: usize) -> (res: String)
    requires
        start <= end <= s@.len(),
    ensures
        res@ == s@.subrange(start as int, end as int),
{
    let mut res = String::new();
    let mut i = start;
    while i < end
        invariant
            start <= i <= end <= s@.len(),
            res@ == s@.subrange(start as int, i as int),
        decreases end - i,
    {
        string_push(&mut res, s[i]);
        assert(res@ =~= s@.subrange(start as int, i + 1));
        i = i + 1;
    }
    res
}

/// Whether `s[start..end]` reads `t`.
pub fn range_is(s: &Vec<char>, start: usize, end: usize, t: &Vec<char>) -> (res: bool)
    requires
        start <= end <= s@.len(),
    ensures
        res == (s@.subrange(start as int, end as int) == t@),
{
    if end - start != t.len() {
        return false;
    }
    let mut k: usize = 0;
    while k < t.len()
        invariant
            k <= t@.len(),
            start + t@.len() == end <= s@.len(),
            forall|m: int| 0 <= m < k ==> s@[start + m] == t@[m],
        decreases t@.len() - k,
    {
        if s[start + k] != t[k] {
            assert(s@.subrange(start as int, end as int)[k as int] != t@[k as int]);
            return false;
        }
        k = k + 1;
    }
    assert(s@.subrange(start as int, end as int) =~= t@);
    true
}

/// Whether `s` begins with `t`.
pub open spec fn starts_with(s: Seq<char>, t: Seq<char>) -> bool {
    t.len() <= s.len() && s.take(t.len() as int) == t
}

/// Whether `s[start..end]` begins with `t`.
pub fn range_starts_with(s: &Vec<char>, start: usize, end: usize, t: &Vec<char>) -> (res: bool)
    requires
        start <= end <= s@.len(),
    ensures
        res == starts_with(s@.subrange(start as int, end as int), t@),
{
    if t.len() > end - start {
        return false;
    }
    let r = range_is(s, start, start + t.len(), t);
    assert(s@.subrange(start as int, end as int).take(t@.len() as int)
        =~= s@.subrange(start as int, start + t@.len()));
    r
}

} // verus!
