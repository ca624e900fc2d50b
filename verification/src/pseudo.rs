//! Expanding the simple pseudo-instructions of an assembly program: each is written out from a
//! template, its parameters put in place of `{{params[i]}}`.
use vstd::prelude::*;

use crate::assembly::{Line, LineView, instruction_line, instruction_of, line_views};
use crate::number_text::{push_decimal_u64, push_text};
use crate::text::{chars_of, decimal, string_push};

verus! {

/// `t` with each occurrence of `pat` replaced by `rep`, left to right, occurrences not
/// overlapping.
pub open spec fn replace_all(t: Seq<char>, pat: Seq<char>, rep: Seq<char>) -> Seq<char>
    decreases t.len(),
{
    if pat.len() == 0 || t.len() < pat.len() {
        t
    } else if t.take(pat.len() as int) == pat {
        rep + replace_all(t.skip(pat.len() as int), pat, rep)
    } else {
        seq![t[0]] + replace_all(t.skip(1), pat, rep)
    }
}

/// The place of parameter `i` in a template: `{{params[i]}}`.
pub open spec fn param_pattern(i: nat) -> Seq<char> {
    "{{params["@ + decimal(i) + "]}}"@
}

/// `template` with the first `k` parameters put in place, the first one first.
pub open spec fn substituted(template: Seq<char>, params: Seq<Seq<char>>, k: nat) -> Seq<char>
    decreases k,
{
    if k == 0 {
        template
    } else {
        replace_all(substituted(template, params, (k - 1) as nat), param_pattern((k - 1) as nat), params[k - 1])
    }
}

/// The template of the pseudo-instruction `name`: that of its last entry in the table.
pub open spec fn pseudo_template(table: Seq<(Seq<char>, Seq<char>)>, name: Seq<char>) -> Option<Seq<char>>
    decreases table.len(),
{
    if table.len() == 0 {
        None
    } else if table.last().0 == name {
        Some(table.last().1)
    } else {
        pseudo_template(table.drop_last(), name)
    }
}

/// A line with a pseudo-instruction written out from its template and read again as an
/// instruction; any other line as it is.
pub open spec fn simple_replaced_line(l: LineView, table: Seq<(Seq<char>, Seq<char>)>) -> LineView {
    match l {
        LineView::Instruction(name, params) => match pseudo_template(table, name) {
            Some(t) => {
                let r = substituted(t, params, params.len());
                LineView::Instruction(instruction_of(r).0, instruction_of(r).1)
            },
            None => l,
        },
        _ => l,
    }
}

/// The lines with their simple pseudo-instructions written out.
pub open spec fn simple_replaced(ls: Seq<LineView>, table: Seq<(Seq<char>, Seq<char>)>) -> Seq<LineView> {
    ls.map_values(|l: LineView| simple_replaced_line(l, table))
}

/// The table as values.
pub open spec fn table_view(table: Seq<(String, String)>) -> Seq<(Seq<char>, Seq<char>)> {
    table.map_values(|e: (String, String)| (e.0@, e.1@))
}

/// `t` with each occurrence of `pat` replaced by `rep`, left to right.
pub fn replace_text(t: &str, pat: &str, rep: &str) -> (res: String)
    ensures
        res@ == replace_all(t@, pat@, rep@),
{
    let tv = chars_of(t);
    let pv = chars_of(pat);
    let n = tv.len();
    let m = pv.len();
    let mut out = String::new();
    if m == 0 {
        push_text(&mut out, t);
        assert(out@ =~= t@);
        return out;
    }
    let mut i: usize = 0;
    assert(t@.skip(0) =~= t@);
    assert(out@ =~= Seq::<char>::empty());
    while i < n
        invariant
            i <= n,
            n == tv@.len(),
            m == pv@.len(),
            m > 0,
            tv@ == t@,
            pv@ == pat@,
            replace_all(t@, pat@, rep@) == out@ + replace_all(t@.skip(i as int), pat@, rep@),
        decreases n - i,
    {
        let ghost rest = t@.skip(i as int);
        let mut matched = n - i >= m;
        let mut j: usize = 0;
        while matched && j < m
            invariant
                j <= m,
                m == pv@.len(),
                n == tv@.len(),
                i < n,
                matched ==> i + m <= n,
                matched ==> forall|q: int| 0 <= q < j ==> tv@[i + q] == pv@[q],
                !matched ==> (n - i < m || exists|q: int| 0 <= q < m && i + q < n && tv@[i + q] != pv@[q]),
                i + m <= n ==> matched || j == m,
            decreases m - j,
        {
            if tv[i + j] != pv[j] {
                matched = false;
                j = m;
            } else {
                j = j + 1;
            }
        }
        if matched {
            assert(rest.take(m as int) =~= pat@) by {
                assert forall|q: int| 0 <= q < m implies rest.take(m as int)[q] == pat@[q] by {
                    assert(rest[q] == tv@[i + q]);
                }
            }
            assert(rest.skip(m as int) =~= t@.skip(i + m));
            push_text(&mut out, rep);
            i = i + m;
        } else {
            assert(rest.len() < pat@.len() || rest.take(m as int) != pat@) by {
                if n - i >= m {
                    let q = choose|q: int| 0 <= q < m && i + q < n && tv@[i + q] != pv@[q];
                    assert(rest.take(m as int)[q] == tv@[i + q]);
                }
            }
            assert(rest.skip(1) =~= t@.skip(i + 1));
            assert(rest[0] == tv@[i as int]);
            string_push(&mut out, tv[i]);
            i = i + 1;
        }
    }
    assert(t@.skip(n as int) =~= Seq::<char>::empty());
    out
}

/// The place of parameter `i` in a template.
fn param_pattern_text(i: usize) -> (res: String)
    ensures
        res@ == param_pattern(i as nat),
{
    let mut res = String::new();
    push_text(&mut res, "{{params[");
    push_decimal_u64(&mut res, i as u64);
    push_text(&mut res, "]}}");
    assert(res@ =~= param_pattern(i as nat));
    res
}

/// The template of the pseudo-instruction `name`.
fn find_pseudo<'a>(table: &'a [(String, String)], name: &String) -> (res: Option<&'a String>)
    ensures
        match res {
            Some(t) => pseudo_template(table_view(table@), name@) == Some(t@),
            None => pseudo_template(table_view(table@), name@) is None,
        },
{
    let mut k: usize = table.len();
    assert(table_view(table@).take(table@.len() as int) =~= table_view(table@));
    while k > 0
        invariant
            k <= table@.len(),
            pseudo_template(table_view(table@), name@) == pseudo_template(table_view(table@).take(k as int), name@),
        decreases k,
    {
        let ghost before = table_view(table@).take(k as int);
        assert(before.drop_last() =~= table_view(table@).take(k - 1));
        assert(before.last() == (table@[k - 1].0@, table@[k - 1].1@));
        if table[k - 1].0 == *name {
            return Some(&table[k - 1].1);
        }
        k = k - 1;
    }
    None
}

/// Writes out each simple pseudo-instruction from the template of its name in `table`, its
/// parameters in place of `{{params[0]}}`, `{{params[1]}}` and so on in order, and reads the
/// result again as an instruction. Other lines are kept.
pub fn replace_simple_pseudo(complex_replaced: &[Line], table: &[(String, String)]) -> (res: Vec<Line>)
    ensures
        line_views(res@) == simple_replaced(line_views(complex_replaced@), table_view(table@)),
{
    let mut result: Vec<Line> = Vec::new();
    let mut k: usize = 0;
    while k < complex_replaced.len()
        invariant
            k <= complex_replaced@.len(),
            line_views(result@) == simple_replaced(line_views(complex_replaced@), table_view(table@)).take(k as int),
        decreases complex_replaced@.len() - k,
    {
        let line = &complex_replaced[k];
        let ghost before = result@;
        let new_line = match line {
            Line::Instruction(instruction) => match find_pseudo(table, &instruction.name) {
                Some(template) => {
                    let mut replaced = template.clone();
                    let mut i: usize = 0;
                    while i < instruction.params.len()
                        invariant
                            i <= instruction.params@.len(),
                            replaced@ == substituted(template@, crate::assembly::texts(instruction.params@), i as nat),
                        decreases instruction.params@.len() - i,
                    {
                        let pattern = param_pattern_text(i);
                        replaced = replace_text(replaced.as_str(), pattern.as_str(), instruction.params[i].as_str());
                        i = i + 1;
                    }
                    instruction_line(replaced.as_str())
                },
                None => line.duplicate(),
            },
            _ => line.duplicate(),
        };
        result.push(new_line);
        proof {
            assert(line_views(result@) =~= line_views(before).push(new_line@));
            assert(simple_replaced(line_views(complex_replaced@), table_view(table@)).take(k + 1)
                =~= simple_replaced(line_views(complex_replaced@), table_view(table@)).take(k as int).push(
                simple_replaced_line(line@, table_view(table@))));
        }
        k = k + 1;
    }
    assert(simple_replaced(line_views(complex_replaced@), table_view(table@)).take(complex_replaced@.len() as int)
        =~= simple_replaced(line_views(complex_replaced@), table_view(table@)));
    result
}

} // verus!
