//! Reading the tables the assembler works from: one entry per line that holds something, a name,
//! a space, then what the name stands for.
use vstd::prelude::*;

use crate::assembly::{first_index, program_lines};
use crate::lines::{field_ranges, range_texts, text_of, trim, trim_range};
use crate::pseudo::table_view;
use crate::simple_instruction::Template;
use crate::template::TemplatePart;
use crate::template_text::{part_as_text, template_text};
use crate::text::chars_of;

verus! {

/// The entry a line states: the text before its first space, and the rest trimmed.
pub open spec fn table_entry(l: Seq<char>) -> (Seq<char>, Seq<char>) {
    let i = first_index(l, ' ') as int;
    (l.take(i), trim(l.skip(i + 1)))
}

/// The entries of a table's text: one for each trimmed line that holds something, in order.
pub open spec fn table_of(text: Seq<char>) -> Seq<(Seq<char>, Seq<char>)> {
    program_lines(text).map_values(|l: Seq<char>| table_entry(l))
}

/// Every line of the table that holds something has a space after its name.
pub open spec fn table_readable(text: Seq<char>) -> bool {
    forall|k: int| 0 <= k < program_lines(text).len() ==> first_index(#[trigger] program_lines(text)[k], ' ')
        < program_lines(text)[k].len()
}

/// Where no character before `j` is `c`, the first `c` of `s` is `j` characters further than
/// the first `c` of what follows them.
proof fn lemma_first_index_skip(s: Seq<char>, c: char, j: int)
    requires
        0 <= j <= s.len(),
        forall|k: int| 0 <= k < j ==> s[k] != c,
    ensures
        first_index(s, c) == j + first_index(s.skip(j), c),
    decreases j,
{
    if j == 0 {
        assert(s.skip(0) =~= s);
    } else {
        assert(s[0] != c);
        lemma_first_index_skip(s.drop_first(), c, j - 1);
        assert(s.drop_first().skip(j - 1) =~= s.skip(j));
    }
}

/// Reads the entries of a table: for each trimmed line that holds something, the name before
/// its first space and the rest trimmed.
pub fn read_table(text: &str) -> (res: Vec<(String, String)>)
    requires
        table_readable(text@),
    ensures
        table_view(res@) == table_of(text@),
{
    let s = chars_of(text);
    let ranges = field_ranges(&s, 0, s.len(), '\n');
    assert(s@.subrange(0, s@.len() as int) =~= s@);
    let ghost lines = program_lines(text@);
    assert(range_texts(s@, ranges@) == lines);
    let mut res: Vec<(String, String)> = Vec::new();
    let mut k: usize = 0;
    while k < ranges.len()
        invariant
            k <= ranges@.len(),
            s@ == text@,
            lines == program_lines(text@),
            range_texts(s@, ranges@) == lines,
            crate::lines::ranges_within(ranges@, 0, s@.len() as int),
            table_readable(text@),
            table_view(res@) == table_of(text@).take(k as int),
        decreases ranges@.len() - k,
    {
        let (a, b) = ranges[k];
        let ghost l = s@.subrange(a as int, b as int);
        assert(l == lines[k as int]);
        assert(first_index(l, ' ') < l.len());
        let mut i = a;
        while i < b && s[i] != ' '
            invariant
                a <= i <= b <= s@.len(),
                l == s@.subrange(a as int, b as int),
                first_index(l, ' ') < l.len(),
                forall|q: int| 0 <= q < i - a ==> l[q] != ' ',
            decreases b - i,
        {
            i = i + 1;
        }
        proof {
            lemma_first_index_skip(l, ' ', i - a);
            if i == b {
                assert(l.skip(i - a) =~= Seq::<char>::empty());
            }
            assert(l.skip(i - a)[0] == ' ');
            assert(first_index(l, ' ') == i - a);
        }
        let name = text_of(&s, a, i);
        let (c, d) = trim_range(&s, i + 1, b);
        let body = text_of(&s, c, d);
        proof {
            assert(name@ =~= l.take(i - a));
            assert(s@.subrange(i + 1, b as int) =~= l.skip(i - a + 1));
        }
        let ghost before = res@;
        res.push((name, body));
        proof {
            assert(table_view(res@) =~= table_of(text@).take(k + 1)) by {
                assert(table_view(res@) =~= table_view(before).push((res@[k as int].0@, res@[k as int].1@)));
            }
        }
        k = k + 1;
    }
    assert(table_of(text@).take(k as int) =~= table_of(text@));
    res
}

/// `t` is the template named `entry.0` whose text is `entry.1`.
pub open spec fn template_read(t: Template, entry: (Seq<char>, Seq<char>)) -> bool {
    &&& t.name@ == entry.0
    &&& template_text(entry.1) matches Some((parts, _)) && parts == t.parts@.map_values(|p: TemplatePart| part_as_text(p))
}

/// Reads the instruction templates of a table: one for each entry, named by the entry, read from
/// its text. `None` where the text of an entry holds no template.
pub fn read_templates(text: &str) -> (res: Option<Vec<Template>>)
    requires
        table_readable(text@),
    ensures
        match res {
            Some(ts) => ts@.len() == table_of(text@).len()
                && forall|k: int| 0 <= k < ts@.len() ==> template_read(#[trigger] ts@[k], table_of(text@)[k]),
            None => exists|k: int| 0 <= k < table_of(text@).len() && template_text(#[trigger] table_of(text@)[k].1) is None,
        },
{
    let entries = read_table(text);
    let ghost table = table_of(text@);
    let mut templates: Vec<Template> = Vec::new();
    let mut k: usize = 0;
    while k < entries.len()
        invariant
            k <= entries@.len(),
            table_view(entries@) == table,
            table == table_of(text@),
            templates@.len() == k,
            forall|j: int| 0 <= j < k ==> template_read(#[trigger] templates@[j], table[j]),
        decreases entries@.len() - k,
    {
        assert(table[k as int] == (entries@[k as int].0@, entries@[k as int].1@));
        match Template::parse(entries[k].1.as_str(), entries[k].0.as_str()) {
            Some((_, t)) => {
                templates.push(t);
            },
            None => {
                assert(template_text(table[k as int].1) is None);
                return None;
            },
        }
        k = k + 1;
    }
    Some(templates)
}

} // verus!
