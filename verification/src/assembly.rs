//! The first passes over an assembly program: splitting it into lines and expanding `li`.
use vstd::prelude::*;
use crate::lines::{
    fields, field_ranges, range_is, range_texts, ranges_within, split, split_ranges,
    text_of, trim, trim_range, trimmed,
};
use crate::number_text::{hex, integer_value, parse_integer, push_hex, push_signed_decimal, signed_decimal};
use crate::section::{section_at, section_prefix, SectionName};
use crate::text::chars_of;
use vstd::arithmetic::div_mod::{lemma_fundamental_div_mod, lemma_fundamental_div_mod_converse};

verus! {

/// A directive of an assembly program, as a value.
pub enum DirectiveView {
    Global(Seq<char>),
    Section(SectionName),
}

/// A line of an assembly program, as a value: an instruction is its name and its parameters.
pub enum LineView {
    Tag(Seq<char>),
    Instruction(Seq<char>, Seq<Seq<char>>),
    Directive(DirectiveView),
}

/// Directive in an asm file.
#[derive(Debug, PartialEq, Eq, Clone)]
pub enum Directive {
    /// Marks a global symbol to be exported.
    Global(String),
    /// Marks the beginning of a section.
    Section(SectionName),
}

/// An instruction as written: its name and its parameters, not yet read.
#[derive(Debug, PartialEq, Eq, Clone)]
pub struct UnparsedInstruction {
    pub name: String,
    pub params: Vec<String>,
}

/// A line in an asm file.
#[derive(Debug, PartialEq, Eq, Clone)]
pub enum Line {
    /// A tag.
    Tag(String),
    /// An instruction.
    Instruction(UnparsedInstruction),
    /// A directive.
    Directive(Directive),
}

/// The texts of a list of strings.
pub open spec fn texts(v: Seq<String>) -> Seq<Seq<char>> {
    v.map_values(|p: String| p@)
}

impl View for Directive {
    type V = DirectiveView;

    open spec fn view(&self) -> DirectiveView {
        match self {
            Directive::Global(s) => DirectiveView::Global(s@),
            Directive::Section(n) => DirectiveView::Section(*n),
        }
    }
}

impl View for Line {
    type V = LineView;

    open spec fn view(&self) -> LineView {
        match self {
            Line::Tag(t) => LineView::Tag(t@),
            Line::Instruction(i) => LineView::Instruction(i.name@, texts(i.params@)),
            Line::Directive(d) => LineView::Directive(d@),
        }
    }
}

/// The values of a list of lines.
pub open spec fn line_views(v: Seq<Line>) -> Seq<LineView> {
    v.map_values(|l: Line| l@)
}

/// The lines of a program that hold something: each trimmed, the empty ones left out.
pub open spec fn program_lines(code: Seq<char>) -> Seq<Seq<char>> {
    fields(code, '\n')
}

/// The directive that line `l` states: its words are `.globl` or `.global` and a name, or
/// `.section` and a section name, or a section name alone. `None` where it states none.
pub open spec fn directive_of(l: Seq<char>) -> Option<DirectiveView> {
    let w = fields(l, ' ');
    if w.len() == 0 {
        None
    } else if w[0] == ".globl"@ || w[0] == ".global"@ {
        if w.len() >= 2 { Some(DirectiveView::Global(w[1])) } else { None }
    } else if w[0] == ".section"@ {
        if w.len() >= 2 {
            match section_prefix(w[1]) {
                Some((_, n)) => Some(DirectiveView::Section(n)),
                None => None,
            }
        } else {
            None
        }
    } else {
        match section_prefix(w[0]) {
            Some((_, n)) => Some(DirectiveView::Section(n)),
            None => None,
        }
    }
}

/// The position of the first `c` in `s`, or the length of `s` where there is none.
pub open spec fn first_index(s: Seq<char>, c: char) -> nat
    decreases s.len(),
{
    if s.len() == 0 || s[0] == c {
        0
    } else {
        1 + first_index(s.drop_first(), c)
    }
}

/// `s` with each `(` read as `,` and each `)` as a space.
pub open spec fn without_parens(s: Seq<char>) -> Seq<char> {
    s.map_values(|c: char| if c == '(' { ',' } else if c == ')' { ' ' } else { c })
}

/// The instruction that line `l` states: its name runs up to the first space; the rest, with
/// `(` and `)` read as separators, is split at each `,` into trimmed parameters.
pub open spec fn instruction_of(l: Seq<char>) -> (Seq<char>, Seq<Seq<char>>) {
    let i = first_index(l, ' ');
    let rest = if i < l.len() { l.subrange((i + 1) as int, l.len() as int) } else { Seq::<char>::empty() };
    (l.take(i as int), trimmed(split(without_parens(rest), ',')))
}

/// `s` without the colons at its end.
pub open spec fn trim_colons(s: Seq<char>) -> Seq<char>
    decreases s.len(),
{
    if s.len() > 0 && s.last() == ':' {
        trim_colons(s.drop_last())
    } else {
        s
    }
}

/// Whether line `l` ends a tag.
pub open spec fn is_tag_line(l: Seq<char>) -> bool {
    l.len() > 0 && l.last() == ':'
}

/// Whether line `l`, not a tag, is a directive.
pub open spec fn is_directive_line(l: Seq<char>) -> bool {
    !is_tag_line(l) && l.len() > 0 && l[0] == '.'
}

/// Whether line `l` can be read: a line that is a directive states one.
pub open spec fn line_readable(l: Seq<char>) -> bool {
    is_directive_line(l) ==> directive_of(l) is Some
}

/// What line `l` states: a tag, a directive or an instruction.
pub open spec fn line_of(l: Seq<char>) -> LineView {
    if is_tag_line(l) {
        LineView::Tag(trim_colons(l))
    } else if is_directive_line(l) {
        LineView::Directive(directive_of(l).unwrap())
    } else {
        LineView::Instruction(instruction_of(l).0, instruction_of(l).1)
    }
}

/// The lines of a program, read.
pub open spec fn program_of(code: Seq<char>) -> Seq<LineView> {
    program_lines(code).map_values(|l: Seq<char>| line_of(l))
}

/// Whether every line of the program can be read.
pub open spec fn program_readable(code: Seq<char>) -> bool {
    forall|k: int| 0 <= k < program_lines(code).len() ==> line_readable(#[trigger] program_lines(code)[k])
}

fn literal(s: &str) -> (res: Vec<char>)
    ensures
        res@ == s@,
{
    chars_of(s)
}

/// The directive that `s[start..end]` states.
fn directive_in(s: &Vec<char>, start: usize, end: usize) -> (res: Option<Directive>)
    requires
        start <= end <= s@.len(),
    ensures
        match res {
            Some(d) => directive_of(s@.subrange(start as int, end as int)) == Some(d@),
            None => directive_of(s@.subrange(start as int, end as int)) is None,
        },
{
    let words = field_ranges(s, start, end, ' ');
    let ghost w = fields(s@.subrange(start as int, end as int), ' ');
    assert(range_texts(s@, words@) == w);
    if words.len() == 0 {
        return None;
    }
    let (a0, b0) = words[0];
    assert(w[0] == s@.subrange(a0 as int, b0 as int));
    let globl = literal(".globl");
    let global = literal(".global");
    let section = literal(".section");
    if range_is(s, a0, b0, &globl) || range_is(s, a0, b0, &global) {
        if words.len() >= 2 {
            let (a1, b1) = words[1];
            assert(w[1] == s@.subrange(a1 as int, b1 as int));
            Some(Directive::Global(text_of(s, a1, b1)))
        } else {
            None
        }
    } else if range_is(s, a0, b0, &section) {
        if words.len() >= 2 {
            let (a1, b1) = words[1];
            assert(w[1] == s@.subrange(a1 as int, b1 as int));
            match section_at(s, a1, b1) {
                Some((_, n)) => Some(Directive::Section(n)),
                None => None,
            }
        } else {
            None
        }
    } else {
        match section_at(s, a0, b0) {
            Some((_, n)) => Some(Directive::Section(n)),
            None => None,
        }
    }
}

/// Reads a directive line: `.globl` or `.global` and a symbol, `.section` and a section name,
/// or a section name alone.
pub fn parse_directive(line: &str) -> (res: Directive)
    requires
        directive_of(line@) is Some,
    ensures
        directive_of(line@) == Some(res@),
{
    let s = chars_of(line);
    assert(s@.subrange(0, s@.len() as int) =~= line@);
    match directive_in(&s, 0, s.len()) {
        Some(d) => d,
        None => {
            assert(false);
            Directive::Global(String::new())
        },
    }
}

/// The instruction that `s[start..end]` states.
fn instruction_in(s: &Vec<char>, start: usize, end: usize) -> (res: UnparsedInstruction)
    requires
        start <= end <= s@.len(),
    ensures
        (res.name@, texts(res.params@)) == instruction_of(s@.subrange(start as int, end as int)),
{
    let ghost l = s@.subrange(start as int, end as int);
    let mut i = start;
    while i < end && s[i] != ' '
        invariant
            start <= i <= end <= s@.len(),
            l == s@.subrange(start as int, end as int),
            first_index(l, ' ') == (i - start) + first_index(s@.subrange(i as int, end as int), ' '),
        decreases end - i,
    {
        assert(s@.subrange(i as int, end as int).drop_first() =~= s@.subrange(i + 1, end as int));
        i = i + 1;
    }
    assert(first_index(s@.subrange(i as int, end as int), ' ') == 0);
    assert(l.take(i - start) =~= s@.subrange(start as int, i as int));
    let name = text_of(s, start, i);
    let mut rest: Vec<char> = Vec::new();
    if i < end {
        let mut j = i + 1;
        while j < end
            invariant
                i < end <= s@.len(),
                i + 1 <= j <= end,
                rest@ == without_parens(s@.subrange(i + 1, j as int)),
            decreases end - j,
        {
            let c = s[j];
            let d = if c == '(' { ',' } else if c == ')' { ' ' } else { c };
            rest.push(d);
            assert(rest@ =~= without_parens(s@.subrange(i + 1, j + 1)));
            j = j + 1;
        }
        assert(l.subrange(i - start + 1, l.len() as int) =~= s@.subrange(i + 1, end as int));
    } else {
        assert(rest@ =~= without_parens(Seq::<char>::empty()));
    }
    let pieces = split_ranges(&rest, 0, rest.len(), ',');
    assert(rest@.subrange(0, rest@.len() as int) =~= rest@);
    let ghost all = split(rest@, ',');
    let mut params: Vec<String> = Vec::new();
    let mut k: usize = 0;
    while k < pieces.len()
        invariant
            k <= pieces@.len(),
            ranges_within(pieces@, 0, rest@.len() as int),
            range_texts(rest@, pieces@) == all,
            texts(params@) == trimmed(all.take(k as int)),
        decreases pieces@.len() - k,
    {
        let (a, b) = pieces[k];
        assert(pieces@[k as int] == (a, b));
        assert(all[k as int] == rest@.subrange(a as int, b as int));
        let (c, d) = trim_range(&rest, a, b);
        let p = text_of(&rest, c, d);
        let ghost before = params@;
        params.push(p);
        assert(texts(params@) =~= texts(before).push(p@));
        assert(trimmed(all.take(k + 1)) =~= trimmed(all.take(k as int)).push(trim(all[k as int])));
        k = k + 1;
    }
    assert(all.take(pieces@.len() as int) =~= all);
    UnparsedInstruction { name, params }
}

/// Reads an instruction line: the name up to the first space, then the parameters, separated
/// by `,` and with `(` and `)` read as separators.
pub fn instruction_line(line: &str) -> (res: Line)
    ensures
        res@ == LineView::Instruction(instruction_of(line@).0, instruction_of(line@).1),
{
    let s = chars_of(line);
    assert(s@.subrange(0, s@.len() as int) =~= line@);
    Line::Instruction(instruction_in(&s, 0, s.len()))
}

/// The line `s[start..end]`, which is not empty, read.
fn line_in(s: &Vec<char>, start: usize, end: usize) -> (res: Line)
    requires
        start < end <= s@.len(),
        line_readable(s@.subrange(start as int, end as int)),
    ensures
        res@ == line_of(s@.subrange(start as int, end as int)),
{
    let ghost l = s@.subrange(start as int, end as int);
    assert(l.last() == s@[end - 1]);
    assert(l[0] == s@[start as int]);
    if s[end - 1] == ':' {
        let mut b = end;
        while b > start && s[b - 1] == ':'
            invariant
                start <= b <= end <= s@.len(),
                trim_colons(l) == trim_colons(s@.subrange(start as int, b as int)),
            decreases b - start,
        {
            assert(s@.subrange(start as int, b as int).drop_last() =~= s@.subrange(start as int, b - 1));
            b = b - 1;
        }
        Line::Tag(text_of(s, start, b))
    } else if s[start] == '.' {
        match directive_in(s, start, end) {
            Some(d) => Line::Directive(d),
            None => {
                assert(false);
                Line::Tag(String::new())
            },
        }
    } else {
        Line::Instruction(instruction_in(s, start, end))
    }
}

/// Splits a program into its lines, each trimmed, the empty ones left out, and reads each as a
/// tag (it ends with `:`), a directive (it starts with `.`) or an instruction.
pub fn preprocess(code: &str) -> (res: Vec<Line>)
    requires
        program_readable(code@),
    ensures
        line_views(res@) == program_of(code@),
{
    let s = chars_of(code);
    assert(s@.subrange(0, s@.len() as int) =~= code@);
    let ls = field_ranges(&s, 0, s.len(), '\n');
    let ghost all = program_lines(code@);
    let mut res: Vec<Line> = Vec::new();
    let mut k: usize = 0;
    while k < ls.len()
        invariant
            k <= ls@.len(),
            s@ == code@,
            ranges_within(ls@, 0, s@.len() as int),
            range_texts(s@, ls@) == all,
            all == program_lines(code@),
            program_readable(code@),
            line_views(res@) == all.take(k as int).map_values(|l: Seq<char>| line_of(l)),
        decreases ls@.len() - k,
    {
        let (a, b) = ls[k];
        assert(ls@[k as int] == (a, b));
        assert(all[k as int] == s@.subrange(a as int, b as int));
        assert(line_readable(all[k as int]));
        proof { lemma_fields_nonempty(code@, '\n', k as int); }
        let line = line_in(&s, a, b);
        let ghost before = res@;
        res.push(line);
        assert(line_views(res@) =~= line_views(before).push(line@));
        assert(all.take(k + 1).map_values(|l: Seq<char>| line_of(l))
            =~= all.take(k as int).map_values(|l: Seq<char>| line_of(l)).push(line_of(all[k as int])));
        k = k + 1;
    }
    assert(all.take(ls@.len() as int) =~= all);
    res
}

/// Every field of a text is non-empty.
proof fn lemma_fields_nonempty(s: Seq<char>, sep: char, k: int)
    requires
        0 <= k < fields(s, sep).len(),
    ensures
        fields(s, sep)[k].len() > 0,
{
    lemma_nonempty_members(trimmed(split(s, sep)), k);
}

proof fn lemma_nonempty_members(ss: Seq<Seq<char>>, k: int)
    requires
        0 <= k < crate::lines::nonempty(ss).len(),
    ensures
        crate::lines::nonempty(ss)[k].len() > 0,
    decreases ss.len(),
{
    if ss.len() > 0 {
        let r = crate::lines::nonempty(ss.drop_last());
        if k < r.len() {
            lemma_nonempty_members(ss.drop_last(), k);
        }
    }
}

/// The upper part that `li` loads of `v`: the multiple of 4096 nearest below or at `v`, rounded
/// up where the rest would exceed 2047, counted in units of 4096 and kept to 32 bits.
pub open spec fn li_high(v: int) -> int {
    (v / 4096 + if v % 4096 > 2047 { 1int } else { 0int }) % 0x1_0000_0000
}

/// What `li` adds to its upper part to make `v`.
pub open spec fn li_low(v: int) -> int {
    v - li_high(v) * 4096
}

/// The lines that load `v` into register `rd`: `mv` from `zero` for 0, one `addi` where the
/// upper part is 0, else `lui` of the upper part, followed by an `addi` where the rest is not 0.
pub open spec fn li_lines(rd: Seq<char>, v: int) -> Seq<LineView> {
    let h = li_high(v);
    let lo = li_low(v);
    let lui = LineView::Instruction("lui"@, seq![rd, "0x"@ + hex(h as nat)]);
    if h == 0 && lo == 0 {
        seq![LineView::Instruction("mv"@, seq![rd, "zero"@])]
    } else if h == 0 {
        seq![LineView::Instruction("addi"@, seq![rd, "x0"@, signed_decimal(lo)])]
    } else if lo != 0 {
        seq![lui, LineView::Instruction("addi"@, seq![rd, rd, signed_decimal(lo)])]
    } else {
        seq![lui]
    }
}

/// Whether `l` is an `li` instruction.
pub open spec fn is_li(l: LineView) -> bool {
    l matches LineView::Instruction(n, _) && n == "li"@
}

/// The lines that stand for `l`: those that load the value for an `li`, else `l` itself.
pub open spec fn expand_line(l: LineView) -> Seq<LineView> {
    match l {
        LineView::Instruction(n, ps) => if n == "li"@ {
            li_lines(ps[0], integer_value(ps[1]).unwrap())
        } else {
            seq![l]
        },
        _ => seq![l],
    }
}

/// The lines that stand for `ls`, in order.
pub open spec fn expand_lines(ls: Seq<LineView>) -> Seq<LineView>
    decreases ls.len(),
{
    if ls.len() == 0 {
        Seq::<LineView>::empty()
    } else {
        expand_lines(ls.drop_last()) + expand_line(ls.last())
    }
}

/// Whether `l`, where it is an `li`, has a register and a readable value whose rest fits in an
/// `i64`.
pub open spec fn li_expandable(l: LineView) -> bool {
    l matches LineView::Instruction(n, ps) ==> (n == "li"@ ==> {
        &&& ps.len() >= 2
        &&& integer_value(ps[1]) is Some
        &&& li_low(integer_value(ps[1]).unwrap()) >= i64::MIN
    })
}

/// Floor division and the remainder that goes with it.
fn floor_div_mod(p: i64, d: u64) -> (res: (i64, u64))
    requires
        1 <= d <= 0x1_0000_0000,
    ensures
        res.0 == (p as int) / (d as int),
        res.1 == (p as int) % (d as int),
        res.1 < d,
{
    if p >= 0 {
        let u = p as u64;
        let q = u / d;
        let r = u % d;
        proof {
            lemma_fundamental_div_mod(u as int, d as int);
            lemma_fundamental_div_mod_converse(p as int, d as int, q as int, r as int);
        }
        (q as i64, r)
    } else {
        let m = (-(p + 1)) as u64;
        let a = m / d;
        let b = m % d;
        proof {
            lemma_fundamental_div_mod(m as int, d as int);
            assert(p == (-(a as int) - 1) * d + (d - 1 - b)) by (nonlinear_arith)
                requires m == d * a + b, p == -(m as int) - 1;
            lemma_fundamental_div_mod_converse(p as int, d as int, -(a as int) - 1, (d - 1 - b) as int);
        }
        (-(a as i64) - 1, d - 1 - b)
    }
}

/// The upper part and the rest that `li` splits `v` into.
fn li_parts(v: i64) -> (res: (u64, i64))
    requires
        li_low(v as int) >= i64::MIN,
    ensures
        res.0 == li_high(v as int),
        res.1 == li_low(v as int),
{
    let (q, r) = floor_div_mod(v, 4096);
    assert(v == q * 4096 + r) by {
        lemma_fundamental_div_mod(v as int, 4096);
    }
    assert(-0x8_0000_0000_0000 <= q < 0x8_0000_0000_0000) by (nonlinear_arith)
        requires v == q * 4096 + r, 0 <= r < 4096, i64::MIN <= v <= i64::MAX;
    let c: i64 = if r > 2047 { 1 } else { 0 };
    let t = q + c;
    let (_, h) = floor_div_mod(t, 0x1_0000_0000);
    assert(h == li_high(v as int));
    assert(h * 4096 <= 0x1_0000_0000 * 4096) by (nonlinear_arith)
        requires h < 0x1_0000_0000;
    let low = v - (h as i64) * 4096;
    (h, low)
}

/// A copy of a list of strings.
fn copy_strings(v: &Vec<String>) -> (res: Vec<String>)
    ensures
        texts(res@) == texts(v@),
{
    let mut res: Vec<String> = Vec::new();
    let mut i: usize = 0;
    while i < v.len()
        invariant
            i <= v@.len(),
            texts(res@) == texts(v@.take(i as int)),
        decreases v@.len() - i,
    {
        let ghost before = res@;
        res.push(v[i].clone());
        assert(texts(res@) =~= texts(before).push(v@[i as int]@));
        assert(texts(v@.take(i + 1)) =~= texts(v@.take(i as int)).push(v@[i as int]@));
        i = i + 1;
    }
    assert(v@.take(v@.len() as int) =~= v@);
    res
}

impl Line {
    /// A copy of the line.
    pub fn duplicate(&self) -> (res: Line)
        ensures
            res@ == self@,
    {
        match self {
            Line::Tag(t) => Line::Tag(t.clone()),
            Line::Instruction(i) => Line::Instruction(UnparsedInstruction {
                name: i.name.clone(),
                params: copy_strings(&i.params),
            }),
            Line::Directive(Directive::Global(g)) => Line::Directive(Directive::Global(g.clone())),
            Line::Directive(Directive::Section(n)) => Line::Directive(Directive::Section(*n)),
        }
    }
}

fn instruction2(name: &str, p0: String, p1: String) -> (res: Line)
    ensures
        res@ == LineView::Instruction(name@, seq![p0@, p1@]),
{
    let mut params: Vec<String> = Vec::new();
    params.push(p0);
    params.push(p1);
    assert(texts(params@) =~= seq![p0@, p1@]);
    Line::Instruction(UnparsedInstruction { name: name.to_owned(), params })
}

fn instruction3(name: &str, p0: String, p1: String, p2: String) -> (res: Line)
    ensures
        res@ == LineView::Instruction(name@, seq![p0@, p1@, p2@]),
{
    let mut params: Vec<String> = Vec::new();
    params.push(p0);
    params.push(p1);
    params.push(p2);
    assert(texts(params@) =~= seq![p0@, p1@, p2@]);
    Line::Instruction(UnparsedInstruction { name: name.to_owned(), params })
}

/// Appends the lines that load `v` into register `rd`.
fn push_li_lines(out: &mut Vec<Line>, rd: &String, v: i64)
    requires
        li_low(v as int) >= i64::MIN,
    ensures
        line_views(final(out)@) == line_views(old(out)@) + li_lines(rd@, v as int),
{
    let ghost before = out@;
    let (h, lo) = li_parts(v);
    let mut low_text = String::new();
    push_signed_decimal(&mut low_text, lo);
    assert(low_text@ =~= signed_decimal(lo as int));
    if h == 0 && lo == 0 {
        out.push(instruction2("mv", rd.clone(), "zero".to_owned()));
    } else if h == 0 {
        out.push(instruction3("addi", rd.clone(), "x0".to_owned(), low_text));
    } else {
        let mut high_text = "0x".to_owned();
        push_hex(&mut high_text, h);
        out.push(instruction2("lui", rd.clone(), high_text));
        if lo != 0 {
            out.push(instruction3("addi", rd.clone(), rd.clone(), low_text));
        }
    }
    assert(line_views(out@) =~= line_views(before) + li_lines(rd@, v as int));
}

/// Replaces each `li` by the instructions that load its value: `lui` of the upper part and
/// `addi` of the rest, or one of them, or `mv` from `zero`. Other lines are kept as they are.
pub fn replace_complex_pseudo(preprocessed: &[Line]) -> (res: Vec<Line>)
    requires
        forall|k: int| 0 <= k < preprocessed@.len() ==> li_expandable(#[trigger] preprocessed@[k]@),
    ensures
        line_views(res@) == expand_lines(line_views(preprocessed@)),
{
    let mut result: Vec<Line> = Vec::new();
    let ghost all = line_views(preprocessed@);
    let li = "li".to_owned();
    let mut k: usize = 0;
    while k < preprocessed.len()
        invariant
            k <= preprocessed@.len(),
            all == line_views(preprocessed@),
            li@ == "li"@,
            forall|m: int| 0 <= m < preprocessed@.len() ==> li_expandable(#[trigger] preprocessed@[m]@),
            line_views(result@) == expand_lines(all.take(k as int)),
        decreases preprocessed@.len() - k,
    {
        let line = &preprocessed[k];
        assert(all[k as int] == line@);
        assert(li_expandable(preprocessed@[k as int]@));
        let ghost before = result@;
        let ghost lk = line@;
        assert(all.take(k + 1).drop_last() =~= all.take(k as int));
        assert(all.take(k + 1).last() == lk);
        match line {
            Line::Instruction(ui) => {
                if ui.name == li {
                    assert(texts(ui.params@)[1] == ui.params@[1]@);
                    let v = parse_integer(ui.params[1].as_str());
                    match v {
                        Some(v) => {
                            assert(texts(ui.params@)[0] == ui.params@[0]@);
                            push_li_lines(&mut result, &ui.params[0], v);
                        },
                        None => {
                            assert(false);
                        },
                    }
                } else {
                    result.push(line.duplicate());
                    assert(line_views(result@) =~= line_views(before) + seq![lk]);
                }
            },
            _ => {
                result.push(line.duplicate());
                assert(line_views(result@) =~= line_views(before) + seq![lk]);
            },
        }
        k = k + 1;
    }
    assert(all.take(preprocessed@.len() as int) =~= all);
    result
}

/// For a value from -2048 up to 4096 below `2^32`, the upper part `li` loads fits the 20 bits of
/// `lui`, the rest fits the 12 signed bits of `addi`, and together they make the value.
pub proof fn lemma_li_split(v: int)
    requires
        -2048 <= v < 0x1_0000_0000 - 2048,
    ensures
        0 <= li_high(v) < 0x10_0000,
        -2048 <= li_low(v) <= 2047,
        li_high(v) * 4096 + li_low(v) == v,
{
    let q = v / 4096;
    let r = v % 4096;
    assert(v == 4096 * q + r) by { lemma_fundamental_div_mod(v, 4096); }
    assert(-1 <= q < 0x10_0000) by (nonlinear_arith)
        requires v == 4096 * q + r, 0 <= r < 4096, -2048 <= v < 0x1_0000_0000 - 2048;
    let t = q + if r > 2047 { 1int } else { 0int };
    assert(0 <= t < 0x10_0000) by {
        if q == -1 {
            assert(r >= 2048) by (nonlinear_arith) requires v == 4096 * q + r, q == -1, v >= -2048;
        }
        if q == 0x10_0000 - 1 {
            assert(r < 2048) by (nonlinear_arith) requires v == 4096 * q + r, q == 0x10_0000 - 1, v < 0x1_0000_0000 - 2048;
        }
    }
    lemma_fundamental_div_mod_converse(t, 0x1_0000_0000, 0, t);
}

/// What `li rd, p` expands to, for `p` from -2048 up to below `2^31`: `mv rd, zero` for 0; one
/// `addi rd, x0, p` where `p` fits 12 signed bits; else `lui rd, 0x{h}`, followed by
/// `addi rd, rd, l` where `l` is not 0, with `h * 4096 + l == p`, `1 <= h < 2^20` and
/// `-2048 <= l <= 2047`.
pub proof fn lemma_li_closed_form(rd: Seq<char>, p: int)
    requires
        -2048 <= p < 0x8000_0000,
    ensures
        p == 0 ==> li_lines(rd, p) == seq![LineView::Instruction("mv"@, seq![rd, "zero"@])],
        p != 0 && -2048 <= p <= 2047 ==> li_lines(rd, p)
            == seq![LineView::Instruction("addi"@, seq![rd, "x0"@, signed_decimal(p)])],
        !(-2048 <= p <= 2047) ==> {
            let h = li_high(p);
            let l = li_low(p);
            &&& h * 4096 + l == p
            &&& 1 <= h < 0x10_0000
            &&& -2048 <= l <= 2047
            &&& li_lines(rd, p) == if l != 0 {
                seq![LineView::Instruction("lui"@, seq![rd, "0x"@ + hex(h as nat)]),
                    LineView::Instruction("addi"@, seq![rd, rd, signed_decimal(l)])]
            } else {
                seq![LineView::Instruction("lui"@, seq![rd, "0x"@ + hex(h as nat)])]
            }
        },
{
    lemma_li_split(p);
    let h = li_high(p);
    let l = li_low(p);
    if -2048 <= p <= 2047 {
        assert(h == 0) by (nonlinear_arith)
            requires h * 4096 + l == p, 0 <= h, -2048 <= l <= 2047, -2048 <= p <= 2047;
        assert(l == p);
    } else {
        assert(h != 0);
    }
}

/// Expanding lines laid one after another expands each part on its own.
pub proof fn lemma_expand_lines_adds_up(a: Seq<LineView>, b: Seq<LineView>)
    ensures
        expand_lines(a + b) == expand_lines(a) + expand_lines(b),
    decreases b.len(),
{
    if b.len() == 0 {
        assert(a + b =~= a);
        assert(expand_lines(a) + expand_lines(b) =~= expand_lines(a));
    } else {
        lemma_expand_lines_adds_up(a, b.drop_last());
        assert((a + b).drop_last() =~= a + b.drop_last());
        assert((a + b).last() == b.last());
        assert(expand_lines(a) + expand_lines(b.drop_last()) + expand_line(b.last())
            =~= expand_lines(a) + (expand_lines(b.drop_last()) + expand_line(b.last())));
    }
}

/// An `li rd, s` line whose value `p` is from -2048 up to below `2^31` is replaced in place, the
/// lines before and after it expanded as they are: by `mv rd, zero` for 0, by one
/// `addi rd, x0, p` where `p` fits 12 signed bits, else by `lui rd, 0x{h}` followed by
/// `addi rd, rd, l` where `l` is not 0, with `h * 4096 + l == p`, `1 <= h < 2^20` and
/// `-2048 <= l <= 2047`.
pub proof fn lemma_li_replaced_in_place(ls: Seq<LineView>, k: int)
    requires
        0 <= k < ls.len(),
        is_li(ls[k]),
        ls[k]->Instruction_1.len() >= 2,
        integer_value(ls[k]->Instruction_1[1]) is Some,
        -2048 <= integer_value(ls[k]->Instruction_1[1])->0 < 0x8000_0000,
    ensures
        ({
            let rd = ls[k]->Instruction_1[0];
            let p = integer_value(ls[k]->Instruction_1[1])->0;
            let h = li_high(p);
            let l = li_low(p);
            let lui = LineView::Instruction("lui"@, seq![rd, "0x"@ + hex(h as nat)]);
            let replaced = if p == 0 {
                seq![LineView::Instruction("mv"@, seq![rd, "zero"@])]
            } else if -2048 <= p <= 2047 {
                seq![LineView::Instruction("addi"@, seq![rd, "x0"@, signed_decimal(p)])]
            } else if l != 0 {
                seq![lui, LineView::Instruction("addi"@, seq![rd, rd, signed_decimal(l)])]
            } else {
                seq![lui]
            };
            &&& expand_lines(ls) == expand_lines(ls.take(k)) + replaced + expand_lines(ls.skip(k + 1))
            &&& !(-2048 <= p <= 2047) ==> h * 4096 + l == p && 1 <= h < 0x10_0000 && -2048 <= l <= 2047
        }),
{
    let rd = ls[k]->Instruction_1[0];
    let p = integer_value(ls[k]->Instruction_1[1])->0;
    lemma_li_closed_form(rd, p);
    lemma_expand_lines_adds_up(ls.take(k), ls.skip(k));
    assert(ls.take(k) + ls.skip(k) =~= ls);
    lemma_expand_lines_adds_up(seq![ls[k]], ls.skip(k + 1));
    assert(seq![ls[k]] + ls.skip(k + 1) =~= ls.skip(k));
    assert(seq![ls[k]].drop_last() =~= Seq::<LineView>::empty());
    assert(seq![ls[k]].last() == ls[k]);
    assert(expand_lines(Seq::<LineView>::empty()) =~= Seq::<LineView>::empty());
    assert(expand_lines(seq![ls[k]]) =~= expand_line(ls[k]));
    assert(expand_lines(ls.take(k)) + (expand_line(ls[k]) + expand_lines(ls.skip(k + 1)))
        =~= expand_lines(ls.take(k)) + expand_line(ls[k]) + expand_lines(ls.skip(k + 1)));
}

/// Lines other than `li` are kept as they are, in order.
pub proof fn lemma_expand_keeps_other_lines(ls: Seq<LineView>)
    requires
        forall|k: int| 0 <= k < ls.len() ==> !is_li(#[trigger] ls[k]),
    ensures
        expand_lines(ls) == ls,
    decreases ls.len(),
{
    if ls.len() > 0 {
        lemma_expand_keeps_other_lines(ls.drop_last());
        assert(!is_li(ls[ls.len() - 1]));
        assert(expand_line(ls.last()) == seq![ls.last()]);
        assert(ls.drop_last() + seq![ls.last()] =~= ls);
    }
}

} // verus!
