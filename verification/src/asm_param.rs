//! Reading the parameters of an instruction as written, and the instruction itself against the
//! instruction set: its template by name, each parameter a register, a CSR, a number or a
//! symbol.
use vstd::prelude::*;

use crate::assembly::{UnparsedInstruction, texts};
use crate::clef::Bits;
use crate::lines::text_of;
use crate::number_text::{integer_value, parse_integer};
use crate::param::{Decided, Param};
use crate::simple_instruction::{SimpleInstruction, Template};
use crate::template::TemplatePart;
use crate::text::chars_of;
use crate::transform::{BitsAt, ParamTransformer};

verus! {

/// A parameter as read: a register, a CSR, an immediate or a symbol.
pub enum ParamView {
    Register(u8),
    Csr(u16),
    Immediate(i32),
    Symbol(Seq<char>),
}

/// The parameter as a value; `None` for a resolved symbol, which reading never gives.
pub open spec fn param_view(p: Param) -> Option<ParamView> {
    match p {
        Param::Decided(Decided::Register(r)) => Some(ParamView::Register(r)),
        Param::Decided(Decided::Csr(c)) => Some(ParamView::Csr(c)),
        Param::Decided(Decided::Immediate(i)) => Some(ParamView::Immediate(i)),
        Param::Unresolved(s) => Some(ParamView::Symbol(s@)),
        Param::Resolved(..) => None,
    }
}

/// A space or a tab.
pub open spec fn is_blank(c: char) -> bool {
    c == ' ' || c == '\t'
}

/// A space, a tab, a line feed or a carriage return.
pub open spec fn is_multispace(c: char) -> bool {
    c == ' ' || c == '\t' || c == '\n' || c == '\r'
}

/// An ASCII letter or digit.
pub open spec fn is_alnum(c: char) -> bool {
    ('0' <= c && c <= '9') || ('a' <= c && c <= 'z') || ('A' <= c && c <= 'Z')
}

/// A character that can start a symbol: a letter, `_` or `.`.
pub open spec fn ident_start(c: char) -> bool {
    ('a' <= c && c <= 'z') || ('A' <= c && c <= 'Z') || c == '_' || c == '.'
}

/// A character that can go on in a symbol: a letter, a digit, `_` or `.`.
pub open spec fn ident_char(c: char) -> bool {
    is_alnum(c) || c == '_' || c == '.'
}

/// The end of the run of blanks from `i`.
pub open spec fn blank_end(s: Seq<char>, i: nat) -> nat
    decreases s.len() - i,
{
    if i < s.len() && is_blank(s[i as int]) { blank_end(s, i + 1) } else { i }
}

/// The end of the run of white space from `i`.
pub open spec fn multispace_end(s: Seq<char>, i: nat) -> nat
    decreases s.len() - i,
{
    if i < s.len() && is_multispace(s[i as int]) { multispace_end(s, i + 1) } else { i }
}

/// The end of the run of letters and digits from `i`.
pub open spec fn alnum_end(s: Seq<char>, i: nat) -> nat
    decreases s.len() - i,
{
    if i < s.len() && is_alnum(s[i as int]) { alnum_end(s, i + 1) } else { i }
}

/// The end of the run of symbol characters from `i`.
pub open spec fn ident_end(s: Seq<char>, i: nat) -> nat
    decreases s.len() - i,
{
    if i < s.len() && ident_char(s[i as int]) { ident_end(s, i + 1) } else { i }
}

/// The word a parameter starts with, after blanks: its letters and digits.
pub open spec fn first_word(s: Seq<char>) -> Seq<char> {
    s.subrange(blank_end(s, 0) as int, alnum_end(s, blank_end(s, 0)) as int)
}

/// The value of `name` in a table; a later entry of a name counts.
pub open spec fn lookup<T>(table: Seq<(Seq<char>, T)>, name: Seq<char>) -> Option<T>
    decreases table.len(),
{
    if table.len() == 0 {
        None
    } else if table.last().0 == name {
        Some(table.last().1)
    } else {
        lookup(table.drop_last(), name)
    }
}

/// A parameter as written, read: the register or the CSR its first word names, else the
/// number it starts with after white space, where it fits in an `i32`, else the symbol it
/// starts with. `None` where it is none of these.
pub open spec fn read_param(s: Seq<char>, registers: Seq<(Seq<char>, u8)>, csrs: Seq<(Seq<char>, u16)>) -> Option<ParamView> {
    match lookup(registers, first_word(s)) {
        Some(r) => Some(ParamView::Register(r)),
        None => match lookup(csrs, first_word(s)) {
            Some(c) => Some(ParamView::Csr(c)),
            None => match integer_value(s.skip(multispace_end(s, 0) as int)) {
                Some(v) if i32::MIN <= v <= i32::MAX => Some(ParamView::Immediate(v as i32)),
                _ => if s.len() > 0 && ident_start(s[0]) {
                    Some(ParamView::Symbol(s.take(ident_end(s, 1) as int)))
                } else {
                    None
                },
            },
        },
    }
}

/// A table as values.
pub open spec fn names_view<T>(table: Seq<(String, T)>) -> Seq<(Seq<char>, T)> {
    table.map_values(|e: (String, T)| (e.0@, e.1))
}

fn blank_end_at(s: &Vec<char>, i: usize) -> (res: usize)
    requires
        i <= s@.len(),
    ensures
        res == blank_end(s@, i as nat),
        i <= res <= s@.len(),
    decreases s@.len() - i,
{
    if i < s.len() && (s[i] == ' ' || s[i] == '\t') { blank_end_at(s, i + 1) } else { i }
}

fn multispace_end_at(s: &Vec<char>, i: usize) -> (res: usize)
    requires
        i <= s@.len(),
    ensures
        res == multispace_end(s@, i as nat),
        i <= res <= s@.len(),
    decreases s@.len() - i,
{
    if i < s.len() && (s[i] == ' ' || s[i] == '\t' || s[i] == '\n' || s[i] == '\r') { multispace_end_at(s, i + 1) } else { i }
}

fn alnum_end_at(s: &Vec<char>, i: usize) -> (res: usize)
    requires
        i <= s@.len(),
    ensures
        res == alnum_end(s@, i as nat),
        i <= res <= s@.len(),
    decreases s@.len() - i,
{
    if i < s.len() && (('0' <= s[i] && s[i] <= '9') || ('a' <= s[i] && s[i] <= 'z') || ('A' <= s[i] && s[i] <= 'Z')) {
        alnum_end_at(s, i + 1)
    } else {
        i
    }
}

fn ident_end_at(s: &Vec<char>, i: usize) -> (res: usize)
    requires
        i <= s@.len(),
    ensures
        res == ident_end(s@, i as nat),
        i <= res <= s@.len(),
    decreases s@.len() - i,
{
    if i < s.len() && (('0' <= s[i] && s[i] <= '9') || ('a' <= s[i] && s[i] <= 'z') || ('A' <= s[i] && s[i] <= 'Z')
        || s[i] == '_' || s[i] == '.') {
        ident_end_at(s, i + 1)
    } else {
        i
    }
}

/// The value of `name` in a table; a later entry of a name counts.
fn lookup_in<T: Copy>(table: &[(String, T)], name: &String) -> (res: Option<T>)
    ensures
        res == lookup(names_view(table@), name@),
{
    let mut k: usize = table.len();
    assert(names_view(table@).take(table@.len() as int) =~= names_view(table@));
    while k > 0
        invariant
            k <= table@.len(),
            lookup(names_view(table@), name@) == lookup(names_view(table@).take(k as int), name@),
        decreases k,
    {
        let ghost before = names_view(table@).take(k as int);
        assert(before.drop_last() =~= names_view(table@).take(k - 1));
        assert(before.last() == (table@[k - 1].0@, table@[k - 1].1));
        if table[k - 1].0 == *name {
            return Some(table[k - 1].1);
        }
        k = k - 1;
    }
    None
}

/// Reads a parameter as written: a register, a CSR, a number or a symbol.
pub fn parse_param(text: &String, registers: &[(String, u8)], csrs: &[(String, u16)]) -> (res: Option<Param>)
    ensures
        match res {
            Some(p) => Some(param_view(p)->0) == read_param(text@, names_view(registers@), names_view(csrs@))
                && param_view(p) is Some,
            None => read_param(text@, names_view(registers@), names_view(csrs@)) is None,
        },
{
    let s = chars_of(text.as_str());
    let a = blank_end_at(&s, 0);
    let b = alnum_end_at(&s, a);
    let word = text_of(&s, a, b);
    assert(word@ == first_word(text@));
    if let Some(r) = lookup_in(registers, &word) {
        return Some(Param::Decided(Decided::Register(r)));
    }
    if let Some(c) = lookup_in(csrs, &word) {
        return Some(Param::Decided(Decided::Csr(c)));
    }
    let m = multispace_end_at(&s, 0);
    let rest = text_of(&s, m, s.len());
    assert(rest@ =~= text@.skip(m as int));
    match parse_integer(rest.as_str()) {
        Some(v) => {
            if -0x8000_0000i64 <= v && v <= 0x7fff_ffffi64 {
                return Some(Param::Decided(Decided::Immediate(v as i32)));
            }
        },
        None => {},
    }
    if s.len() > 0 && (('a' <= s[0] && s[0] <= 'z') || ('A' <= s[0] && s[0] <= 'Z') || s[0] == '_' || s[0] == '.') {
        let e = ident_end_at(&s, 1);
        let name = text_of(&s, 0, e);
        assert(name@ =~= text@.take(e as int));
        Some(Param::Unresolved(name))
    } else {
        None
    }
}

/// The part is the same as `b`: the same bit pattern, or the same transformer of the same
/// parameter.
pub open spec fn same_part(a: TemplatePart, b: TemplatePart) -> bool {
    match a {
        TemplatePart::BitPattern(x) => b matches TemplatePart::BitPattern(y) && x@ == y@,
        TemplatePart::ParamTransformer(i, t) => b matches TemplatePart::ParamTransformer(j, u) && i == j && t == u,
    }
}

/// The template is the same as `b`: the same name and the same parts.
pub open spec fn same_template(a: Template, b: Template) -> bool {
    &&& a.name == b.name
    &&& a.parts@.len() == b.parts@.len()
    &&& forall|k: int| 0 <= k < a.parts@.len() ==> same_part(#[trigger] a.parts@[k], b.parts@[k])
}

/// A copy of a transformer.
fn copy_transformer(t: &ParamTransformer) -> (res: ParamTransformer)
    ensures
        res == *t,
{
    match t {
        ParamTransformer::BitAt(x) => ParamTransformer::BitAt(*x),
        ParamTransformer::BitsAt(x) => ParamTransformer::BitsAt(BitsAt { start: x.start, end: x.end }),
        ParamTransformer::Register(x) => ParamTransformer::Register(*x),
        ParamTransformer::Csr(x) => ParamTransformer::Csr(*x),
        ParamTransformer::JalForm(x) => ParamTransformer::JalForm(*x),
        ParamTransformer::BranchHigh(x) => ParamTransformer::BranchHigh(*x),
        ParamTransformer::BranchLow(x) => ParamTransformer::BranchLow(*x),
    }
}

impl Template {
    /// A copy of the template.
    pub fn duplicate(&self) -> (res: Template)
        ensures
            same_template(res, *self),
    {
        let mut parts: Vec<TemplatePart> = Vec::new();
        let mut k: usize = 0;
        while k < self.parts.len()
            invariant
                k <= self.parts@.len(),
                parts@.len() == k,
                forall|j: int| 0 <= j < k ==> same_part(#[trigger] parts@[j], self.parts@[j]),
            decreases self.parts@.len() - k,
        {
            let part = match &self.parts[k] {
                TemplatePart::BitPattern(bits) => TemplatePart::BitPattern(Bits::from_bools(bits.to_bools())),
                TemplatePart::ParamTransformer(id, t) => TemplatePart::ParamTransformer(*id, copy_transformer(t)),
            };
            parts.push(part);
            k = k + 1;
        }
        Template { name: self.name.clone(), parts }
    }
}

/// The template named `name`; a later template of a name counts.
pub open spec fn template_named(templates: Seq<Template>, name: Seq<char>) -> Option<int>
    decreases templates.len(),
{
    if templates.len() == 0 {
        None
    } else if templates.last().name@ == name {
        Some(templates.len() - 1)
    } else {
        template_named(templates.drop_last(), name)
    }
}

/// Every parameter as written can be read.
pub open spec fn params_readable(params: Seq<Seq<char>>, registers: Seq<(Seq<char>, u8)>, csrs: Seq<(Seq<char>, u16)>) -> bool {
    forall|j: int| 0 <= j < params.len() ==> read_param(#[trigger] params[j], registers, csrs) is Some
}

/// The instruction written as `name` with `params` can be read: it has a template and every
/// parameter can be read.
pub open spec fn convertible(name: Seq<char>, params: Seq<Seq<char>>, templates: Seq<Template>,
    registers: Seq<(Seq<char>, u8)>, csrs: Seq<(Seq<char>, u16)>) -> bool {
    template_named(templates, name) is Some && params_readable(params, registers, csrs)
}

/// `ins` is the instruction written as `name` with `params`, read: the template of its name,
/// each parameter read, not yet placed.
pub open spec fn converted(ins: SimpleInstruction, name: Seq<char>, params: Seq<Seq<char>>, templates: Seq<Template>,
    registers: Seq<(Seq<char>, u8)>, csrs: Seq<(Seq<char>, u16)>) -> bool {
    &&& template_named(templates, name) matches Some(t) && same_template(ins.template, templates[t])
    &&& ins.params@.len() == params.len()
    &&& forall|j: int| 0 <= j < params.len() ==> (read_param(params[j], registers, csrs) matches Some(v)
        && param_view(#[trigger] ins.params@[j]) == Some(v))
    &&& ins.offset_bytes is None
}

/// The template named `name`.
fn find_template(templates: &[Template], name: &String) -> (res: Option<usize>)
    ensures
        match res {
            Some(t) => t < templates@.len() && template_named(templates@, name@) == Some(t as int),
            None => template_named(templates@, name@) is None,
        },
{
    let mut k: usize = templates.len();
    assert(templates@.take(templates@.len() as int) =~= templates@);
    while k > 0
        invariant
            k <= templates@.len(),
            template_named(templates@, name@) == template_named(templates@.take(k as int), name@),
        decreases k,
    {
        assert(templates@.take(k as int).drop_last() =~= templates@.take(k - 1));
        if templates[k - 1].name == *name {
            return Some(k - 1);
        }
        k = k - 1;
    }
    None
}

/// Reads an instruction as written against the instruction set: the template of its name, and
/// each parameter a register, a CSR, a number or a symbol. `None` where there is no template of
/// its name or a parameter cannot be read.
pub fn convert_instruction(unparsed: &UnparsedInstruction, templates: &[Template], registers: &[(String, u8)],
    csrs: &[(String, u16)]) -> (res: Option<SimpleInstruction>)
    ensures
        match res {
            Some(ins) => converted(ins, unparsed.name@, texts(unparsed.params@), templates@, names_view(registers@),
                names_view(csrs@)),
            None => !convertible(unparsed.name@, texts(unparsed.params@), templates@, names_view(registers@),
                names_view(csrs@)),
        },
{
    let t = match find_template(templates, &unparsed.name) {
        Some(t) => t,
        None => return None,
    };
    let mut params: Vec<Param> = Vec::new();
    let mut j: usize = 0;
    while j < unparsed.params.len()
        invariant
            j <= unparsed.params@.len(),
            params@.len() == j,
            forall|q: int| 0 <= q < j ==> (read_param(texts(unparsed.params@)[q], names_view(registers@), names_view(csrs@))
                matches Some(v) && param_view(#[trigger] params@[q]) == Some(v)),
            forall|q: int| 0 <= q < j ==> read_param(#[trigger] texts(unparsed.params@)[q], names_view(registers@),
                names_view(csrs@)) is Some,
        decreases unparsed.params@.len() - j,
    {
        match parse_param(&unparsed.params[j], registers, csrs) {
            Some(p) => params.push(p),
            None => {
                assert(read_param(texts(unparsed.params@)[j as int], names_view(registers@), names_view(csrs@)) is None);
                return None;
            },
        }
        j = j + 1;
    }
    Some(SimpleInstruction { template: templates[t].duplicate(), params, offset_bytes: None })
}

} // verus!
