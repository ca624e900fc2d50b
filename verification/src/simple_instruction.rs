//! Instructions held with their named template, their parameters, which may still wait for a
//! symbol, and their offset in a section.
use vstd::prelude::*;

use crate::clef::{Bits, PendingSymbol, Symbol};
use crate::number_text::{joined, push_joined, push_text};
use crate::param::{Decided, Param, ParsedParam, distance_to, param_text};
use crate::template::{
    TemplatePart, decode, lemma_render_reads_back, render_parts, rendered, renderable, sign_extend, sign_extend_low,
    transformers_well_formed,
};
use crate::template_text::part_as_text;
use crate::template_text::template_text;
use crate::transform::ParamTransformer;

verus! {

/// A part of a named template.
pub type Part = TemplatePart;

/// A template of an instruction, with the name of the instruction.
#[derive(Debug, Eq, PartialEq, Clone)]
pub struct Template {
    /// The name of the instruction.
    pub name: String,
    /// The parts, the least significant first.
    pub parts: Vec<TemplatePart>,
}

/// How many low bits of parameter `id` the first `k` parts hold: the largest end of a
/// `bits_at` on it, and 20 where a `jal_form` takes it.
pub open spec fn param_width(parts: Seq<TemplatePart>, id: usize, k: nat) -> nat
    decreases k,
{
    if k == 0 {
        0
    } else {
        let prev = param_width(parts, id, (k - 1) as nat);
        match parts[k - 1] {
            TemplatePart::ParamTransformer(i, ParamTransformer::BitsAt(b)) => if i == id && b.end > prev { b.end as nat } else { prev },
            TemplatePart::ParamTransformer(i, ParamTransformer::JalForm(_)) => if i == id && 20 > prev { 20 } else { prev },
            _ => prev,
        }
    }
}

/// The bits the first `k` parts count for: a bit pattern its length, a transformer the width
/// of its parameter.
pub open spec fn parts_bit_count(parts: Seq<TemplatePart>, k: nat) -> nat
    decreases k,
{
    if k == 0 {
        0
    } else {
        parts_bit_count(parts, (k - 1) as nat) + match parts[k - 1] {
            TemplatePart::BitPattern(bits) => bits@.len(),
            TemplatePart::ParamTransformer(id, _) => param_width(parts, id, parts.len()),
        }
    }
}

/// The value a parameter stands for when it is rendered: an unresolved symbol counts as the
/// immediate 0, a resolved one as its value.
pub open spec fn known_value(p: Param) -> ParsedParam {
    let d = match p {
        Param::Decided(d) => d,
        Param::Resolved(_, d) => d,
        Param::Unresolved(_) => Decided::Immediate(0),
    };
    match d {
        Decided::Immediate(i) => ParsedParam::Immediate(i),
        Decided::Register(r) => ParsedParam::Register(r),
        Decided::Csr(c) => ParsedParam::Csr(c),
    }
}

/// The values `params` stand for.
pub open spec fn known_values(params: Seq<Param>) -> Seq<ParsedParam> {
    Seq::new(params.len(), |i: int| known_value(params[i]))
}

/// The parameter is of the kind the transformer reads: a known register, a known CSR, or an
/// immediate, known or still a symbol.
pub open spec fn kind_fits(t: ParamTransformer, p: Param) -> bool {
    match t {
        ParamTransformer::Register(_) => p matches Param::Decided(Decided::Register(_)),
        ParamTransformer::Csr(_) => p matches Param::Decided(Decided::Csr(_)),
        _ => p matches Param::Decided(Decided::Immediate(_)) || p matches Param::Resolved(_, Decided::Immediate(_)) || p is Unresolved,
    }
}

/// Every part can be rendered from `params` at `offset`.
pub open spec fn params_fit(parts: Seq<TemplatePart>, params: Seq<Param>, offset: u64) -> bool {
    forall|k: int| 0 <= k < parts.len() ==> match #[trigger] parts[k] {
        TemplatePart::ParamTransformer(id, t) => id < params.len() && t.well_formed() && kind_fits(t, params[id as int])
            && t.accepts(offset, known_value(params[id as int])),
        _ => true,
    }
}

/// The value `p` stands for.
fn value_of(p: &Param) -> (res: ParsedParam)
    ensures
        res == known_value(*p),
{
    let d = match p {
        Param::Decided(d) => *d,
        Param::Resolved(_, d) => *d,
        Param::Unresolved(_) => Decided::Immediate(0),
    };
    match d {
        Decided::Immediate(i) => ParsedParam::Immediate(i),
        Decided::Register(r) => ParsedParam::Register(r),
        Decided::Csr(c) => ParsedParam::Csr(c),
    }
}

impl Template {
    /// How many low bits of parameter `param_id` the template holds: the largest end of a
    /// `bits_at` on it, and 20 where a `jal_form` takes it.
    pub fn param_bit_count(&self, param_id: usize) -> (res: usize)
        ensures
            res == param_width(self.parts@, param_id, self.parts@.len()),
    {
        let mut current_result: usize = 0;
        let mut i: usize = 0;
        while i < self.parts.len()
            invariant
                i <= self.parts@.len(),
                current_result == param_width(self.parts@, param_id, i as nat),
                current_result <= 255,
            decreases self.parts@.len() - i,
        {
            match &self.parts[i] {
                TemplatePart::ParamTransformer(id, ParamTransformer::BitsAt(bits_at)) => {
                    if param_id == *id && bits_at.end as usize > current_result {
                        current_result = bits_at.end as usize;
                    }
                },
                TemplatePart::ParamTransformer(id, ParamTransformer::JalForm(_)) => {
                    if param_id == *id && 20 > current_result {
                        current_result = 20;
                    }
                },
                _ => {},
            }
            i = i + 1;
        }
        current_result
    }

    /// How many bits an instruction of this template takes, as its parts count them.
    pub fn bit_count(&self) -> (res: usize)
        requires
            parts_bit_count(self.parts@, self.parts@.len()) <= usize::MAX,
        ensures
            res == parts_bit_count(self.parts@, self.parts@.len()),
    {
        let mut total: usize = 0;
        let mut i: usize = 0;
        while i < self.parts.len()
            invariant
                i <= self.parts@.len(),
                total == parts_bit_count(self.parts@, i as nat),
                parts_bit_count(self.parts@, self.parts@.len()) <= usize::MAX,
            decreases self.parts@.len() - i,
        {
            proof {
                lemma_parts_bit_count_grows(self.parts@, (i + 1) as nat, self.parts@.len());
            }
            match &self.parts[i] {
                TemplatePart::BitPattern(bit_pattern) => {
                    total = total + bit_pattern.len();
                },
                TemplatePart::ParamTransformer(param_id, _) => {
                    let width = self.param_bit_count(*param_id);
                    total = total + width;
                },
            }
            i = i + 1;
        }
        total
    }

    /// The binary form of an instruction with `params`, at `offset`.
    pub fn render(&self, params: &[Param], offset: u64) -> (res: Bits)
        requires
            params_fit(self.parts@, params@, offset),
        ensures
            res@ == rendered(self.parts@, known_values(params@), offset, self.parts@.len()),
    {
        let mut values: Vec<ParsedParam> = Vec::new();
        let mut i: usize = 0;
        while i < params.len()
            invariant
                i <= params@.len(),
                values@ == known_values(params@).take(i as int),
            decreases params@.len() - i,
        {
            let v = value_of(&params[i]);
            values.push(v);
            i = i + 1;
            assert(values@ =~= known_values(params@).take(i as int));
        }
        assert(values@ =~= known_values(params@));
        assert(renderable(self.parts@, values@, offset)) by {
            assert forall|k: int| 0 <= k < self.parts@.len() implies match #[trigger] self.parts@[k] {
                TemplatePart::ParamTransformer(id, t) => id < values@.len() && t.well_formed() && t.accepts(offset, values@[id as int]),
                _ => true,
            } by {
                match self.parts@[k] {
                    TemplatePart::ParamTransformer(id, t) => {},
                    _ => {},
                }
            }
        }
        Bits::from_bools(render_parts(&self.parts, values.as_slice(), offset))
    }

    /// Reads a template named `name` from its text: at least one part, the most significant
    /// written first. Gives how many characters were read and the template, or `None` where no
    /// part can be read.
    pub fn parse(code: &str, name: &str) -> (res: Option<(usize, Template)>)
        ensures
            match res {
                Some((e, t)) => t.name@ == name@
                    && template_text(code@) == Some((t.parts@.map_values(|p: TemplatePart| part_as_text(p)), e as nat)),
                None => template_text(code@) is None,
            },
    {
        match crate::template_text::parse(code) {
            Some((e, t)) => Some((e, Template { name: name.to_string(), parts: t.parts })),
            None => None,
        }
    }
}

proof fn lemma_parts_bit_count_grows(parts: Seq<TemplatePart>, k: nat, n: nat)
    requires
        k <= n <= parts.len(),
    ensures
        parts_bit_count(parts, k) <= parts_bit_count(parts, n),
    decreases n - k,
{
    if k < n {
        lemma_parts_bit_count_grows(parts, k, (n - 1) as nat);
    }
}

/// The first of `pending` that an instruction at `offset_bytes` waits for.
pub open spec fn waited_symbol(pending: Seq<PendingSymbol>, offset_bytes: u32) -> Option<int>
    decreases pending.len(),
{
    if pending.len() == 0 {
        None
    } else {
        match waited_symbol(pending.drop_last(), offset_bytes) {
            Some(i) => Some(i),
            None => if pending.last().pending_instructions_offset_bytes@.contains(offset_bytes) {
                Some(pending.len() - 1)
            } else {
                None
            },
        }
    }
}

/// The name of the symbol an instruction at `offset_bytes` waits for, if any.
pub open spec fn waited_name(pending: Seq<PendingSymbol>, offset_bytes: u32) -> Option<String> {
    match waited_symbol(pending, offset_bytes) {
        Some(i) => Some(pending[i].name),
        None => None,
    }
}

/// The offset in bytes of an instruction `offset_bits` bits into its section: the low 32 bits
/// of the offset in bits, divided by 8.
pub open spec fn offset_bytes_of(offset_bits: usize) -> u32 {
    ((offset_bits as u32) / 8) as u32
}

/// A known value as a parameter as parsed.
pub open spec fn decided_value(d: Decided) -> ParsedParam {
    match d {
        Decided::Immediate(i) => ParsedParam::Immediate(i),
        Decided::Register(r) => ParsedParam::Register(r),
        Decided::Csr(c) => ParsedParam::Csr(c),
    }
}

/// A parameter as parsed, back as a known value.
pub open spec fn as_decided(p: ParsedParam) -> Decided {
    match p {
        ParsedParam::Register(r) => Decided::Register(r),
        ParsedParam::Csr(c) => Decided::Csr(c),
        ParsedParam::Immediate(i) => Decided::Immediate(i),
        ParsedParam::Symbol(_) => Decided::Immediate(0),
    }
}

/// The transformer reads an immediate.
pub open spec fn reads_immediate(t: ParamTransformer) -> bool {
    !(t is Register || t is Csr)
}

/// `p` after the bits `part` are decoded into it: a known value of the kind the transformer
/// reads, or a resolved immediate where it reads an immediate, takes the bits; any other
/// parameter stays as it is.
pub open spec fn updated_param(t: ParamTransformer, part: Seq<bool>, p: Param) -> Param {
    match p {
        Param::Decided(d) => if t.decodes(decided_value(d)) {
            Param::Decided(as_decided(t.update_spec(part, decided_value(d))))
        } else {
            p
        },
        Param::Resolved(n, Decided::Immediate(i)) => if reads_immediate(t) {
            Param::Resolved(n, as_decided(t.update_spec(part, ParsedParam::Immediate(i))))
        } else {
            p
        },
        _ => p,
    }
}

/// The parameter a transformer starts from.
pub open spec fn default_param(t: ParamTransformer) -> Param {
    match t {
        ParamTransformer::Register(_) => Param::Decided(Decided::Register(0)),
        ParamTransformer::Csr(_) => Param::Decided(Decided::Csr(0)),
        _ => Param::Decided(Decided::Immediate(0)),
    }
}

/// `params` grown with empty slots so that it has a slot at `id`.
pub open spec fn grow_slots(params: Seq<Option<Param>>, id: usize) -> Seq<Option<Param>> {
    if id < params.len() {
        params
    } else {
        params + Seq::new((id + 1 - params.len()) as nat, |i: int| None::<Param>)
    }
}

/// Reading one part at `state`: how many bits are read, and the parameters read so far. Where
/// the instruction waits for a symbol, each parameter a transformer reads is that symbol, and
/// no bits are read for it. `None` where a bit pattern does not match.
pub open spec fn read_step(part: TemplatePart, bits: Seq<bool>, waited: Option<String>,
    state: (nat, Seq<Option<Param>>)) -> Option<(nat, Seq<Option<Param>>)> {
    let pos = state.0;
    let params = state.1;
    match part {
        TemplatePart::BitPattern(pattern) => if pos + pattern@.len() <= bits.len()
            && bits.subrange(pos as int, (pos + pattern@.len()) as int) == pattern@ {
            Some(((pos + pattern@.len()) as nat, params))
        } else {
            None
        },
        TemplatePart::ParamTransformer(id, t) => {
            let grown = grow_slots(params, id);
            match waited {
                Some(name) => Some((pos, grown.update(id as int, Some(Param::Unresolved(name))))),
                None => {
                    let count = t.positions().len();
                    let current = match grown[id as int] {
                        Some(p) => p,
                        None => default_param(t),
                    };
                    let updated = updated_param(t, bits.subrange(pos as int, (pos + count) as int), current);
                    Some(((pos + count) as nat, grown.update(id as int, Some(updated))))
                },
            }
        },
    }
}

/// Reading the first `k` parts.
pub open spec fn read_parts(parts: Seq<TemplatePart>, bits: Seq<bool>, waited: Option<String>, k: nat)
    -> Option<(nat, Seq<Option<Param>>)>
    decreases k,
{
    if k == 0 {
        Some((0, Seq::empty()))
    } else {
        match read_parts(parts, bits, waited, (k - 1) as nat) {
            Some(state) => read_step(parts[k - 1], bits, waited, state),
            None => None,
        }
    }
}

/// Reading never runs past the end of `bits` at a parameter's bits.
pub open spec fn reads_within(parts: Seq<TemplatePart>, bits: Seq<bool>, waited: Option<String>) -> bool {
    forall|k: int| 0 <= k < parts.len() ==> (#[trigger] read_parts(parts, bits, waited, k as nat) matches Some(state)
        ==> (parts[k] matches TemplatePart::ParamTransformer(_, t) ==> state.0 + t.positions().len() <= bits.len()))
}

/// The immediate of a known or resolved parameter.
pub open spec fn immediate_of(p: Param) -> Option<i32> {
    match p {
        Param::Decided(Decided::Immediate(i)) => Some(i),
        Param::Resolved(_, Decided::Immediate(i)) => Some(i),
        _ => None,
    }
}

/// `p` with its immediate, where it has one, sign-extended from its low `width` bits.
pub open spec fn extended(p: Param, width: nat) -> Param {
    match p {
        Param::Decided(Decided::Immediate(i)) => Param::Decided(Decided::Immediate(sign_extend(i as u32, width))),
        Param::Resolved(n, Decided::Immediate(i)) => Param::Resolved(n, Decided::Immediate(sign_extend(i as u32, width))),
        _ => p,
    }
}

/// The parameters read, each immediate sign-extended from the width of its parameter.
pub open spec fn read_params(parts: Seq<TemplatePart>, params: Seq<Option<Param>>) -> Seq<Param> {
    Seq::new(params.len(), |id: int| extended(params[id]->0, param_width(parts, id as usize, parts.len())))
}

/// Every parameter up to the last one is read, and every immediate has a width of 1 to 32 bits.
pub open spec fn all_read(parts: Seq<TemplatePart>, params: Seq<Option<Param>>) -> bool {
    forall|id: int| 0 <= id < params.len() ==> (#[trigger] params[id] is Some)
        && (immediate_of(params[id]->0) is Some ==> 1 <= param_width(parts, id as usize, parts.len()) <= 32)
}

/// The position of the first of `pending` that an instruction at `offset_bytes` waits for.
fn find_waited(pending: &[PendingSymbol], offset_bytes: u32) -> (res: Option<usize>)
    ensures
        match res {
            Some(i) => waited_symbol(pending@, offset_bytes) == Some(i as int),
            None => waited_symbol(pending@, offset_bytes) is None,
        },
{
    let mut i: usize = 0;
    while i < pending.len()
        invariant
            i <= pending@.len(),
            waited_symbol(pending@.take(i as int), offset_bytes) is None,
        decreases pending@.len() - i,
    {
        assert(pending@.take((i + 1) as int).drop_last() =~= pending@.take(i as int));
        if pending[i].used_by_instruction_at_offset(offset_bytes) {
            proof {
                lemma_waited_symbol_prefix(pending@, offset_bytes, (i + 1) as nat);
            }
            return Some(i);
        }
        i = i + 1;
    }
    assert(pending@.take(i as int) =~= pending@);
    None
}

/// A waited symbol is one of `pending`.
proof fn lemma_waited_symbol_in(pending: Seq<PendingSymbol>, offset_bytes: u32)
    ensures
        waited_symbol(pending, offset_bytes) matches Some(i) ==> 0 <= i < pending.len(),
    decreases pending.len(),
{
    if pending.len() > 0 {
        lemma_waited_symbol_in(pending.drop_last(), offset_bytes);
    }
}

/// Where a prefix of `pending` has a waited symbol, `pending` has the same one.
proof fn lemma_waited_symbol_prefix(pending: Seq<PendingSymbol>, offset_bytes: u32, k: nat)
    requires
        k <= pending.len(),
        waited_symbol(pending.take(k as int), offset_bytes) is Some,
    ensures
        waited_symbol(pending, offset_bytes) == waited_symbol(pending.take(k as int), offset_bytes),
    decreases pending.len() - k,
{
    if k < pending.len() {
        assert(pending.take((k + 1) as int).drop_last() =~= pending.take(k as int));
        lemma_waited_symbol_prefix(pending, offset_bytes, k + 1);
    } else {
        assert(pending.take(k as int) =~= pending);
    }
}

/// Decodes the bits `part` into `p`.
fn update_param(t: &ParamTransformer, part: &[bool], p: &mut Param)
    requires
        t.well_formed(),
        t is BitAt ==> part@.len() >= 1,
    ensures
        *final(p) == updated_param(*t, part@, *old(p)),
{
    let next = match &*p {
        Param::Decided(d) => {
            let mut v = match d {
                Decided::Immediate(i) => ParsedParam::Immediate(*i),
                Decided::Register(r) => ParsedParam::Register(*r),
                Decided::Csr(c) => ParsedParam::Csr(*c),
            };
            let fits = match (t, d) {
                (ParamTransformer::Register(_), Decided::Register(_)) => true,
                (ParamTransformer::Csr(_), Decided::Csr(_)) => true,
                (ParamTransformer::Register(_), _) => false,
                (ParamTransformer::Csr(_), _) => false,
                (_, Decided::Immediate(_)) => true,
                _ => false,
            };
            if fits {
                t.update_argument(part, &mut v);
                let d2 = match v {
                    ParsedParam::Register(r) => Decided::Register(r),
                    ParsedParam::Csr(c) => Decided::Csr(c),
                    ParsedParam::Immediate(i) => Decided::Immediate(i),
                    ParsedParam::Symbol(_) => Decided::Immediate(0),
                };
                Some(Param::Decided(d2))
            } else {
                None
            }
        },
        Param::Resolved(n, Decided::Immediate(i)) => {
            let immediate_kind = match t {
                ParamTransformer::Register(_) => false,
                ParamTransformer::Csr(_) => false,
                _ => true,
            };
            if immediate_kind {
                let mut v = ParsedParam::Immediate(*i);
                t.update_argument(part, &mut v);
                let d2 = match v {
                    ParsedParam::Register(r) => Decided::Register(r),
                    ParsedParam::Csr(c) => Decided::Csr(c),
                    ParsedParam::Immediate(x) => Decided::Immediate(x),
                    ParsedParam::Symbol(_) => Decided::Immediate(0),
                };
                Some(Param::Resolved(n.clone(), d2))
            } else {
                None
            }
        },
        _ => None,
    };
    match next {
        Some(q) => {
            *p = q;
        },
        None => {},
    }
}

/// A copy of a parameter.
fn copy_param(p: &Param) -> (res: Param)
    ensures
        res == *p,
{
    match p {
        Param::Decided(d) => Param::Decided(*d),
        Param::Unresolved(n) => Param::Unresolved(n.clone()),
        Param::Resolved(n, d) => Param::Resolved(n.clone(), *d),
    }
}

/// The parameter a transformer starts from.
fn default_param_of(t: &ParamTransformer) -> (res: Param)
    ensures
        res == default_param(*t),
{
    match t {
        ParamTransformer::Register(_) => Param::Decided(Decided::Register(0)),
        ParamTransformer::Csr(_) => Param::Decided(Decided::Csr(0)),
        _ => Param::Decided(Decided::Immediate(0)),
    }
}

/// Once reading fails, reading more parts fails too.
proof fn lemma_read_none_stays(parts: Seq<TemplatePart>, bits: Seq<bool>, waited: Option<String>, k: nat, m: nat)
    requires
        k <= m,
        read_parts(parts, bits, waited, k) is None,
    ensures
        read_parts(parts, bits, waited, m) is None,
    decreases m - k,
{
    if k < m {
        lemma_read_none_stays(parts, bits, waited, k + 1, m);
    }
}

impl Template {
    /// Reads the parameters of an instruction from its binary form `bits`, for an instruction
    /// `offset_bits` bits into its section: where one of `pending_symbols` waits for the
    /// instruction, each parameter is that symbol. Gives how many bits were read, the offset of
    /// the next instruction and the parameters, or `None` where a bit pattern of the template
    /// does not match.
    pub fn parse_binary(&self, bits: &[bool], offset_bits: usize, pending_symbols: &[PendingSymbol])
        -> (res: Option<((usize, usize), Vec<Param>)>)
        requires
            transformers_well_formed(self.parts@),
            reads_within(self.parts@, bits@, waited_name(pending_symbols@, offset_bytes_of(offset_bits))),
            read_parts(self.parts@, bits@, waited_name(pending_symbols@, offset_bytes_of(offset_bits)), self.parts@.len())
                matches Some(state) ==> all_read(self.parts@, state.1),
            offset_bits + parts_bit_count(self.parts@, self.parts@.len()) <= usize::MAX,
        ensures
            match res {
                Some(((read, next_offset), params)) => read_parts(self.parts@, bits@,
                    waited_name(pending_symbols@, offset_bytes_of(offset_bits)), self.parts@.len()) matches Some(state)
                    && state.0 == read && params@ == read_params(self.parts@, state.1)
                    && next_offset == offset_bits + parts_bit_count(self.parts@, self.parts@.len()),
                None => read_parts(self.parts@, bits@, waited_name(pending_symbols@, offset_bytes_of(offset_bits)),
                    self.parts@.len()) is None,
            },
    {
        let ghost waited = waited_name(pending_symbols@, offset_bytes_of(offset_bits));
        let offset_bytes = (offset_bits as u32) / 8;
        let symbol = find_waited(pending_symbols, offset_bytes);
        let mut pos: usize = 0;
        let mut params: Vec<Option<Param>> = Vec::new();
        let mut i: usize = 0;
        while i < self.parts.len()
            invariant
                i <= self.parts@.len(),
                transformers_well_formed(self.parts@),
                reads_within(self.parts@, bits@, waited),
                read_parts(self.parts@, bits@, waited, i as nat) == Some((pos as nat, params@)),
                pos <= bits@.len(),
                bits@.len() == bits.len(),
                waited == waited_name(pending_symbols@, offset_bytes_of(offset_bits)),
                offset_bytes == offset_bytes_of(offset_bits),
                match symbol {
                    Some(k) => waited_symbol(pending_symbols@, offset_bytes) == Some(k as int),
                    None => waited_symbol(pending_symbols@, offset_bytes) is None,
                },
            decreases self.parts@.len() - i,
        {
            let ghost state = (pos as nat, params@);
            assert(read_parts(self.parts@, bits@, waited, (i + 1) as nat) == read_step(self.parts@[i as int], bits@, waited, state));
            match &self.parts[i] {
                TemplatePart::BitPattern(pattern_bits) => {
                    let bit_pattern = pattern_bits.to_bools();
                    if bits.len() - pos < bit_pattern.len() {
                        proof {
                            lemma_read_none_stays(self.parts@, bits@, waited, (i + 1) as nat, self.parts@.len());
                        }
                        return None;
                    }
                    let mut j: usize = 0;
                    while j < bit_pattern.len()
                        invariant
                            i < self.parts@.len(),
                            self.parts@[i as int] == TemplatePart::BitPattern(*pattern_bits),
                            bit_pattern@ == pattern_bits@,
                            waited == waited_name(pending_symbols@, offset_bytes_of(offset_bits)),
                            read_parts(self.parts@, bits@, waited, (i + 1) as nat) == read_step(self.parts@[i as int], bits@, waited, state),
                            state == (pos as nat, params@),
                            j <= bit_pattern@.len(),
                            bits@.len() == bits.len(),
                            pos + bit_pattern@.len() <= bits@.len(),
                            forall|k: int| 0 <= k < j ==> bits@[pos + k] == bit_pattern@[k],
                        decreases bit_pattern@.len() - j,
                    {
                        if bits[pos + j] != bit_pattern[j] {
                            proof {
                                assert(bits@.subrange(pos as int, pos + bit_pattern@.len())[j as int] != bit_pattern@[j as int]);
                                lemma_read_none_stays(self.parts@, bits@, waited, (i + 1) as nat, self.parts@.len());
                            }
                            return None;
                        }
                        j = j + 1;
                    }
                    assert(bits@.subrange(pos as int, pos + bit_pattern@.len()) =~= bit_pattern@);
                    pos = pos + bit_pattern.len();
                },
                TemplatePart::ParamTransformer(param_id, transformer) => {
                    let id = *param_id;
                    assert(self.parts@[i as int] is ParamTransformer);
                    let ghost before = params@;
                    if params.len() <= id {
                        while params.len() <= id
                            invariant
                                before.len() <= params@.len() <= id + 1,
                                before.len() <= id,
                                params@ =~= before + Seq::new((params@.len() - before.len()) as nat, |k: int| None::<Param>),
                            decreases id + 1 - params@.len(),
                        {
                            params.push(None);
                        }
                    }
                    assert(params@ =~= grow_slots(before, id));
                    match symbol {
                        Some(k) => {
                            proof {
                                lemma_waited_symbol_in(pending_symbols@, offset_bytes);
                            }
                            let name = pending_symbols[k].name.clone();
                            params.set(id, Some(Param::Unresolved(name)));
                        },
                        None => {
                            let count = transformer.bit_count();
                            assert(pos + count <= bits@.len());
                            let mut part: Vec<bool> = Vec::new();
                            let mut j: usize = 0;
                            while j < count
                                invariant
                                    j <= count,
                                    bits@.len() == bits.len(),
                                    pos + count <= bits@.len(),
                                    part@ =~= bits@.subrange(pos as int, pos + j),
                                decreases count - j,
                            {
                                part.push(bits[pos + j]);
                                j = j + 1;
                            }
                            let mut current = match &params[id] {
                                Some(p) => copy_param(p),
                                None => default_param_of(transformer),
                            };
                            update_param(transformer, part.as_slice(), &mut current);
                            params.set(id, Some(current));
                            pos = pos + count;
                        },
                    }
                },
            }
            i = i + 1;
        }
        let ghost decoded = params@;
        let mut result: Vec<Param> = Vec::new();
        let mut id: usize = 0;
        while id < params.len()
            invariant
                id <= params@.len(),
                params@ == decoded,
                all_read(self.parts@, decoded),
                result@ =~= read_params(self.parts@, decoded).take(id as int),
            decreases params@.len() - id,
        {
            assert(decoded[id as int] is Some);
            let next = match &params[id] {
                Some(Param::Decided(Decided::Immediate(v))) => {
                    let width = self.param_bit_count(id);
                    Param::Decided(Decided::Immediate(sign_extend_low(*v as u32, width)))
                },
                Some(Param::Resolved(n, Decided::Immediate(v))) => {
                    let width = self.param_bit_count(id);
                    Param::Resolved(n.clone(), Decided::Immediate(sign_extend_low(*v as u32, width)))
                },
                Some(p) => copy_param(p),
                None => {
                    proof {
                        assert(false);
                    }
                    Param::Decided(Decided::Immediate(0))
                },
            };
            result.push(next);
            id = id + 1;
        }
        assert(read_params(self.parts@, decoded).take(id as int) =~= read_params(self.parts@, decoded));
        let total = self.bit_count_within(offset_bits);
        Some(((pos, offset_bits + total), result))
    }

    /// How many bits an instruction of this template takes, where they fit after `offset_bits`.
    fn bit_count_within(&self, offset_bits: usize) -> (res: usize)
        requires
            offset_bits + parts_bit_count(self.parts@, self.parts@.len()) <= usize::MAX,
        ensures
            res == parts_bit_count(self.parts@, self.parts@.len()),
    {
        self.bit_count()
    }
}

/// Parameters that fit the parts can be rendered from the values they stand for.
proof fn lemma_params_fit_renderable(parts: Seq<TemplatePart>, params: Seq<Param>, offset: u64)
    requires
        params_fit(parts, params, offset),
    ensures
        renderable(parts, known_values(params), offset),
{
    assert forall|k: int| 0 <= k < parts.len() implies match #[trigger] parts[k] {
        TemplatePart::ParamTransformer(id, t) => id < known_values(params).len() && t.well_formed()
            && t.accepts(offset, known_values(params)[id as int]),
        _ => true,
    } by {
        match parts[k] {
            TemplatePart::ParamTransformer(id, t) => {},
            _ => {},
        }
    }
}

/// Where no symbol waits, reading takes the bits that decoding takes, part after part.
proof fn lemma_read_as_decode(parts: Seq<TemplatePart>, bits: Seq<bool>, k: nat)
    ensures
        read_parts(parts, bits, None, k) is Some <==> decode(parts, bits, k) is Some,
        read_parts(parts, bits, None, k) matches Some(state) ==> state.0 == (decode(parts, bits, k)->0).0,
    decreases k,
{
    if k > 0 {
        lemma_read_as_decode(parts, bits, (k - 1) as nat);
    }
}

/// A named template reads back what it renders where no symbol waits for the instruction:
/// every bit pattern matches where it was rendered, no parameter's bits run past the end, and
/// reading ends where the rendered bits end.
pub proof fn lemma_named_render_reads_back(parts: Seq<TemplatePart>, params: Seq<Param>, offset: u64)
    requires
        params_fit(parts, params, offset),
    ensures
        ({
            let bits = rendered(parts, known_values(params), offset, parts.len());
            &&& read_parts(parts, bits, None, parts.len()) matches Some(state) && state.0 == bits.len()
            &&& reads_within(parts, bits, None)
        }),
{
    let values = known_values(params);
    let bits = rendered(parts, values, offset, parts.len());
    lemma_params_fit_renderable(parts, params, offset);
    lemma_render_reads_back(parts, values, offset);
    lemma_read_as_decode(parts, bits, parts.len());
    assert forall|k: int| 0 <= k < parts.len() implies (#[trigger] read_parts(parts, bits, None, k as nat) matches Some(state)
        ==> (parts[k] matches TemplatePart::ParamTransformer(_, t) ==> state.0 + t.positions().len() <= bits.len())) by {
        lemma_read_as_decode(parts, bits, k as nat);
        assert(decode(parts, bits, k as nat) matches Some(state) ==> (parts[k] is ParamTransformer
            ==> state.0 + crate::template::part_len(parts[k]) <= bits.len()));
    }
}

/// An instruction with its template, its parameters and, once it is placed, its offset in
/// bytes.
#[derive(Debug, Clone)]
pub struct SimpleInstruction {
    pub template: Template,
    pub params: Vec<Param>,
    pub offset_bytes: Option<u32>,
}

/// The offsets an instruction placed at `offset_bytes` waits at: one, or none where it is not
/// placed.
pub open spec fn offsets_of(offset_bytes: Option<u32>) -> Seq<u32> {
    match offset_bytes {
        Some(o) => seq![o],
        None => Seq::empty(),
    }
}

/// The parameter is the symbol `name`, not yet resolved.
pub open spec fn waits_for(p: Param, name: Seq<char>) -> bool {
    p matches Param::Unresolved(s) && s@ == name
}

/// The parameter is the symbol `name`, resolved to the immediate `d`.
pub open spec fn resolved_to(p: Param, name: Seq<char>, d: i32) -> bool {
    p matches Param::Resolved(s, Decided::Immediate(x)) && s@ == name && x == d
}

/// The text of each parameter.
pub open spec fn params_texts(params: Seq<Param>) -> Seq<Seq<char>> {
    Seq::new(params.len(), |i: int| param_text(params[i]))
}

impl SimpleInstruction {
    /// Places the instruction at `offset` bytes.
    pub fn set_offset_bytes(&mut self, offset: u32)
        ensures
            final(self).offset_bytes == Some(offset),
            final(self).template == old(self).template,
            final(self).params == old(self).params,
    {
        self.offset_bytes = Some(offset);
    }

    /// The offset in bytes the instruction is placed at.
    pub fn offset_bytes(&self) -> (res: u32)
        requires
            self.offset_bytes is Some,
        ensures
            res == self.offset_bytes->0,
    {
        match self.offset_bytes {
            Some(o) => o,
            None => 0,
        }
    }

    /// The symbol the instruction waits for: that of its first unresolved parameter, with the
    /// offset of the instruction where it is placed.
    pub fn pending_symbol(&self) -> (res: Option<PendingSymbol>)
        ensures
            match res {
                Some(p) => exists|i: int| 0 <= i < self.params@.len() && (#[trigger] self.params@[i]) is Unresolved
                    && (forall|j: int| 0 <= j < i ==> !(#[trigger] self.params@[j] is Unresolved))
                    && p.name@ == self.params@[i]->Unresolved_0@
                    && p.pending_instructions_offset_bytes@ == offsets_of(self.offset_bytes),
                None => forall|i: int| 0 <= i < self.params@.len() ==> !(#[trigger] self.params@[i] is Unresolved),
            },
    {
        let mut i: usize = 0;
        while i < self.params.len()
            invariant
                i <= self.params@.len(),
                forall|j: int| 0 <= j < i ==> !(#[trigger] self.params@[j] is Unresolved),
            decreases self.params@.len() - i,
        {
            match &self.params[i] {
                Param::Unresolved(name) => {
                    let mut offsets: Vec<u32> = Vec::new();
                    match self.offset_bytes {
                        Some(o) => offsets.push(o),
                        None => {},
                    }
                    assert(offsets@ =~= offsets_of(self.offset_bytes));
                    assert(self.params@[i as int] is Unresolved);
                    return Some(PendingSymbol { name: name.clone(), pending_instructions_offset_bytes: offsets });
                },
                _ => {},
            }
            i = i + 1;
        }
        None
    }

    /// Resolves every parameter that waits for `symbol` to the distance in bytes from the
    /// instruction to the symbol.
    pub fn decide_symbol(&mut self, symbol: &Symbol)
        requires
            old(self).offset_bytes is Some,
        ensures
            final(self).template == old(self).template,
            final(self).offset_bytes == old(self).offset_bytes,
            final(self).params@.len() == old(self).params@.len(),
            forall|i: int| 0 <= i < old(self).params@.len() && waits_for(old(self).params@[i], symbol.name@) ==>
                resolved_to(#[trigger] final(self).params@[i], symbol.name@, distance_to(symbol.offset_bytes, old(self).offset_bytes->0)),
            forall|i: int| 0 <= i < old(self).params@.len() && !waits_for(old(self).params@[i], symbol.name@) ==>
                #[trigger] final(self).params@[i] == old(self).params@[i],
    {
        let offset = self.offset_bytes();
        let ghost start = self.params@;
        let mut i: usize = 0;
        while i < self.params.len()
            invariant
                i <= self.params@.len(),
                self.params@.len() == start.len(),
                self.template == old(self).template,
                self.offset_bytes == old(self).offset_bytes,
                start == old(self).params@,
                offset == old(self).offset_bytes->0,
                forall|j: int| 0 <= j < i && waits_for(start[j], symbol.name@) ==>
                    resolved_to(#[trigger] self.params@[j], symbol.name@, distance_to(symbol.offset_bytes, offset)),
                forall|j: int| 0 <= j < self.params@.len() && !(0 <= j < i && waits_for(start[j], symbol.name@)) ==>
                    #[trigger] self.params@[j] == start[j],
            decreases self.params@.len() - i,
        {
            let wanted = match &self.params[i] {
                Param::Unresolved(name) => *name == symbol.name,
                _ => false,
            };
            if wanted {
                let mut param = self.params.remove(i);
                param.fill_symbol(symbol, offset);
                self.params.insert(i, param);
            }
            proof {
                assert(wanted == waits_for(start[i as int], symbol.name@));
            }
            i = i + 1;
        }
    }

    /// How many bits the instruction takes, as its template counts them.
    pub fn bit_count(&self) -> (res: usize)
        requires
            parts_bit_count(self.template.parts@, self.template.parts@.len()) <= usize::MAX,
        ensures
            res == parts_bit_count(self.template.parts@, self.template.parts@.len()),
    {
        self.template.bit_count()
    }

    /// The binary form of the instruction, at its offset.
    pub fn render(&self) -> (res: Bits)
        requires
            self.offset_bytes is Some,
            params_fit(self.template.parts@, self.params@, self.offset_bytes->0 as u64),
        ensures
            res@ == rendered(self.template.parts@, known_values(self.params@), self.offset_bytes->0 as u64,
                self.template.parts@.len()),
    {
        let offset = self.offset_bytes() as u64;
        self.template.render(self.params.as_slice(), offset)
    }

    /// The instruction as it is shown: its name, a space, and its parameters separated by `, `.
    pub fn to_string(&self) -> (res: String)
        ensures
            res@ == self.template.name@ + " "@ + joined(params_texts(self.params@), ", "@),
    {
        let mut texts: Vec<String> = Vec::new();
        let mut i: usize = 0;
        while i < self.params.len()
            invariant
                i <= self.params@.len(),
                texts@.len() == i,
                texts@.map_values(|p: String| p@) == params_texts(self.params@).take(i as int),
            decreases self.params@.len() - i,
        {
            let text = self.params[i].to_string();
            let ghost before = texts@;
            texts.push(text);
            proof {
                let tv = texts@.map_values(|p: String| p@);
                let pt = params_texts(self.params@).take((i + 1) as int);
                assert(texts@ == before.push(text));
                assert forall|j: int| 0 <= j < i + 1 implies tv[j] == pt[j] by {
                    if j < i {
                        assert(texts@[j] == before[j]);
                        assert(before.map_values(|p: String| p@)[j] == params_texts(self.params@).take(i as int)[j]);
                    }
                }
                assert(tv =~= pt);
            }
            i = i + 1;
        }
        assert(params_texts(self.params@).take(i as int) =~= params_texts(self.params@));
        let mut res = self.template.name.clone();
        push_text(&mut res, " ");
        push_joined(&mut res, &texts, ", ");
        res
    }
}

} // verus!
