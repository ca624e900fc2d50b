//! Templates of instructions: how the parameters of an instruction and fixed bit patterns are
//! laid out in its binary form, to render an instruction and to read one back.
use vstd::prelude::*;

use crate::clef::Bits;
use crate::param::ParsedParam;
use crate::transform::{BitsAt, ParamTransformer, bits_at};

verus! {

/// A part of a template.
#[derive(Debug, Eq, PartialEq, Clone)]
pub enum TemplatePart {
    /// Fixed bits, the least significant first.
    BitPattern(Bits),
    /// The bits a transformer takes from the parameter at an index.
    ParamTransformer(usize, ParamTransformer),
}

/// A template of an instruction: its parts, the least significant first.
#[derive(Debug, Eq, PartialEq, Clone)]
pub struct InstructionTemplate {
    pub parts: Vec<TemplatePart>,
}

/// The bits a part contributes when rendering `params` at `address`.
pub open spec fn part_bits(part: TemplatePart, params: Seq<ParsedParam>, address: u64) -> Seq<bool> {
    match part {
        TemplatePart::BitPattern(bits) => bits@,
        TemplatePart::ParamTransformer(id, t) => bits_at(t.source(address, params[id as int]), t.positions()),
    }
}

/// The bits the first `k` parts render.
pub open spec fn rendered(parts: Seq<TemplatePart>, params: Seq<ParsedParam>, address: u64, k: nat) -> Seq<bool>
    decreases k,
{
    if k == 0 {
        Seq::empty()
    } else {
        rendered(parts, params, address, (k - 1) as nat) + part_bits(parts[k - 1], params, address)
    }
}

/// Every part can be rendered from `params` at `address`.
pub open spec fn renderable(parts: Seq<TemplatePart>, params: Seq<ParsedParam>, address: u64) -> bool {
    forall|k: int| 0 <= k < parts.len() ==> match #[trigger] parts[k] {
        TemplatePart::ParamTransformer(id, t) => id < params.len() && t.well_formed() && t.accepts(address, params[id as int]),
        _ => true,
    }
}

/// The largest end of a `bits_at` transformer on parameter `id` among the first `k` parts.
pub open spec fn bits_end(parts: Seq<TemplatePart>, id: usize, k: nat) -> nat
    decreases k,
{
    if k == 0 {
        0
    } else {
        let prev = bits_end(parts, id, (k - 1) as nat);
        match parts[k - 1] {
            TemplatePart::ParamTransformer(i, ParamTransformer::BitsAt(b)) => if i == id && b.end > prev { b.end as nat } else { prev },
            _ => prev,
        }
    }
}

/// Every transformer of the template names bits of a `u32`.
pub open spec fn transformers_well_formed(parts: Seq<TemplatePart>) -> bool {
    forall|k: int| 0 <= k < parts.len() ==> match #[trigger] parts[k] {
        TemplatePart::ParamTransformer(_, t) => t.well_formed(),
        _ => true,
    }
}

impl InstructionTemplate {
    /// How many low bits of parameter `param_id` the template holds, as far as `bits_at`
    /// transformers tell.
    pub fn param_bit_count(&self, param_id: usize) -> (res: usize)
        requires
            transformers_well_formed(self.parts@),
        ensures
            res == bits_end(self.parts@, param_id, self.parts@.len()),
            res <= 32,
    {
        let mut current_result: usize = 0;
        let mut i: usize = 0;
        while i < self.parts.len()
            invariant
                i <= self.parts@.len(),
                transformers_well_formed(self.parts@),
                current_result == bits_end(self.parts@, param_id, i as nat),
                current_result <= 32,
            decreases self.parts@.len() - i,
        {
            match &self.parts[i] {
                TemplatePart::ParamTransformer(id, ParamTransformer::BitsAt(bits_at)) => {
                    assert(self.parts@[i as int] is ParamTransformer);
                    if param_id == *id && bits_at.end as usize > current_result {
                        current_result = bits_at.end as usize;
                    }
                },
                _ => {},
            }
            i = i + 1;
        }
        current_result
    }

    /// The binary form of an instruction with `params`, at `address`.
    pub fn render(&self, params: &[ParsedParam], address: u64) -> (res: Bits)
        requires
            renderable(self.parts@, params@, address),
        ensures
            res@ == rendered(self.parts@, params@, address, self.parts@.len()),
    {
        Bits::from_bools(render_parts(&self.parts, params, address))
    }
}

/// The bits `parts` render from `params` at `address`, one part after the other.
pub(crate) fn render_parts(parts: &Vec<TemplatePart>, params: &[ParsedParam], address: u64) -> (res: Vec<bool>)
    requires
        renderable(parts@, params@, address),
    ensures
        res@ == rendered(parts@, params@, address, parts@.len()),
{
    let mut bits: Vec<bool> = Vec::new();
    let mut i: usize = 0;
    while i < parts.len()
        invariant
            i <= parts@.len(),
            renderable(parts@, params@, address),
            bits@ == rendered(parts@, params@, address, i as nat),
        decreases parts@.len() - i,
    {
        let ghost before = bits@;
        match &parts[i] {
            TemplatePart::BitPattern(pattern_bits) => {
                let bit_pattern = pattern_bits.to_bools();
                let mut j: usize = 0;
                while j < bit_pattern.len()
                    invariant
                        j <= bit_pattern@.len(),
                        bits@ == before + bit_pattern@.take(j as int),
                    decreases bit_pattern@.len() - j,
                {
                    bits.push(bit_pattern[j]);
                    j = j + 1;
                    assert(bits@ =~= before + bit_pattern@.take(j as int));
                }
                assert(bit_pattern@.take(j as int) =~= bit_pattern@);
            },
            TemplatePart::ParamTransformer(param_id, transformer) => {
                assert(parts@[i as int] is ParamTransformer);
                let part = transformer.argument_to_bits(address, &params[*param_id]);
                let mut j: usize = 0;
                while j < part.len()
                    invariant
                        j <= part@.len(),
                        bits@ == before + part@.take(j as int),
                    decreases part@.len() - j,
                {
                    bits.push(part[j]);
                    j = j + 1;
                    assert(bits@ =~= before + part@.take(j as int));
                }
                assert(part@.take(j as int) =~= part@);
            },
        }
        i = i + 1;
    }
    bits
}

/// `params` grown with empty slots so that it has a slot at `id`.
pub open spec fn grow(params: Seq<Option<ParsedParam>>, id: usize) -> Seq<Option<ParsedParam>> {
    if id < params.len() {
        params
    } else {
        params + Seq::new((id + 1 - params.len()) as nat, |i: int| None::<ParsedParam>)
    }
}

/// The parameter a transformer starts from.
pub open spec fn default_for(t: ParamTransformer) -> ParsedParam {
    match t {
        ParamTransformer::Register(_) => ParsedParam::Register(0),
        ParamTransformer::Csr(_) => ParsedParam::Csr(0),
        _ => ParsedParam::Immediate(0),
    }
}

/// Reading one part at `state`: how many bits are read, and the parameters decoded so far.
/// `None` where a bit pattern does not match.
pub open spec fn decode_step(part: TemplatePart, bits: Seq<bool>, state: (nat, Seq<Option<ParsedParam>>))
    -> Option<(nat, Seq<Option<ParsedParam>>)> {
    let pos = state.0;
    let params = state.1;
    match part {
        TemplatePart::BitPattern(pattern) => if pos + pattern@.len() <= bits.len()
            && bits.subrange(pos as int, (pos + pattern@.len()) as int) == pattern@ {
            Some(((pos + pattern@.len()) as nat, params))
        } else {
            None
        },
        TemplatePart::ParamTransformer(id, t) => {
            let grown = grow(params, id);
            let count = t.positions().len();
            let current = match grown[id as int] {
                Some(p) => p,
                None => default_for(t),
            };
            let updated = t.update_spec(bits.subrange(pos as int, (pos + count) as int), current);
            Some(((pos + count) as nat, grown.update(id as int, Some(updated))))
        },
    }
}

/// Reading the first `k` parts.
pub open spec fn decode(parts: Seq<TemplatePart>, bits: Seq<bool>, k: nat) -> Option<(nat, Seq<Option<ParsedParam>>)>
    decreases k,
{
    if k == 0 {
        Some((0, Seq::empty()))
    } else {
        match decode(parts, bits, (k - 1) as nat) {
            Some(state) => decode_step(parts[k - 1], bits, state),
            None => None,
        }
    }
}

/// The bits a part reads.
pub open spec fn part_len(part: TemplatePart) -> nat {
    match part {
        TemplatePart::BitPattern(pattern) => pattern@.len(),
        TemplatePart::ParamTransformer(_, t) => t.positions().len(),
    }
}

/// Reading never runs past the end of `bits` at a parameter's bits.
pub open spec fn no_overrun(parts: Seq<TemplatePart>, bits: Seq<bool>) -> bool {
    forall|k: int| 0 <= k < parts.len() ==> (#[trigger] decode(parts, bits, k as nat) matches Some(state)
        ==> (parts[k] is ParamTransformer ==> state.0 + part_len(parts[k]) <= bits.len()))
}

/// The low `width` bits of `v`, sign-extended from the highest of them.
pub open spec fn sign_extend(v: u32, width: nat) -> i32 {
    ((v << ((32 - width) as u32)) as i32) >> ((32 - width) as u32)
}

/// The parameters decoded, with each immediate sign-extended from its highest `bits_at` bit.
pub open spec fn finished(parts: Seq<TemplatePart>, params: Seq<Option<ParsedParam>>) -> Seq<ParsedParam> {
    Seq::new(params.len(), |id: int| match params[id]->0 {
        ParsedParam::Immediate(v) => ParsedParam::Immediate(sign_extend(v as u32, bits_end(parts, id as usize, parts.len()))),
        p => p,
    })
}

/// Every parameter up to the last one is read, and every immediate has `bits_at` bits.
pub open spec fn complete(parts: Seq<TemplatePart>, params: Seq<Option<ParsedParam>>) -> bool {
    forall|id: int| 0 <= id < params.len() ==> (#[trigger] params[id] is Some)
        && (params[id]->0 is Immediate ==> 1 <= bits_end(parts, id as usize, parts.len()))
}

/// The low `width` bits of `v`, sign-extended.
pub(crate) fn sign_extend_low(v: u32, width: usize) -> (res: i32)
    requires
        1 <= width <= 32,
    ensures
        res == sign_extend(v, width as nat),
{
    let shamt = (32 - width) as u32;
    ((v << shamt) as i32) >> shamt
}

impl InstructionTemplate {
    /// Reads the parameters of an instruction from its binary form `bits`: the bits read and the
    /// parameters, or `None` where a bit pattern of the template does not match.
    pub fn parse_binary(&self, bits: &[bool]) -> (res: Option<(usize, Vec<ParsedParam>)>)
        requires
            transformers_well_formed(self.parts@),
            no_overrun(self.parts@, bits@),
            decode(self.parts@, bits@, self.parts@.len()) matches Some(state) ==> complete(self.parts@, state.1),
        ensures
            match res {
                Some((read, params)) => decode(self.parts@, bits@, self.parts@.len()) matches Some(state)
                    && state.0 == read && params@ == finished(self.parts@, state.1),
                None => decode(self.parts@, bits@, self.parts@.len()) is None,
            },
    {
        let mut pos: usize = 0;
        let mut params: Vec<Option<ParsedParam>> = Vec::new();
        let mut i: usize = 0;
        while i < self.parts.len()
            invariant
                i <= self.parts@.len(),
                transformers_well_formed(self.parts@),
                no_overrun(self.parts@, bits@),
                decode(self.parts@, bits@, i as nat) == Some((pos as nat, params@)),
                pos <= bits@.len(),
                bits@.len() == bits.len(),
            decreases self.parts@.len() - i,
        {
            let ghost state = (pos as nat, params@);
            assert(decode(self.parts@, bits@, (i + 1) as nat) == decode_step(self.parts@[i as int], bits@, state));
            match &self.parts[i] {
                TemplatePart::BitPattern(pattern_bits) => {
                    let bit_pattern = pattern_bits.to_bools();
                    if bits.len() - pos < bit_pattern.len() {
                        proof {
                            lemma_decode_none_stays(self.parts@, bits@, (i + 1) as nat, self.parts@.len());
                        }
                        return None;
                    }
                    let mut j: usize = 0;
                    while j < bit_pattern.len()
                        invariant
                            i < self.parts@.len(),
                            self.parts@[i as int] == TemplatePart::BitPattern(*pattern_bits),
                            bit_pattern@ == pattern_bits@,
                            decode(self.parts@, bits@, (i + 1) as nat) == decode_step(self.parts@[i as int], bits@, state),
                            state == (pos as nat, params@),
                            j <= bit_pattern@.len(),
                            bits@.len() == bits.len(),
                            pos + bit_pattern@.len() <= bits@.len(),
                            forall|k: int| 0 <= k < j ==> bits@[pos + k] == bit_pattern@[k],
                        decreases bit_pattern@.len() - j,
                    {
                        if bits[pos + j] != bit_pattern[j] {
                            proof {
                                assert(bits@.subrange(pos as int, pos + bit_pattern@.len())[j as int] != bit_pattern@[j as int]);
                                lemma_decode_none_stays(self.parts@, bits@, (i + 1) as nat, self.parts@.len());
                            }
                            return None;
                        }
                        j = j + 1;
                    }
                    assert(bits@.subrange(pos as int, pos + bit_pattern@.len()) =~= bit_pattern@);
                    pos = pos + bit_pattern.len();
                },
                TemplatePart::ParamTransformer(param_id, transformer) => {
                    let id = *param_id;
                    assert(self.parts@[i as int] is ParamTransformer);
                    let ghost before = params@;
                    if params.len() <= id {
                        while params.len() <= id
                            invariant
                                before.len() <= params@.len() <= id + 1,
                                before.len() <= id,
                                params@ =~= before + Seq::new((params@.len() - before.len()) as nat, |k: int| None::<ParsedParam>),
                            decreases id + 1 - params@.len(),
                        {
                            params.push(None);
                        }
                    }
                    assert(params@ =~= grow(before, id));
                    let count = transformer.bit_count();
                    assert(pos + count <= bits@.len());
                    assert(bits@.len() == bits.len());
                    let mut part: Vec<bool> = Vec::new();
                    let mut j: usize = 0;
                    while j < count
                        invariant
                            j <= count,
                            bits@.len() == bits.len(),
                            pos + count <= bits@.len(),
                            part@ =~= bits@.subrange(pos as int, pos + j),
                        decreases count - j,
                    {
                        part.push(bits[pos + j]);
                        j = j + 1;
                    }
                    let mut current = match &params[id] {
                        Some(p) => p.duplicate(),
                        None => transformer.default_argument(),
                    };
                    transformer.update_argument(part.as_slice(), &mut current);
                    params.set(id, Some(current));
                    pos = pos + count;
                },
            }
            i = i + 1;
        }
        let ghost decoded = params@;
        let mut result: Vec<ParsedParam> = Vec::new();
        let mut id: usize = 0;
        while id < params.len()
            invariant
                id <= params@.len(),
                params@ == decoded,
                transformers_well_formed(self.parts@),
                complete(self.parts@, decoded),
                result@ =~= finished(self.parts@, decoded).take(id as int),
            decreases params@.len() - id,
        {
            assert(decoded[id as int] is Some);
            match &params[id] {
                Some(ParsedParam::Immediate(v)) => {
                    let width = self.param_bit_count(id);
                    assert(decoded[id as int]->0 is Immediate);
                    assert(1 <= width);
                    result.push(ParsedParam::Immediate(sign_extend_low(*v as u32, width)));
                },
                Some(p) => {
                    result.push(p.duplicate());
                },
                None => {
                    proof {
                        assert(false);
                    }
                },
            }
            id = id + 1;
        }
        assert(finished(self.parts@, decoded).take(id as int) =~= finished(self.parts@, decoded));
        Some((pos, result))
    }
}

/// Once reading fails, reading more parts fails too.
proof fn lemma_decode_none_stays(parts: Seq<TemplatePart>, bits: Seq<bool>, k: nat, m: nat)
    requires
        k <= m,
        decode(parts, bits, k) is None,
    ensures
        decode(parts, bits, m) is None,
    decreases m - k,
{
    if k < m {
        lemma_decode_none_stays(parts, bits, k + 1, m);
    }
}

pub(crate) proof fn lemma_rendered_prefix(parts: Seq<TemplatePart>, params: Seq<ParsedParam>, address: u64, k: nat, n: nat)
    requires
        k <= n,
    ensures
        rendered(parts, params, address, k).len() <= rendered(parts, params, address, n).len(),
        rendered(parts, params, address, n).take(rendered(parts, params, address, k).len() as int)
            == rendered(parts, params, address, k),
    decreases n - k,
{
    if k < n {
        lemma_rendered_prefix(parts, params, address, k, (n - 1) as nat);
        let r = rendered(parts, params, address, (n - 1) as nat);
        let lk = rendered(parts, params, address, k).len() as int;
        assert((r + part_bits(parts[n - 1], params, address)).take(lk) =~= r.take(lk));
    } else {
        let r = rendered(parts, params, address, n);
        assert(r.take(r.len() as int) =~= r);
    }
}

/// A template reads back what it renders: every bit pattern matches where it was rendered, no
/// parameter's bits run past the end, and reading ends where the rendered bits end.
pub proof fn lemma_render_reads_back(parts: Seq<TemplatePart>, params: Seq<ParsedParam>, address: u64)
    requires
        renderable(parts, params, address),
    ensures
        ({
            let bits = rendered(parts, params, address, parts.len());
            &&& decode(parts, bits, parts.len()) matches Some(state) && state.0 == bits.len()
            &&& no_overrun(parts, bits)
        }),
{
    let n = parts.len();
    let bits = rendered(parts, params, address, n);
    lemma_decode_rendered(parts, params, address, n);
    assert forall|k: int| 0 <= k < parts.len() implies (#[trigger] decode(parts, bits, k as nat) matches Some(state)
        ==> (parts[k] is ParamTransformer ==> state.0 + part_len(parts[k]) <= bits.len())) by {
        lemma_decode_rendered(parts, params, address, k as nat);
        lemma_decode_rendered(parts, params, address, (k + 1) as nat);
        lemma_rendered_prefix(parts, params, address, (k + 1) as nat, n);
    }
}

/// Reading the first `k` parts of rendered bits succeeds and ends where the first `k` parts'
/// bits end.
proof fn lemma_decode_rendered(parts: Seq<TemplatePart>, params: Seq<ParsedParam>, address: u64, k: nat)
    requires
        k <= parts.len(),
    ensures
        decode(parts, rendered(parts, params, address, parts.len()), k) matches Some(state)
            && state.0 == rendered(parts, params, address, k).len(),
    decreases k,
{
    let n = parts.len();
    let bits = rendered(parts, params, address, n);
    if k > 0 {
        lemma_decode_rendered(parts, params, address, (k - 1) as nat);
        lemma_rendered_prefix(parts, params, address, k, n);
        lemma_rendered_prefix(parts, params, address, (k - 1) as nat, k);
        let prev = rendered(parts, params, address, (k - 1) as nat);
        let cur = rendered(parts, params, address, k);
        let state = decode(parts, bits, (k - 1) as nat)->Some_0;
        let part = parts[k - 1];
        assert(cur == prev + part_bits(part, params, address));
        match part {
            TemplatePart::BitPattern(pattern) => {
                assert(bits.subrange(prev.len() as int, cur.len() as int) =~= pattern@) by {
                    assert forall|m: int| 0 <= m < pattern@.len() implies
                        bits.subrange(prev.len() as int, cur.len() as int)[m] == pattern@[m] by {
                        assert(bits.take(cur.len() as int)[prev.len() + m] == cur[prev.len() + m]);
                    }
                }
            },
            TemplatePart::ParamTransformer(id, t) => {},
        }
    }
}

} // verus!
