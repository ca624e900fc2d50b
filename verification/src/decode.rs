//! Reading binary code back into instructions: a whole section, instruction after instruction,
//! and a single instruction against named instruction templates.
use vstd::prelude::*;

use crate::asm_param::same_template;
use crate::clef::PendingSymbol;
use crate::fill::{first_reading, lemma_first_reading, read_with_first};
use crate::param::{Param, ParsedParam};
use crate::simple_instruction::{
    SimpleInstruction, Template, offset_bytes_of, parts_bit_count, read_params, read_parts, waited_name,
};
use crate::template::{InstructionTemplate, complete, decode, finished, no_overrun, transformers_well_formed};

verus! {

/// `bits`, an instruction `offset_bits` bits into its section and what follows it, read back
/// instruction after instruction, each with the first of `templates` that reads it: for each,
/// the index of its template, its parameters and its offset in bytes. `None` where what is left
/// is read by no template, or by one that takes no bits or more bits than are left.
pub open spec fn decoded(templates: Seq<Template>, bits: Seq<bool>, pending: Seq<PendingSymbol>, offset_bits: usize)
    -> Option<Seq<(int, Seq<Param>, u32)>>
    decreases bits.len(),
{
    if bits.len() == 0 {
        Some(Seq::empty())
    } else {
        let waited = waited_name(pending, offset_bytes_of(offset_bits));
        match first_reading(templates, bits, waited, offset_bits as int, 0) {
            None => None,
            Some(k) => {
                let state = read_parts(templates[k].parts@, bits, waited, templates[k].parts@.len())->0;
                if state.0 == 0 || state.0 > bits.len() {
                    None
                } else {
                    let next = (offset_bits + parts_bit_count(templates[k].parts@, templates[k].parts@.len())) as usize;
                    match decoded(templates, bits.skip(state.0 as int), pending, next) {
                        None => None,
                        Some(rest) => Some(
                            seq![(k, read_params(templates[k].parts@, state.1), (offset_bits / 8) as u32)] + rest,
                        ),
                    }
                }
            },
        }
    }
}

/// `ins` is the instruction read back as `d`: of the template `d` names, with its parameters, at
/// its offset.
pub open spec fn decoded_as(ins: SimpleInstruction, d: (int, Seq<Param>, u32), templates: Seq<Template>) -> bool {
    &&& 0 <= d.0 < templates.len()
    &&& same_template(ins.template, templates[d.0])
    &&& ins.params@ == d.1
    &&& ins.offset_bytes == Some(d.2)
}

/// Reads the binary content of a section back into instructions, one after the other from its
/// start, each with the first of `templates` that reads it; an instruction that one of
/// `pending_symbols` waits for has that symbol as its parameters. The content must read to its
/// end.
pub fn parse_whole_binary(bits: &[bool], pending_symbols: &[PendingSymbol], templates: &[Template])
    -> (res: Vec<SimpleInstruction>)
    requires
        decoded(templates@, bits@, pending_symbols@, 0) is Some,
    ensures
        ({
            let d = decoded(templates@, bits@, pending_symbols@, 0)->0;
            &&& res@.len() == d.len()
            &&& forall|i: int| 0 <= i < d.len() ==> decoded_as(#[trigger] res@[i], d[i], templates@)
        }),
{
    let ghost total = decoded(templates@, bits@, pending_symbols@, 0)->0;
    let mut result: Vec<SimpleInstruction> = Vec::new();
    let mut pos: usize = 0;
    let mut offset_bits: usize = 0;
    assert(bits@.skip(0) =~= bits@);
    while pos < bits.len()
        invariant
            pos <= bits@.len(),
            decoded(templates@, bits@.skip(pos as int), pending_symbols@, offset_bits) matches Some(rest)
                && result@.len() + rest.len() == total.len()
                && forall|j: int| 0 <= j < rest.len() ==> #[trigger] rest[j] == total[result@.len() + j],
            forall|i: int| 0 <= i < result@.len() ==> decoded_as(#[trigger] result@[i], total[i], templates@),
            total == decoded(templates@, bits@, pending_symbols@, 0)->0,
        decreases bits@.len() - pos,
    {
        let rest_bits = vstd::slice::slice_subrange(bits, pos, bits.len());
        assert(rest_bits@ =~= bits@.skip(pos as int));
        let ghost waited = waited_name(pending_symbols@, offset_bytes_of(offset_bits));
        let ghost rest = decoded(templates@, rest_bits@, pending_symbols@, offset_bits)->0;
        proof {
            lemma_first_reading(templates@, rest_bits@, waited, offset_bits as int, 0);
        }
        let (k, read, params) = read_with_first(templates, rest_bits, offset_bits, pending_symbols, 0);
        let ghost next_rest = decoded(templates@, rest_bits@.skip(read as int), pending_symbols@,
            (offset_bits + parts_bit_count(templates@[k as int].parts@, templates@[k as int].parts@.len())) as usize)->0;
        assert(rest == seq![(k as int, params@, (offset_bits / 8) as u32)] + next_rest);
        let count = templates[k].bit_count();
        let instruction = SimpleInstruction {
            template: templates[k].duplicate(),
            params,
            offset_bytes: Some((offset_bits / 8) as u32),
        };
        let ghost before = result@;
        result.push(instruction);
        proof {
            assert(rest[0] == total[before.len() as int]);
            assert forall|i: int| 0 <= i < result@.len() implies decoded_as(#[trigger] result@[i], total[i], templates@) by {
                if i < before.len() {
                    assert(result@[i] == before[i]);
                }
            }
            assert forall|j: int| 0 <= j < next_rest.len() implies #[trigger] next_rest[j] == total[result@.len() + j] by {
                assert(next_rest[j] == rest[j + 1]);
            }
            assert(bits@.skip(pos + read) =~= rest_bits@.skip(read as int));
        }
        pos = pos + read;
        offset_bits = offset_bits + count;
    }
    assert(bits@.skip(pos as int) =~= Seq::<bool>::empty());
    result
}

/// An instruction as read back against named templates: the name of its template and its
/// parameters.
#[derive(Debug, PartialEq, Eq, Clone)]
pub struct Parsed {
    pub name: String,
    pub params: Vec<ParsedParam>,
}

/// Template `t` can read `bits` safely: its transformers are well formed, no parameter runs past
/// the end of `bits`, and every parameter it reads is read whole.
pub open spec fn instruction_ready(t: InstructionTemplate, bits: Seq<bool>) -> bool {
    &&& transformers_well_formed(t.parts@)
    &&& no_overrun(t.parts@, bits)
    &&& (decode(t.parts@, bits, t.parts@.len()) matches Some(state) ==> complete(t.parts@, state.1))
}

/// The first of `templates` from `k` on that reads `bits`, where each one tried can read them
/// safely; `None` where none reads them or one tried cannot.
pub open spec fn first_decoding(templates: Seq<(String, InstructionTemplate)>, bits: Seq<bool>, k: int) -> Option<int>
    decreases templates.len() - k,
{
    if k < 0 || k >= templates.len() {
        None
    } else if !instruction_ready(templates[k].1, bits) {
        None
    } else if decode(templates[k].1.parts@, bits, templates[k].1.parts@.len()) is Some {
        Some(k)
    } else {
        first_decoding(templates, bits, k + 1)
    }
}

/// Reads one instruction from the start of `bin` with the first of the named `templates` that
/// reads it: gives how many bits it takes, and the template's name with the parameters read.
pub fn parse_bin(bin: &[bool], templates: &[(String, InstructionTemplate)]) -> (res: (usize, Parsed))
    requires
        first_decoding(templates@, bin@, 0) is Some,
    ensures
        ({
            let k = first_decoding(templates@, bin@, 0)->0;
            let state = decode(templates@[k].1.parts@, bin@, templates@[k].1.parts@.len())->0;
            &&& res.0 == state.0
            &&& res.1.name@ == templates@[k].0@
            &&& res.1.params@ == finished(templates@[k].1.parts@, state.1)
        }),
{
    parse_bin_from(bin, templates, 0)
}

/// `parse_bin`, trying the templates from the `k`-th on.
fn parse_bin_from(bin: &[bool], templates: &[(String, InstructionTemplate)], k: usize) -> (res: (usize, Parsed))
    requires
        first_decoding(templates@, bin@, k as int) is Some,
    ensures
        ({
            let t = first_decoding(templates@, bin@, k as int)->0;
            let state = decode(templates@[t].1.parts@, bin@, templates@[t].1.parts@.len())->0;
            &&& res.0 == state.0
            &&& res.1.name@ == templates@[t].0@
            &&& res.1.params@ == finished(templates@[t].1.parts@, state.1)
        }),
    decreases templates@.len() - k,
{
    match templates[k].1.parse_binary(bin) {
        Some((read, params)) => (read, Parsed { name: templates[k].0.clone(), params }),
        None => parse_bin_from(bin, templates, k + 1),
    }
}

} // verus!
