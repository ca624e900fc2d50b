//! Reading back a rendered instruction gives the parameters it was rendered from, for templates
//! of registers and `jal` offsets.
use vstd::prelude::*;

use crate::param::{Decided, Param};
use crate::simple_instruction::{
    all_read, default_param, extended, grow_slots, known_value, known_values, param_width, read_params, read_parts,
    read_step, updated_param,
};
use crate::template::{TemplatePart, lemma_rendered_prefix, part_bits, rendered};
use crate::transform::{
    ParamTransformer, bit_of, bits_at, jal_positions, lemma_jal_form_roundtrip, lemma_put_bits_unwritten,
    lemma_range_fits, lemma_register_roundtrip, positions_range,
};

verus! {

/// Two words with the same 32 bits are equal.
proof fn lemma_bits_equal(a: u32, b: u32)
    requires
        forall|q: u32| q < 32 ==> bit_of(a, q) == bit_of(b, q),
    ensures
        a == b,
{
    assert(bit_of(a, 0) == bit_of(b, 0) && bit_of(a, 1) == bit_of(b, 1) && bit_of(a, 2) == bit_of(b, 2)
        && bit_of(a, 3) == bit_of(b, 3) && bit_of(a, 4) == bit_of(b, 4) && bit_of(a, 5) == bit_of(b, 5)
        && bit_of(a, 6) == bit_of(b, 6) && bit_of(a, 7) == bit_of(b, 7) && bit_of(a, 8) == bit_of(b, 8)
        && bit_of(a, 9) == bit_of(b, 9) && bit_of(a, 10) == bit_of(b, 10) && bit_of(a, 11) == bit_of(b, 11)
        && bit_of(a, 12) == bit_of(b, 12) && bit_of(a, 13) == bit_of(b, 13) && bit_of(a, 14) == bit_of(b, 14)
        && bit_of(a, 15) == bit_of(b, 15) && bit_of(a, 16) == bit_of(b, 16) && bit_of(a, 17) == bit_of(b, 17)
        && bit_of(a, 18) == bit_of(b, 18) && bit_of(a, 19) == bit_of(b, 19) && bit_of(a, 20) == bit_of(b, 20)
        && bit_of(a, 21) == bit_of(b, 21) && bit_of(a, 22) == bit_of(b, 22) && bit_of(a, 23) == bit_of(b, 23)
        && bit_of(a, 24) == bit_of(b, 24) && bit_of(a, 25) == bit_of(b, 25) && bit_of(a, 26) == bit_of(b, 26)
        && bit_of(a, 27) == bit_of(b, 27) && bit_of(a, 28) == bit_of(b, 28) && bit_of(a, 29) == bit_of(b, 29)
        && bit_of(a, 30) == bit_of(b, 30) && bit_of(a, 31) == bit_of(b, 31));
    assert(a == b) by (bit_vector)
        requires
            (((a >> 0u32) & 1u32) == 1u32) == (((b >> 0u32) & 1u32) == 1u32),
            (((a >> 1u32) & 1u32) == 1u32) == (((b >> 1u32) & 1u32) == 1u32),
            (((a >> 2u32) & 1u32) == 1u32) == (((b >> 2u32) & 1u32) == 1u32),
            (((a >> 3u32) & 1u32) == 1u32) == (((b >> 3u32) & 1u32) == 1u32),
            (((a >> 4u32) & 1u32) == 1u32) == (((b >> 4u32) & 1u32) == 1u32),
            (((a >> 5u32) & 1u32) == 1u32) == (((b >> 5u32) & 1u32) == 1u32),
            (((a >> 6u32) & 1u32) == 1u32) == (((b >> 6u32) & 1u32) == 1u32),
            (((a >> 7u32) & 1u32) == 1u32) == (((b >> 7u32) & 1u32) == 1u32),
            (((a >> 8u32) & 1u32) == 1u32) == (((b >> 8u32) & 1u32) == 1u32),
            (((a >> 9u32) & 1u32) == 1u32) == (((b >> 9u32) & 1u32) == 1u32),
            (((a >> 10u32) & 1u32) == 1u32) == (((b >> 10u32) & 1u32) == 1u32),
            (((a >> 11u32) & 1u32) == 1u32) == (((b >> 11u32) & 1u32) == 1u32),
            (((a >> 12u32) & 1u32) == 1u32) == (((b >> 12u32) & 1u32) == 1u32),
            (((a >> 13u32) & 1u32) == 1u32) == (((b >> 13u32) & 1u32) == 1u32),
            (((a >> 14u32) & 1u32) == 1u32) == (((b >> 14u32) & 1u32) == 1u32),
            (((a >> 15u32) & 1u32) == 1u32) == (((b >> 15u32) & 1u32) == 1u32),
            (((a >> 16u32) & 1u32) == 1u32) == (((b >> 16u32) & 1u32) == 1u32),
            (((a >> 17u32) & 1u32) == 1u32) == (((b >> 17u32) & 1u32) == 1u32),
            (((a >> 18u32) & 1u32) == 1u32) == (((b >> 18u32) & 1u32) == 1u32),
            (((a >> 19u32) & 1u32) == 1u32) == (((b >> 19u32) & 1u32) == 1u32),
            (((a >> 20u32) & 1u32) == 1u32) == (((b >> 20u32) & 1u32) == 1u32),
            (((a >> 21u32) & 1u32) == 1u32) == (((b >> 21u32) & 1u32) == 1u32),
            (((a >> 22u32) & 1u32) == 1u32) == (((b >> 22u32) & 1u32) == 1u32),
            (((a >> 23u32) & 1u32) == 1u32) == (((b >> 23u32) & 1u32) == 1u32),
            (((a >> 24u32) & 1u32) == 1u32) == (((b >> 24u32) & 1u32) == 1u32),
            (((a >> 25u32) & 1u32) == 1u32) == (((b >> 25u32) & 1u32) == 1u32),
            (((a >> 26u32) & 1u32) == 1u32) == (((b >> 26u32) & 1u32) == 1u32),
            (((a >> 27u32) & 1u32) == 1u32) == (((b >> 27u32) & 1u32) == 1u32),
            (((a >> 28u32) & 1u32) == 1u32) == (((b >> 28u32) & 1u32) == 1u32),
            (((a >> 29u32) & 1u32) == 1u32) == (((b >> 29u32) & 1u32) == 1u32),
            (((a >> 30u32) & 1u32) == 1u32) == (((b >> 30u32) & 1u32) == 1u32),
            (((a >> 31u32) & 1u32) == 1u32) == (((b >> 31u32) & 1u32) == 1u32),
    ;
}

/// Decoding the five bits of a register index below 32 into a fresh register gives it back.
proof fn lemma_register_reads_back(t: ParamTransformer, r: u8)
    requires
        t is Register,
        r < 32,
    ensures
        updated_param(t, bits_at(r as u32, t.positions()), default_param(t)) == Param::Decided(Decided::Register(r)),
{
    let pr = positions_range(0, 5);
    lemma_range_fits(0, 5);
    let part = bits_at(r as u32, pr);
    let v = crate::transform::put_bits(0u32, pr, part, 5);
    assert forall|q: u32| q < 32 implies bit_of(v, q) == bit_of(r as u32, q) by {
        if q < 5 {
            lemma_register_roundtrip(0, r, q);
        } else {
            assert forall|j: int| 0 <= j < 5 implies pr[j] != q by {}
            lemma_put_bits_unwritten(0, pr, part, 5, q);
            let x = r as u32;
            assert(((0u32 >> q) & 1u32) != 1u32 && ((x >> q) & 1u32) != 1u32) by (bit_vector)
                requires
                    x < 32,
                    5 <= q < 32,
            ;
        }
    }
    lemma_bits_equal(v, r as u32);
}

/// Decoding the bits of an even `jal` offset within 20 bits into a fresh immediate, and
/// sign-extending it from 20 bits, gives the offset back.
proof fn lemma_jal_reads_back(t: ParamTransformer, x: i32)
    requires
        t is JalForm,
        x % 2 == 0,
        -0x80000 <= x < 0x80000,
    ensures
        extended(updated_param(t, bits_at(x as u32, t.positions()), default_param(t)), 20)
            == Param::Decided(Decided::Immediate(x)),
{
    let pos = jal_positions();
    let part = bits_at(x as u32, pos);
    let v = crate::transform::or_bits(0u32, pos, part, 20);
    let y = x as u32;
    let w = (v as i32) as u32;
    crate::transform::lemma_u32_i32(v);
    assert forall|q: u32| q < 32 implies bit_of(w, q) == bit_of(y & 0x1ffffeu32, q) by {
        lemma_jal_form_roundtrip(x, q);
        assert(((((y & 0x1ffffeu32) >> q) & 1u32) == 1u32) == ((1 <= q && q <= 20) && (((y >> q) & 1u32) == 1u32)))
            by (bit_vector)
            requires
                q < 32,
        ;
    }
    lemma_bits_equal(w, y & 0x1ffffeu32);
    assert((y & 1u32) == 0u32) by (bit_vector)
        requires
            y == x as u32,
            x % 2 == 0,
    ;
    assert(((((y & 0x1ffffeu32) << 12u32) as i32) >> 12u32) == x) by (bit_vector)
        requires
            y == x as u32,
            (y & 1u32) == 0u32,
            -0x80000 <= x < 0x80000,
    ;
}

/// Every transformer of the template takes a register index or a `jal` offset.
pub open spec fn registers_and_jumps(parts: Seq<TemplatePart>) -> bool {
    forall|k: int| 0 <= k < parts.len() ==> (#[trigger] parts[k] matches TemplatePart::ParamTransformer(_, t)
        ==> (t is Register || t is JalForm))
}

/// No two parts of the template take the same parameter.
pub open spec fn taken_once(parts: Seq<TemplatePart>) -> bool {
    forall|a: int, b: int| 0 <= a < b < parts.len() ==> (#[trigger] parts[a] matches TemplatePart::ParamTransformer(i, _)
        ==> (#[trigger] parts[b] matches TemplatePart::ParamTransformer(j, _) ==> i != j))
}

/// Some part of the first `k` takes parameter `id`.
pub open spec fn taken_before(parts: Seq<TemplatePart>, id: int, k: int) -> bool {
    exists|m: int| 0 <= m < k && (#[trigger] parts[m] matches TemplatePart::ParamTransformer(i, _) && i == id)
}

/// `p` is of the kind `t` takes: a register index below 32 for a register, an even offset
/// within 20 bits for a `jal`.
pub open spec fn suits(t: ParamTransformer, p: Param) -> bool {
    match t {
        ParamTransformer::Register(_) => match p {
            Param::Decided(Decided::Register(r)) => r < 32,
            _ => false,
        },
        ParamTransformer::JalForm(_) => match p {
            Param::Decided(Decided::Immediate(x)) => x % 2 == 0 && -0x80000 <= x < 0x80000,
            _ => false,
        },
        _ => true,
    }
}

/// Each parameter is of the kind its part takes: a register index below 32, or an even `jal`
/// offset within 20 bits; and each part's parameter exists.
pub open spec fn parameters_suit(parts: Seq<TemplatePart>, params: Seq<Param>) -> bool {
    forall|k: int| 0 <= k < parts.len() ==> (#[trigger] parts[k] matches TemplatePart::ParamTransformer(id, t)
        ==> id < params.len() && suits(t, params[id as int]))
}

/// How many parameter slots reading the first `k` parts opens: one past the highest index taken.
pub open spec fn slot_count(parts: Seq<TemplatePart>, k: nat) -> nat
    decreases k,
{
    if k == 0 {
        0
    } else {
        let prev = slot_count(parts, (k - 1) as nat);
        match parts[k - 1] {
            TemplatePart::ParamTransformer(id, _) => if id < prev { prev } else { (id + 1) as nat },
            _ => prev,
        }
    }
}

/// Every index taken among the first `k` parts is below the slot count, which grows with `k`
/// and stays within any bound on the indices taken.
proof fn lemma_slot_count(parts: Seq<TemplatePart>, k: nat, bound: nat)
    requires
        k <= parts.len(),
    ensures
        forall|m: int| 0 <= m < k && (#[trigger] parts[m]) is ParamTransformer ==> parts[m]->ParamTransformer_0 < slot_count(parts, k),
        (forall|m: int| 0 <= m < k && (#[trigger] parts[m]) is ParamTransformer ==> parts[m]->ParamTransformer_0 < bound)
            ==> slot_count(parts, k) <= bound,
    decreases k,
{
    if k > 0 {
        lemma_slot_count(parts, (k - 1) as nat, bound);
    }
}

/// The width of a parameter of a template of registers and `jal` offsets: 20 where a `jal`
/// offset among the first `k` parts takes it, 0 otherwise.
proof fn lemma_param_width(parts: Seq<TemplatePart>, id: usize, k: nat)
    requires
        k <= parts.len(),
        registers_and_jumps(parts),
    ensures
        param_width(parts, id, k) == if exists|m: int| 0 <= m < k && (#[trigger] parts[m] matches
            TemplatePart::ParamTransformer(i, t) && i == id && t is JalForm) { 20nat } else { 0nat },
    decreases k,
{
    if k > 0 {
        lemma_param_width(parts, id, (k - 1) as nat);
        assert(parts[k - 1] matches TemplatePart::ParamTransformer(_, t) ==> (t is Register || t is JalForm));
        if exists|m: int| 0 <= m < k - 1 && (#[trigger] parts[m] matches
            TemplatePart::ParamTransformer(i, t) && i == id && t is JalForm) {
            let m = choose|m: int| 0 <= m < k - 1 && (#[trigger] parts[m] matches
                TemplatePart::ParamTransformer(i, t) && i == id && t is JalForm);
            assert(0 <= m < k);
        }
        if exists|m: int| 0 <= m < k && (#[trigger] parts[m] matches
            TemplatePart::ParamTransformer(i, t) && i == id && t is JalForm) {
            let m = choose|m: int| 0 <= m < k && (#[trigger] parts[m] matches
                TemplatePart::ParamTransformer(i, t) && i == id && t is JalForm);
            if m < k - 1 {
                assert(0 <= m < k - 1);
            }
        }
    }
}

/// The slot of parameter `id` once its part `m` is read.
pub open spec fn decoded_slot(parts: Seq<TemplatePart>, params: Seq<Param>, offset: u64, m: int) -> Param {
    let t = parts[m]->ParamTransformer_1;
    let id = parts[m]->ParamTransformer_0;
    updated_param(t, bits_at(t.source(offset, known_value(params[id as int])), t.positions()), default_param(t))
}

/// Reading the first `k` parts of the rendered form ends where their bits end, with a slot for
/// each index below one past the highest taken, holding what the part that takes it decodes.
proof fn lemma_read_rendered(parts: Seq<TemplatePart>, params: Seq<Param>, offset: u64, k: nat)
    requires
        k <= parts.len(),
        taken_once(parts),
        parameters_suit(parts, params),
    ensures
        ({
            let bits = rendered(parts, known_values(params), offset, parts.len());
            &&& read_parts(parts, bits, None, k) matches Some(state)
            &&& state.0 == rendered(parts, known_values(params), offset, k).len()
            &&& state.1.len() == slot_count(parts, k)
            &&& forall|id: int| 0 <= id < state.1.len() ==> if taken_before(parts, id, k as int) {
                exists|m: int| 0 <= m < k && (#[trigger] parts[m] matches TemplatePart::ParamTransformer(i, _) && i == id)
                    && state.1[id] == Some(decoded_slot(parts, params, offset, m))
            } else {
                state.1[id] is None
            }
        }),
    decreases k,
{
    let values = known_values(params);
    let n = parts.len();
    let bits = rendered(parts, values, offset, n);
    if k > 0 {
        let j = (k - 1) as nat;
        lemma_read_rendered(parts, params, offset, j);
        let state = read_parts(parts, bits, None, j)->0;
        lemma_rendered_prefix(parts, values, offset, k, n);
        let before = rendered(parts, values, offset, j);
        let after = rendered(parts, values, offset, k);
        let piece = part_bits(parts[j as int], values, offset);
        assert(after == before + piece);
        assert(bits.subrange(before.len() as int, (before.len() + piece.len()) as int) =~= piece) by {
            assert forall|q: int| 0 <= q < piece.len() implies bits[before.len() + q] == piece[q] by {
                assert(bits.take(after.len() as int)[before.len() + q] == after[before.len() + q]);
            }
        }
        let next = read_step(parts[j as int], bits, None, state);
        assert(read_parts(parts, bits, None, k) == next);
        match parts[j as int] {
            TemplatePart::BitPattern(pattern) => {
                assert forall|id: int| 0 <= id < state.1.len() implies taken_before(parts, id, k as int) == taken_before(parts, id, j as int) by {
                    if taken_before(parts, id, k as int) {
                        let m = choose|m: int| 0 <= m < k && (#[trigger] parts[m] matches TemplatePart::ParamTransformer(i, _) && i == id);
                        assert(m < j);
                    }
                }
            },
            TemplatePart::ParamTransformer(pid, t) => {
                let grown = grow_slots(state.1, pid);
                assert(pid as int >= grown.len() || !taken_before(parts, pid as int, j as int)) by {
                    if taken_before(parts, pid as int, j as int) {
                        let m = choose|m: int| 0 <= m < j && (#[trigger] parts[m] matches TemplatePart::ParamTransformer(i, _) && i == pid);
                        assert(parts[m] matches TemplatePart::ParamTransformer(i, _) ==> (parts[j as int] matches TemplatePart::ParamTransformer(i2, _) ==> i != i2));
                    }
                }
                assert(grown[pid as int] is None);
                let new_state = next->0;
                assert forall|id: int| 0 <= id < new_state.1.len() implies (if taken_before(parts, id, k as int) {
                    exists|m: int| 0 <= m < k && (#[trigger] parts[m] matches TemplatePart::ParamTransformer(i, _) && i == id)
                        && new_state.1[id] == Some(decoded_slot(parts, params, offset, m))
                } else {
                    new_state.1[id] is None
                }) by {
                    if id == pid {
                        assert(parts[j as int] matches TemplatePart::ParamTransformer(i, _) && i == id);
                        assert(new_state.1[id] == Some(decoded_slot(parts, params, offset, j as int)));
                    } else {
                        assert(taken_before(parts, id, k as int) == taken_before(parts, id, j as int)) by {
                            if taken_before(parts, id, k as int) {
                                let m = choose|m: int| 0 <= m < k && (#[trigger] parts[m] matches TemplatePart::ParamTransformer(i, _) && i == id);
                                assert(m < j);
                            }
                        }
                        if id >= state.1.len() && taken_before(parts, id, j as int) {
                            lemma_slot_count(parts, j, 0);
                            let m = choose|m: int| 0 <= m < j && (#[trigger] parts[m] matches TemplatePart::ParamTransformer(i, _) && i == id);
                            assert(false);
                        }
                    }
                }
            },
        }
    }
}

/// A template of registers and `jal` offsets, each parameter taken by exactly one part, reads
/// back from its rendered form, where no symbol waits for the instruction, the parameters it was
/// rendered from: each a register index below 32 or an even `jal` offset within 20 bits.
pub proof fn lemma_render_parse_roundtrip(parts: Seq<TemplatePart>, params: Seq<Param>, offset: u64)
    requires
        registers_and_jumps(parts),
        taken_once(parts),
        parameters_suit(parts, params),
        forall|id: int| 0 <= id < params.len() ==> taken_before(parts, id, parts.len() as int),
    ensures
        ({
            let bits = rendered(parts, known_values(params), offset, parts.len());
            &&& read_parts(parts, bits, None, parts.len()) matches Some(state)
            &&& state.0 == bits.len()
            &&& all_read(parts, state.1)
            &&& read_params(parts, state.1) == params
        }),
{
    let n = parts.len();
    let bits = rendered(parts, known_values(params), offset, n);
    lemma_read_rendered(parts, params, offset, n);
    let state = read_parts(parts, bits, None, n)->0;
    lemma_slot_count(parts, n, params.len());
    if params.len() > 0 {
        let last = params.len() - 1;
        assert(taken_before(parts, last, n as int));
        let m = choose|m: int| 0 <= m < n && (#[trigger] parts[m] matches TemplatePart::ParamTransformer(i, _) && i == last);
        assert(parts[m] is ParamTransformer);
    }
    assert(state.1.len() == params.len());
    assert forall|id: int| 0 <= id < params.len() implies state.1[id] is Some && read_params(parts, state.1)[id] == params[id]
        && (crate::simple_instruction::immediate_of(state.1[id]->0) is Some ==> 1 <= param_width(parts, id as usize, parts.len()) <= 32) by {
        assert(taken_before(parts, id, n as int));
        let m = choose|m: int| 0 <= m < n && (#[trigger] parts[m] matches TemplatePart::ParamTransformer(i, _) && i == id)
            && state.1[id] == Some(decoded_slot(parts, params, offset, m));
        let t = parts[m]->ParamTransformer_1;
        assert(parts[m] matches TemplatePart::ParamTransformer(_, t2) ==> (t2 is Register || t2 is JalForm));
        assert(id < params.len() && suits(t, params[id]));
        lemma_param_width(parts, id as usize, n);
        if t is Register {
            let r = params[id]->Decided_0->Register_0;
            lemma_register_reads_back(t, r);
            assert(!exists|m2: int| 0 <= m2 < n && (#[trigger] parts[m2] matches
                TemplatePart::ParamTransformer(i, t3) && i == id && t3 is JalForm)) by {
                if exists|m2: int| 0 <= m2 < n && (#[trigger] parts[m2] matches
                    TemplatePart::ParamTransformer(i, t3) && i == id && t3 is JalForm) {
                    let m2 = choose|m2: int| 0 <= m2 < n && (#[trigger] parts[m2] matches
                        TemplatePart::ParamTransformer(i, t3) && i == id && t3 is JalForm);
                    if m2 < m {
                        assert(parts[m2] matches TemplatePart::ParamTransformer(i, _) ==> (parts[m] matches TemplatePart::ParamTransformer(i2, _) ==> i != i2));
                    } else if m < m2 {
                        assert(parts[m] matches TemplatePart::ParamTransformer(i, _) ==> (parts[m2] matches TemplatePart::ParamTransformer(i2, _) ==> i != i2));
                    }
                }
            }
        } else {
            let x = params[id]->Decided_0->Immediate_0;
            lemma_jal_reads_back(t, x);
            assert(parts[m] matches TemplatePart::ParamTransformer(i, t3) && i == id && t3 is JalForm);
        }
    }
    assert(read_params(parts, state.1) =~= params);
}

} // verus!
