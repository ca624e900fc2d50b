//! Filling in the symbols that instructions of a section wait for, once the symbols are known.
use vstd::prelude::*;

use crate::clef::{PendingSymbol, Symbol};
use crate::param::{Decided, Param, ParsedParam, distance_to};
use crate::simple_instruction::{
    Template, all_read, kind_fits, known_value, known_values, offset_bytes_of, params_fit, parts_bit_count,
    read_params, read_parts, reads_within, waited_name, waits_for,
};
use crate::template::{rendered, transformers_well_formed};

verus! {

/// A pending symbol as a value: its name and the offsets of the instructions that wait for it.
pub type PendingView = (String, Seq<u32>);

/// The pending symbols as values.
pub open spec fn pending_view(pending: Seq<PendingSymbol>) -> Seq<PendingView> {
    pending.map_values(|p: PendingSymbol| (p.name, p.pending_instructions_offset_bytes@))
}

/// The name of the first pending symbol that an instruction at `offset_bytes` waits for.
pub open spec fn waited_in(pending: Seq<PendingView>, offset_bytes: u32) -> Option<String>
    decreases pending.len(),
{
    if pending.len() == 0 {
        None
    } else {
        match waited_in(pending.drop_last(), offset_bytes) {
            Some(n) => Some(n),
            None => if pending.last().1.contains(offset_bytes) { Some(pending.last().0) } else { None },
        }
    }
}

/// The symbol an instruction waits for depends on the pending symbols as values only.
proof fn lemma_waited_in(pending: Seq<PendingSymbol>, offset_bytes: u32)
    ensures
        waited_name(pending, offset_bytes) == waited_in(pending_view(pending), offset_bytes),
        crate::simple_instruction::waited_symbol(pending, offset_bytes) matches Some(i) ==> 0 <= i < pending.len(),
    decreases pending.len(),
{
    if pending.len() > 0 {
        let rest = pending.drop_last();
        lemma_waited_in(rest, offset_bytes);
        assert(pending_view(rest) =~= pending_view(pending).drop_last());
        match crate::simple_instruction::waited_symbol(rest, offset_bytes) {
            Some(i) => {
                assert(rest[i] == pending[i]);
            },
            None => {},
        }
    }
}

/// Reading `bits` with template `t`, for an instruction `offset_bits` into its section, needs
/// nothing more: its transformers are well formed, no parameter's bits run past the end, what it
/// reads has widths that can be sign-extended, and its end fits in a `usize`.
pub open spec fn parse_ready(t: Template, bits: Seq<bool>, waited: Option<String>, offset_bits: int) -> bool {
    &&& transformers_well_formed(t.parts@)
    &&& reads_within(t.parts@, bits, waited)
    &&& (read_parts(t.parts@, bits, waited, t.parts@.len()) matches Some(state) ==> all_read(t.parts@, state.1))
    &&& offset_bits + parts_bit_count(t.parts@, t.parts@.len()) <= usize::MAX
}

/// The first of `templates` from `k` on that reads `bits`, where each one tried is ready to read
/// them; `None` where none reads them or one tried is not ready.
pub open spec fn first_reading(templates: Seq<Template>, bits: Seq<bool>, waited: Option<String>, offset_bits: int, k: int)
    -> Option<int>
    decreases templates.len() - k,
{
    if k < 0 || k >= templates.len() {
        None
    } else if !parse_ready(templates[k], bits, waited, offset_bits) {
        None
    } else if read_parts(templates[k].parts@, bits, waited, templates[k].parts@.len()) is Some {
        Some(k)
    } else {
        first_reading(templates, bits, waited, offset_bits, k + 1)
    }
}

/// The values of `params` once every one that waits for `name` is resolved to `d`.
pub open spec fn decided_values(params: Seq<Param>, name: Seq<char>, d: i32) -> Seq<ParsedParam> {
    Seq::new(params.len(), |j: int| if waits_for(params[j], name) { ParsedParam::Immediate(d) } else { known_value(params[j]) })
}

/// The template can render `params` once every one that waits for `name` is resolved to `d`:
/// a resolved symbol goes only where an immediate does.
pub open spec fn fits_after(parts: Seq<crate::template::TemplatePart>, params: Seq<Param>, name: Seq<char>, d: i32, offset: u64) -> bool {
    forall|k: int| 0 <= k < parts.len() ==> match #[trigger] parts[k] {
        crate::template::TemplatePart::ParamTransformer(id, t) => id < params.len() && t.well_formed()
            && (if waits_for(params[id as int], name) {
                !(t is Register || t is Csr)
            } else {
                kind_fits(t, params[id as int])
            }) && t.accepts(offset, decided_values(params, name, d)[id as int]),
        _ => true,
    }
}

/// `content` with the instruction at `offset_bytes` read back, its parameters that wait for
/// `symbol` resolved to the distance to it, and written again in place; `None` where the
/// original would fail: the offset in bits overflows or runs past the content, no template reads
/// the bits there, the resolved parameters do not fit, or the rendered form is not as long as the
/// template counts.
pub open spec fn refilled(templates: Seq<Template>, pending: Seq<PendingView>, symbol: Symbol, offset_bytes: u32,
    content: Seq<bool>) -> Option<Seq<bool>> {
    let ob = offset_bytes * 8;
    if ob > u32::MAX || ob > content.len() {
        None
    } else {
        let bits = content.skip(ob);
        let waited = waited_in(pending, offset_bytes_of(ob as usize));
        match first_reading(templates, bits, waited, ob, 0) {
            None => None,
            Some(t) => {
                let parts = templates[t].parts@;
                let params = read_params(parts, (read_parts(parts, bits, waited, parts.len())->0).1);
                let d = distance_to(symbol.offset_bytes, offset_bytes);
                let count = parts_bit_count(parts, parts.len());
                if !fits_after(parts, params, symbol.name@, d, offset_bytes as u64) {
                    None
                } else {
                    let r = rendered(parts, decided_values(params, symbol.name@, d), offset_bytes as u64, parts.len());
                    if r.len() != count || ob + count > content.len() {
                        None
                    } else {
                        Some(content.take(ob) + r + content.skip(ob + count))
                    }
                }
            },
        }
    }
}

/// `content` with the instructions at the first `k` of `offsets` refilled, in order.
pub open spec fn refilled_all(templates: Seq<Template>, pending: Seq<PendingView>, symbol: Symbol, offsets: Seq<u32>,
    k: int, content: Seq<bool>) -> Option<Seq<bool>>
    decreases k,
{
    if k <= 0 {
        Some(content)
    } else {
        match refilled_all(templates, pending, symbol, offsets, k - 1, content) {
            Some(c) => refilled(templates, pending, symbol, offsets[k - 1], c),
            None => None,
        }
    }
}

/// The position of the first of `symbols` named `name`.
pub open spec fn first_named(symbols: Seq<Symbol>, name: Seq<char>) -> Option<int>
    decreases symbols.len(),
{
    if symbols.len() == 0 {
        None
    } else {
        match first_named(symbols.drop_last(), name) {
            Some(i) => Some(i),
            None => if symbols.last().name@ == name { Some(symbols.len() - 1) } else { None },
        }
    }
}

/// `content` once the first `k` pending symbols are handled: each one that some symbol names,
/// the first such, has every instruction waiting for it refilled.
pub open spec fn filled(templates: Seq<Template>, symbols: Seq<Symbol>, pending: Seq<PendingView>, k: int,
    content: Seq<bool>) -> Option<Seq<bool>>
    decreases k,
{
    if k <= 0 {
        Some(content)
    } else {
        match filled(templates, symbols, pending, k - 1, content) {
            Some(c) => match first_named(symbols, pending[k - 1].0@) {
                Some(s) => refilled_all(templates, pending, symbols[s], pending[k - 1].1, pending[k - 1].1.len() as int, c),
                None => Some(c),
            },
            None => None,
        }
    }
}

/// The pending symbols among the first `k` that no symbol names, in order.
pub open spec fn unnamed(symbols: Seq<Symbol>, pending: Seq<PendingView>, k: int) -> Seq<PendingView>
    decreases k,
{
    if k <= 0 {
        Seq::empty()
    } else if first_named(symbols, pending[k - 1].0@) is Some {
        unnamed(symbols, pending, k - 1)
    } else {
        unnamed(symbols, pending, k - 1).push(pending[k - 1])
    }
}

/// The position of the first of `symbols` named `name`.
fn find_symbol(symbols: &[Symbol], name: &String) -> (res: Option<usize>)
    ensures
        match res {
            Some(i) => i < symbols@.len() && first_named(symbols@, name@) == Some(i as int),
            None => first_named(symbols@, name@) is None,
        },
{
    let mut i: usize = 0;
    while i < symbols.len()
        invariant
            i <= symbols@.len(),
            first_named(symbols@.take(i as int), name@) is None,
        decreases symbols@.len() - i,
    {
        assert(symbols@.take(i + 1).drop_last() =~= symbols@.take(i as int));
        if symbols[i].name == *name {
            proof {
                lemma_first_named_prefix(symbols@, name@, i as int + 1);
            }
            return Some(i);
        }
        i = i + 1;
    }
    assert(symbols@.take(symbols@.len() as int) =~= symbols@);
    None
}

/// Where the first `k` symbols name `name`, the first of them is the first of all.
proof fn lemma_first_named_prefix(symbols: Seq<Symbol>, name: Seq<char>, k: int)
    requires
        0 <= k <= symbols.len(),
        first_named(symbols.take(k), name) is Some,
    ensures
        first_named(symbols, name) == first_named(symbols.take(k), name),
    decreases symbols.len() - k,
{
    if k < symbols.len() {
        assert(symbols.take(k + 1).drop_last() =~= symbols.take(k));
        lemma_first_named_prefix(symbols, name, k + 1);
    } else {
        assert(symbols.take(k) =~= symbols);
    }
}

/// The first template that reads is one from `k` on, ready to read, and reading.
pub(crate) proof fn lemma_first_reading(templates: Seq<Template>, bits: Seq<bool>, waited: Option<String>, offset_bits: int, k: int)
    requires
        first_reading(templates, bits, waited, offset_bits, k) is Some,
    ensures
        ({
            let t = first_reading(templates, bits, waited, offset_bits, k)->0;
            &&& k <= t < templates.len()
            &&& parse_ready(templates[t], bits, waited, offset_bits)
            &&& read_parts(templates[t].parts@, bits, waited, templates[t].parts@.len()) is Some
        }),
    decreases templates.len() - k,
{
    if read_parts(templates[k].parts@, bits, waited, templates[k].parts@.len()) is None {
        lemma_first_reading(templates, bits, waited, offset_bits, k + 1);
    }
}

/// Reads `bits` with the first of `templates` from `k` on that reads them: its position and the
/// parameters read.
pub(crate) fn read_with_first(templates: &[Template], bits: &[bool], offset_bits: usize, pending_symbols: &[PendingSymbol],
    k: usize) -> (res: (usize, usize, Vec<Param>))
    requires
        first_reading(templates@, bits@, waited_name(pending_symbols@, offset_bytes_of(offset_bits)), offset_bits as int,
            k as int) is Some,
    ensures
        res.0 < templates@.len(),
        Some(res.0 as int) == first_reading(templates@, bits@, waited_name(pending_symbols@, offset_bytes_of(offset_bits)),
            offset_bits as int, k as int),
        res.1 == (read_parts(templates@[res.0 as int].parts@, bits@,
            waited_name(pending_symbols@, offset_bytes_of(offset_bits)), templates@[res.0 as int].parts@.len())->0).0,
        res.2@ == read_params(templates@[res.0 as int].parts@, (read_parts(templates@[res.0 as int].parts@, bits@,
            waited_name(pending_symbols@, offset_bytes_of(offset_bits)), templates@[res.0 as int].parts@.len())->0).1),
    decreases templates@.len() - k,
{
    match templates[k].parse_binary(bits, offset_bits, pending_symbols) {
        Some(((read, _), params)) => (k, read, params),
        None => read_with_first(templates, bits, offset_bits, pending_symbols, k + 1),
    }
}

/// Rewrites the instruction at `offset_bytes`: reads it back with the first template that reads
/// it, resolves its parameters that wait for `symbol`, and writes it again in place.
fn refill(templates: &[Template], pending_symbols: &[PendingSymbol], symbol: &Symbol, offset_bytes: u32,
    content: &mut Vec<bool>)
    requires
        refilled(templates@, pending_view(pending_symbols@), *symbol, offset_bytes, old(content)@) is Some,
    ensures
        final(content)@ == refilled(templates@, pending_view(pending_symbols@), *symbol, offset_bytes, old(content)@)->0,
{
    let ghost start = content@;
    let pending_instruction_offset_bits = (offset_bytes * 8) as usize;
    let ob = pending_instruction_offset_bits;
    let bits = vstd::slice::slice_subrange(content.as_slice(), ob, content.len());
    assert(bits@ =~= start.skip(ob as int));
    assert(offset_bytes_of(ob) == offset_bytes);
    proof {
        lemma_waited_in(pending_symbols@, offset_bytes);
    }
    let (t, _, mut params) = read_with_first(templates, bits, ob, pending_symbols, 0);
    proof {
        lemma_first_reading(templates@, bits@, waited_name(pending_symbols@, offset_bytes_of(ob)), ob as int, 0);
    }
    let ghost before = params@;
    let ghost parts = templates@[t as int].parts@;
    let ghost d = distance_to(symbol.offset_bytes, offset_bytes);
    let mut j: usize = 0;
    while j < params.len()
        invariant
            j <= params@.len(),
            params@.len() == before.len(),
            d == distance_to(symbol.offset_bytes, offset_bytes),
            forall|i: int| 0 <= i < j ==> known_value(#[trigger] params@[i]) == decided_values(before, symbol.name@, d)[i]
                && (!waits_for(before[i], symbol.name@) ==> params@[i] == before[i])
                && (waits_for(before[i], symbol.name@) ==> params@[i] matches Param::Resolved(_, Decided::Immediate(_))),
            forall|i: int| j <= i < params@.len() ==> #[trigger] params@[i] == before[i],
        decreases params@.len() - j,
    {
        let wanted = match &params[j] {
            Param::Unresolved(name) => *name == symbol.name,
            _ => false,
        };
        assert(wanted == waits_for(before[j as int], symbol.name@));
        if wanted {
            let ghost prev = params@;
            let mut param = params.remove(j);
            param.fill_symbol(symbol, offset_bytes);
            let ghost filled_param = param;
            assert(filled_param matches Param::Resolved(_, Decided::Immediate(x)) && x == d);
            params.insert(j, param);
            assert(params@[j as int] == filled_param);
            assert(known_value(filled_param) == ParsedParam::Immediate(d));
            assert(params@ =~= prev.update(j as int, params@[j as int]));
        } else {
            assert(params@[j as int] == before[j as int]);
        }
        assert(known_value(params@[j as int]) == decided_values(before, symbol.name@, d)[j as int]);
        assert(waits_for(before[j as int], symbol.name@) ==> params@[j as int] matches Param::Resolved(_, Decided::Immediate(_)));
        j = j + 1;
    }
    assert(params_fit(parts, params@, offset_bytes as u64)) by {
        assert forall|k: int| 0 <= k < parts.len() implies match #[trigger] parts[k] {
            crate::template::TemplatePart::ParamTransformer(id, tr) => id < params@.len() && tr.well_formed()
                && kind_fits(tr, params@[id as int]) && tr.accepts(offset_bytes as u64, known_value(params@[id as int])),
            _ => true,
        } by {
            match parts[k] {
                crate::template::TemplatePart::ParamTransformer(id, tr) => {},
                _ => {},
            }
        }
    }
    assert(known_values(params@) =~= decided_values(before, symbol.name@, d));
    let r = templates[t].render(params.as_slice(), offset_bytes as u64).to_bools();
    let count = templates[t].bit_count();
    assert(start.len() == content.len());
    let mut i: usize = 0;
    while i < count
        invariant
            i <= count,
            start.len() <= usize::MAX,
            count == r@.len(),
            ob + count <= start.len(),
            content@.len() == start.len(),
            forall|q: int| 0 <= q < ob ==> #[trigger] content@[q] == start[q],
            forall|q: int| ob <= q < ob + i ==> #[trigger] content@[q] == r@[q - ob],
            forall|q: int| ob + i <= q < start.len() ==> #[trigger] content@[q] == start[q],
        decreases count - i,
    {
        content.set(ob + i, r[i]);
        i = i + 1;
    }
    assert(content@ =~= start.take(ob as int) + r@ + start.skip(ob + count));
}

/// Fills in, for each pending symbol that one of `symbols` names, the instructions that wait for
/// it: each is read back at its offset in `content`, resolved to the distance to the symbol, and
/// written again in place. Gives the pending symbols that no symbol names, in order.
pub fn fill_pending_symbol(templates: &[Template], symbols: &[Symbol], pending_symbols: &[PendingSymbol],
    content: &mut Vec<bool>) -> (res: Vec<PendingSymbol>)
    requires
        filled(templates@, symbols@, pending_view(pending_symbols@), pending_symbols@.len() as int, old(content)@) is Some,
    ensures
        final(content)@ == filled(templates@, symbols@, pending_view(pending_symbols@), pending_symbols@.len() as int,
            old(content)@)->0,
        pending_view(res@) == unnamed(symbols@, pending_view(pending_symbols@), pending_symbols@.len() as int),
{
    let ghost start = content@;
    let ghost n = pending_symbols@.len() as int;
    let mut remaining_pending_symbols: Vec<PendingSymbol> = Vec::new();
    let mut p: usize = 0;
    while p < pending_symbols.len()
        invariant
            p <= pending_symbols@.len(),
            n == pending_symbols@.len(),
            filled(templates@, symbols@, pending_view(pending_symbols@), n, start) is Some,
            filled(templates@, symbols@, pending_view(pending_symbols@), p as int, start) == Some(content@),
            pending_view(remaining_pending_symbols@) == unnamed(symbols@, pending_view(pending_symbols@), p as int),
        decreases pending_symbols@.len() - p,
    {
        proof {
            lemma_filled_prefix(templates@, symbols@, pending_view(pending_symbols@), p as int + 1, n, start);
        }
        assert(pending_view(pending_symbols@)[p as int] == (pending_symbols@[p as int].name,
            pending_symbols@[p as int].pending_instructions_offset_bytes@));
        let pending_symbol = &pending_symbols[p];
        let ghost before_remaining = remaining_pending_symbols@;
        match find_symbol(symbols, &pending_symbol.name) {
            Some(s) => {
                let corresponding_symbol = &symbols[s];
                let offsets = &pending_symbol.pending_instructions_offset_bytes;
                let ghost c0 = content@;
                let mut q: usize = 0;
                while q < offsets.len()
                    invariant
                        q <= offsets@.len(),
                        refilled_all(templates@, pending_view(pending_symbols@), *corresponding_symbol, offsets@,
                            offsets@.len() as int, c0) is Some,
                        refilled_all(templates@, pending_view(pending_symbols@), *corresponding_symbol, offsets@, q as int, c0)
                            == Some(content@),
                    decreases offsets@.len() - q,
                {
                    proof {
                        lemma_refilled_prefix(templates@, pending_view(pending_symbols@), *corresponding_symbol, offsets@,
                            q as int + 1, offsets@.len() as int, c0);
                    }
                    refill(templates, pending_symbols, corresponding_symbol, offsets[q], content);
                    q = q + 1;
                }
            },
            None => {
                remaining_pending_symbols.push(copy_pending(pending_symbol));
                proof {
                    assert(pending_view(remaining_pending_symbols@) =~= pending_view(before_remaining)
                        .push((pending_symbol.name, pending_symbol.pending_instructions_offset_bytes@)));
                }
            },
        }
        p = p + 1;
    }
    remaining_pending_symbols
}

/// A copy of a pending symbol.
fn copy_pending(p: &PendingSymbol) -> (res: PendingSymbol)
    ensures
        res.name == p.name,
        res.pending_instructions_offset_bytes@ == p.pending_instructions_offset_bytes@,
{
    let mut offsets: Vec<u32> = Vec::new();
    let mut i: usize = 0;
    while i < p.pending_instructions_offset_bytes.len()
        invariant
            i <= p.pending_instructions_offset_bytes@.len(),
            offsets@ == p.pending_instructions_offset_bytes@.take(i as int),
        decreases p.pending_instructions_offset_bytes@.len() - i,
    {
        offsets.push(p.pending_instructions_offset_bytes[i]);
        i = i + 1;
        assert(offsets@ =~= p.pending_instructions_offset_bytes@.take(i as int));
    }
    assert(offsets@ =~= p.pending_instructions_offset_bytes@);
    PendingSymbol { name: p.name.clone(), pending_instructions_offset_bytes: offsets }
}

/// Where handling the first `m` pending symbols succeeds, handling fewer does.
proof fn lemma_filled_prefix(templates: Seq<Template>, symbols: Seq<Symbol>, pending: Seq<PendingView>, k: int, m: int,
    content: Seq<bool>)
    requires
        k <= m,
        filled(templates, symbols, pending, m, content) is Some,
    ensures
        filled(templates, symbols, pending, k, content) is Some,
    decreases m - k,
{
    if k < m {
        lemma_filled_prefix(templates, symbols, pending, k, m - 1, content);
    }
}

/// Where refilling the first `m` offsets succeeds, refilling fewer does.
proof fn lemma_refilled_prefix(templates: Seq<Template>, pending: Seq<PendingView>, symbol: Symbol, offsets: Seq<u32>,
    k: int, m: int, content: Seq<bool>)
    requires
        k <= m,
        refilled_all(templates, pending, symbol, offsets, m, content) is Some,
    ensures
        refilled_all(templates, pending, symbol, offsets, k, content) is Some,
    decreases m - k,
{
    if k < m {
        lemma_refilled_prefix(templates, pending, symbol, offsets, k, m - 1, content);
    }
}

} // verus!
