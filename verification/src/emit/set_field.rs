//! Assembly code for setting a field of a struct value, word by word.
use vstd::prelude::*;

use crate::emit::{code_line, place_of, place_of_local, push_line_start, push_stack_slot, stack_slot, FunctionCompileContext};
use crate::ir::{FieldStep, Quantity, SetField};
use crate::number_text::{push_signed_decimal, push_text, signed_decimal};
use crate::register_assign::{AssignView, RegisterAssign};

verus! {

/// The bits taken by the first `k` of `sizes`.
pub open spec fn bits_before(sizes: Seq<usize>, k: int) -> nat
    decreases k,
{
    if k <= 0 {
        0
    } else {
        bits_before(sizes, k - 1) + sizes[k - 1] as nat
    }
}

/// How far into the value stepped from the field taken starts, in bits.
pub open spec fn step_offset_bits(step: FieldStep) -> nat {
    match step.field_bits {
        Some(sizes) => bits_before(sizes@, step.index as int),
        None => 0,
    }
}

/// How far into the root value the field reached by the first `k` steps starts, in bits.
pub open spec fn chain_offset_bits(chain: Seq<FieldStep>, k: int) -> nat
    decreases k,
{
    if k <= 0 {
        0
    } else {
        chain_offset_bits(chain, k - 1) + step_offset_bits(chain[k - 1])
    }
}

/// Whole bytes that `bits` bits take.
pub open spec fn bytes_of_bits(bits: nat) -> nat {
    (bits + 7) / 8
}

/// One 32-bit word of a value: in a hardware register, or in a stack slot.
pub enum Word {
    Reg(Seq<char>),
    Slot(int),
}

/// Word `i` of a value kept at `place`: its one register, its `i`th register, or the `i`th
/// word of its stack space.
pub open spec fn word_at(place: AssignView, i: int) -> Word {
    match place {
        AssignView::Register(r) => Word::Reg(r),
        AssignView::MultipleRegisters(rs) => Word::Reg(rs[i]),
        AssignView::StackValue(o) => Word::Slot(o + i * 4),
        AssignView::StackRef(o) => Word::Slot(o as int),
    }
}

/// Word `i` of a value kept at `place` exists, and its stack slot fits in a `usize`.
pub open spec fn word_ok(place: AssignView, i: int) -> bool {
    match place {
        AssignView::Register(_) => true,
        AssignView::MultipleRegisters(rs) => 0 <= i < rs.len(),
        AssignView::StackValue(o) => 0 <= i && o + i * 4 <= usize::MAX,
        AssignView::StackRef(_) => false,
    }
}

/// The code that copies word `from` to word `to`: a move, a load, a store, or a load into `t0`
/// and a store of it.
pub open spec fn word_copy(to: Word, from: Word) -> Seq<char> {
    match to {
        Word::Reg(d) => match from {
            Word::Reg(s) => code_line("mv "@ + d + ", "@ + s),
            Word::Slot(o) => code_line("lw "@ + d + ", "@ + stack_slot(o as usize)),
        },
        Word::Slot(o) => match from {
            Word::Reg(s) => code_line("sw "@ + s + ", "@ + stack_slot(o as usize)),
            Word::Slot(p) => code_line("lw t0, "@ + stack_slot(p as usize)) + code_line("sw t0, "@ + stack_slot(o as usize)),
        },
    }
}

/// The word written at `i`: word `i - lo` of the value set inside `lo..hi`, else word `i` of the
/// struct set into.
pub open spec fn set_word(result: AssignView, into: AssignView, value: AssignView, lo: int, hi: int, i: int) -> Seq<char> {
    word_copy(word_at(result, i), if lo <= i < hi { word_at(value, i - lo) } else { word_at(into, i) })
}

/// The words written at `0..n`, in order.
pub open spec fn set_words(result: AssignView, into: AssignView, value: AssignView, lo: int, hi: int, n: int) -> Seq<char>
    decreases n,
{
    if n <= 0 {
        Seq::empty()
    } else {
        set_words(result, into, value, lo, hi, n - 1) + set_word(result, into, value, lo, hi, n - 1)
    }
}

/// Every word that writing at `i` reads or writes exists.
pub open spec fn set_word_ok(result: AssignView, into: AssignView, value: AssignView, lo: int, hi: int, i: int) -> bool {
    word_ok(result, i) && if lo <= i < hi {
        word_ok(value, i - lo)
    } else {
        word_ok(into, i)
    }
}

/// Every word that writing `0..n` reads or writes exists.
pub open spec fn set_words_ok(result: AssignView, into: AssignView, value: AssignView, lo: int, hi: int, n: int) -> bool {
    forall|i: int| 0 <= i < n ==> #[trigger] set_word_ok(result, into, value, lo, hi, i)
}

/// The larger of two integers.
pub open spec fn larger(a: int, b: int) -> int {
    if a >= b { a } else { b }
}

/// Which words are written, for a target kept at `result`, a struct kept at `into` and a value
/// kept at `value`, the field starting at word `c`, taking `f` words, in a struct of `r` words:
/// the value's words go to `lo..hi`, and words `0..n` are written. `None` for the placements
/// that are not handled.
pub open spec fn set_field_layout(result: AssignView, into: AssignView, value: AssignView, c: int, f: int, r: int)
    -> Option<(int, int, int)> {
    match result {
        AssignView::Register(_) => match value {
            AssignView::Register(_) => Some((0, 1, 1)),
            AssignView::StackValue(_) => Some((0, 1, 1)),
            _ => None,
        },
        AssignView::MultipleRegisters(rs) => match into {
            AssignView::MultipleRegisters(_) => match value {
                AssignView::Register(_) => Some((c, c + 1, rs.len() as int)),
                AssignView::MultipleRegisters(_) => Some((c, c + f, larger(rs.len() as int, c + f))),
                AssignView::StackValue(_) => Some((c, c + f, larger(rs.len() as int, c + f))),
                AssignView::StackRef(_) => None,
            },
            AssignView::StackValue(_) => match value {
                AssignView::Register(_) => Some((c, c + 1, rs.len() as int)),
                AssignView::MultipleRegisters(_) => Some((c, c + f, larger(rs.len() as int, c + f))),
                AssignView::StackValue(_) => Some((c, c + f, larger(rs.len() as int, c + f))),
                AssignView::StackRef(_) => None,
            },
            _ => None,
        },
        AssignView::StackValue(_) => match into {
            AssignView::Register(_) => match value {
                AssignView::Register(_) => Some((0, 1, 1)),
                AssignView::StackValue(_) => Some((0, 1, 1)),
                _ => None,
            },
            AssignView::MultipleRegisters(ts) => match value {
                AssignView::Register(_) => Some((c, c + 1, ts.len() as int)),
                AssignView::MultipleRegisters(_) => Some((c, c + f, larger(ts.len() as int, c + f))),
                AssignView::StackValue(_) => Some((c, c + f, larger(ts.len() as int, c + f))),
                AssignView::StackRef(_) => None,
            },
            AssignView::StackValue(_) => match value {
                AssignView::Register(_) => Some((c, c, c)),
                AssignView::MultipleRegisters(_) => Some((c, c + f, larger(r, c + f))),
                AssignView::StackValue(_) => Some((c, c + f, larger(r, c + f))),
                AssignView::StackRef(_) => None,
            },
            AssignView::StackRef(_) => None,
        },
        AssignView::StackRef(_) => None,
    }
}

/// The place of the value set: that of the local variable it reads, or `t1` for a number.
pub open spec fn source_place(source: Quantity, places: Map<Seq<char>, AssignView>) -> AssignView {
    match source {
        Quantity::LocalVariableName(l) => places[l@],
        _ => AssignView::Register("t1"@),
    }
}

/// The code that brings the value set into its place first: a load of a number into `t1`.
pub open spec fn source_code(source: Quantity) -> Seq<char> {
    match source {
        Quantity::NumberLiteral(n) => code_line("li t1, "@ + signed_decimal(n as int)),
        _ => Seq::empty(),
    }
}

/// The word the field starts at.
pub open spec fn field_word(st: SetField) -> int {
    (bytes_of_bits(chain_offset_bits(st.field_chain@, st.field_chain@.len() as int)) / 4) as int
}

/// The words the field takes.
pub open spec fn final_words(st: SetField) -> int {
    (bytes_of_bits(st.final_type_bits as nat) / 4) as int
}

/// The words the root struct takes.
pub open spec fn root_words(st: SetField) -> int {
    (bytes_of_bits(st.field_chain@[0].parent_bits as nat) / 4) as int
}

/// The `mv` lines that write each word `i` of `ts` in `0..n`: from word `i - k` of `ss` inside
/// `k..k + ss.len()`, else from word `i` of `os`.
pub open spec fn moved_words(ts: Seq<Seq<char>>, os: Seq<Seq<char>>, ss: Seq<Seq<char>>, k: int, n: int) -> Seq<char>
    decreases n,
{
    if n <= 0 {
        Seq::empty()
    } else {
        let i = n - 1;
        moved_words(ts, os, ss, k, n - 1) + code_line("mv "@ + ts[i] + ", "@
            + if k <= i < k + ss.len() { ss[i - k] } else { os[i] })
    }
}

/// Setting a field of a struct kept in registers, to a local variable kept in registers, into a
/// target kept in as many registers: the code moves word by word, each word of the target from
/// the value inside the field, from the struct everywhere else.
pub proof fn lemma_set_field_word_by_word(st: SetField, places: Map<Seq<char>, AssignView>, ts: Seq<Seq<char>>,
    os: Seq<Seq<char>>, ss: Seq<Seq<char>>)
    requires
        set_field_emittable(st, places),
        places[st.target.0@] == AssignView::MultipleRegisters(ts),
        places[st.origin_root.0@] == AssignView::MultipleRegisters(os),
        st.source matches Quantity::LocalVariableName(l) && places[l@] == AssignView::MultipleRegisters(ss),
        ts.len() == os.len(),
        final_words(st) == ss.len(),
        field_word(st) + ss.len() <= ts.len(),
    ensures
        set_field_text(st, places) == moved_words(ts, os, ss, field_word(st), ts.len() as int),
{
    let k = field_word(st);
    let f = final_words(st);
    assert(layout_of(st, places) == Some((k, k + f, ts.len() as int)));
    assert(source_code(st.source) =~= Seq::<char>::empty());
    lemma_moved_words(ts, os, ss, k, ts.len() as int);
    assert(Seq::<char>::empty() + moved_words(ts, os, ss, k, ts.len() as int) =~= moved_words(ts, os, ss, k, ts.len() as int));
}

/// Word by word, writing registers from registers is a `mv` of each.
proof fn lemma_moved_words(ts: Seq<Seq<char>>, os: Seq<Seq<char>>, ss: Seq<Seq<char>>, k: int, n: int)
    ensures
        set_words(AssignView::MultipleRegisters(ts), AssignView::MultipleRegisters(os), AssignView::MultipleRegisters(ss),
            k, k + ss.len(), n) == moved_words(ts, os, ss, k, n),
    decreases n,
{
    if n > 0 {
        lemma_moved_words(ts, os, ss, k, n - 1);
    }
}

/// The layout of the words written for `st`.
pub open spec fn layout_of(st: SetField, places: Map<Seq<char>, AssignView>) -> Option<(int, int, int)> {
    set_field_layout(places[st.target.0@], places[st.origin_root.0@], source_place(st.source, places),
        field_word(st), final_words(st), root_words(st))
}

/// Whether the statement can be emitted: the registers it names have places, it sets a local
/// variable or a number, the sizes add up within a `usize`, each field index is within its
/// struct, the placements are handled, and every word read or written exists.
pub open spec fn set_field_emittable(st: SetField, places: Map<Seq<char>, AssignView>) -> bool {
    &&& places.contains_key(st.target.0@)
    &&& places.contains_key(st.origin_root.0@)
    &&& match st.source {
        Quantity::LocalVariableName(l) => places.contains_key(l@),
        Quantity::NumberLiteral(_) => true,
        _ => false,
    }
    &&& st.field_chain@.len() > 0
    &&& forall|k: int| 0 <= k < st.field_chain@.len() ==> ((#[trigger] st.field_chain@[k]).field_bits matches Some(sizes)
        ==> st.field_chain@[k].index <= sizes@.len())
    &&& chain_offset_bits(st.field_chain@, st.field_chain@.len() as int) + 7 <= usize::MAX
    &&& st.final_type_bits + 7 <= usize::MAX
    &&& st.field_chain@[0].parent_bits + 7 <= usize::MAX
    &&& layout_of(st, places) matches Some(l) && l.0 <= l.1
        && set_words_ok(places[st.target.0@], places[st.origin_root.0@], source_place(st.source, places), l.0, l.1, l.2)
}

/// The code that sets the field: the number loaded into `t1` where one is set, then each word
/// of the target written, from the value inside the field and from the struct elsewhere.
pub open spec fn set_field_text(st: SetField, places: Map<Seq<char>, AssignView>) -> Seq<char> {
    let l = layout_of(st, places)->0;
    source_code(st.source) + set_words(places[st.target.0@], places[st.origin_root.0@],
        source_place(st.source, places), l.0, l.1, l.2)
}

/// The register word `i` of a value kept at `place` is in, if it is in one.
fn word_register(place: &RegisterAssign, i: usize) -> (res: Option<&String>)
    requires
        word_ok(place@, i as int),
    ensures
        match word_at(place@, i as int) {
            Word::Reg(r) => res matches Some(s) && s@ == r,
            Word::Slot(_) => res is None,
        },
{
    match place {
        RegisterAssign::Register(r) => Some(r),
        RegisterAssign::MultipleRegisters(rs) => Some(&rs[i]),
        _ => None,
    }
}

/// The stack slot of word `i` of a value kept on the stack at `place`.
fn word_slot(place: &RegisterAssign, i: usize) -> (res: usize)
    requires
        word_ok(place@, i as int),
    ensures
        word_at(place@, i as int) matches Word::Slot(o) ==> res == o,
{
    match place {
        RegisterAssign::StackValue(o) => *o + i * 4,
        _ => 0,
    }
}

/// Appends a line `    <mnemonic> <register>, <slot>`.
pub(crate) fn push_slot_line(out: &mut String, mnemonic: &str, register: &str, o: usize)
    ensures
        final(out)@ == old(out)@ + code_line(mnemonic@ + register@ + ", "@ + stack_slot(o)),
{
    push_line_start(out, mnemonic);
    push_text(out, register);
    push_text(out, ", ");
    push_stack_slot(out, o);
    push_text(out, "\n");
    assert(out@ =~= old(out)@ + code_line(mnemonic@ + register@ + ", "@ + stack_slot(o)));
}

/// Appends the code that copies word `fi` of the value at `from` to word `ti` of the value at
/// `to`.
fn push_word_copy(out: &mut String, to: &RegisterAssign, ti: usize, from: &RegisterAssign, fi: usize)
    requires
        word_ok(to@, ti as int),
        word_ok(from@, fi as int),
    ensures
        final(out)@ == old(out)@ + word_copy(word_at(to@, ti as int), word_at(from@, fi as int)),
{
    let to_register = word_register(to, ti);
    let from_register = word_register(from, fi);
    match to_register {
        Some(d) => match from_register {
            Some(s) => {
                push_line_start(out, "mv ");
                push_text(out, d.as_str());
                push_text(out, ", ");
                push_text(out, s.as_str());
                push_text(out, "\n");
                assert(out@ =~= old(out)@ + code_line("mv "@ + d@ + ", "@ + s@));
            },
            None => {
                let slot = word_slot(from, fi);
                push_slot_line(out, "lw ", d.as_str(), slot);
            },
        },
        None => {
            let slot = word_slot(to, ti);
            match from_register {
                Some(s) => {
                    push_slot_line(out, "sw ", s.as_str(), slot);
                },
                None => {
                    let from_slot = word_slot(from, fi);
                    push_slot_line(out, "lw ", "t0", from_slot);
                    push_slot_line(out, "sw ", "t0", slot);
                    proof {
                        reveal_strlit("lw ");
                        reveal_strlit("sw ");
                        reveal_strlit("t0");
                        reveal_strlit(", ");
                        reveal_strlit("lw t0, ");
                        reveal_strlit("sw t0, ");
                        assert("lw "@ + "t0"@ + ", "@ =~= "lw t0, "@);
                        assert("sw "@ + "t0"@ + ", "@ =~= "sw t0, "@);
                    }
                    assert(out@ =~= old(out)@ + (code_line("lw t0, "@ + stack_slot(from_slot))
                        + code_line("sw t0, "@ + stack_slot(slot))));
                },
            }
        },
    }
}

/// Appends the words written at `0..n`.
fn push_set_words(out: &mut String, result: &RegisterAssign, into: &RegisterAssign, value: &RegisterAssign,
    lo: usize, hi: usize, n: usize)
    requires
        lo <= hi,
        set_words_ok(result@, into@, value@, lo as int, hi as int, n as int),
    ensures
        final(out)@ == old(out)@ + set_words(result@, into@, value@, lo as int, hi as int, n as int),
{
    let mut i: usize = 0;
    while i < n
        invariant
            i <= n,
            lo <= hi,
            set_words_ok(result@, into@, value@, lo as int, hi as int, n as int),
            out@ == old(out)@ + set_words(result@, into@, value@, lo as int, hi as int, i as int),
        decreases n - i,
    {
        assert(set_word_ok(result@, into@, value@, lo as int, hi as int, i as int));
        if lo <= i && i < hi {
            push_word_copy(out, result, i, value, i - lo);
        } else {
            push_word_copy(out, result, i, into, i);
        }
        assert(out@ =~= old(out)@ + set_words(result@, into@, value@, lo as int, hi as int, (i + 1) as int));
        i = i + 1;
    }
}

/// The bits before a field grow with its index.
proof fn lemma_bits_before_grows(sizes: Seq<usize>, k: int, m: int)
    requires
        k <= m,
    ensures
        bits_before(sizes, k) <= bits_before(sizes, m),
    decreases m - k,
{
    if k < m {
        lemma_bits_before_grows(sizes, k, m - 1);
    }
}

/// The offset of a field grows along the chain.
proof fn lemma_chain_offset_grows(chain: Seq<FieldStep>, k: int, m: int)
    requires
        k <= m,
    ensures
        chain_offset_bits(chain, k) <= chain_offset_bits(chain, m),
    decreases m - k,
{
    if k < m {
        lemma_chain_offset_grows(chain, k, m - 1);
    }
}

/// How far into the root value the field starts, in bits.
pub(crate) fn field_offset_bits(chain: &Vec<FieldStep>) -> (res: usize)
    requires
        forall|k: int| 0 <= k < chain@.len() ==> ((#[trigger] chain@[k]).field_bits matches Some(sizes)
            ==> chain@[k].index <= sizes@.len()),
        chain_offset_bits(chain@, chain@.len() as int) <= usize::MAX,
    ensures
        res == chain_offset_bits(chain@, chain@.len() as int),
{
    let mut total: usize = 0;
    let mut k: usize = 0;
    while k < chain.len()
        invariant
            k <= chain@.len(),
            total == chain_offset_bits(chain@, k as int),
            forall|j: int| 0 <= j < chain@.len() ==> ((#[trigger] chain@[j]).field_bits matches Some(sizes)
                ==> chain@[j].index <= sizes@.len()),
            chain_offset_bits(chain@, chain@.len() as int) <= usize::MAX,
        decreases chain@.len() - k,
    {
        proof {
            lemma_chain_offset_grows(chain@, k + 1, chain@.len() as int);
        }
        let step = &chain[k];
        if let Some(sizes) = &step.field_bits {
            let mut j: usize = 0;
            while j < step.index
                invariant
                    j <= step.index,
                    step.index <= sizes@.len(),
                    total == chain_offset_bits(chain@, k as int) + bits_before(sizes@, j as int),
                    chain_offset_bits(chain@, k as int) + bits_before(sizes@, step.index as int) <= usize::MAX,
                decreases step.index - j,
            {
                proof {
                    lemma_bits_before_grows(sizes@, j + 1, step.index as int);
                }
                total = total + sizes[j];
                j = j + 1;
            }
        }
        k = k + 1;
    }
    total
}

/// Emit assembly code for a [`SetField`].
pub fn emit_code(set_field: &SetField, ctx: &FunctionCompileContext) -> (res: String)
    requires
        ctx.local_assign.wf(),
        set_field_emittable(*set_field, ctx.places()),
    ensures
        res@ == set_field_text(*set_field, ctx.places()),
{
    let ghost places = ctx.places();
    let mut code = String::new();
    let t1 = RegisterAssign::Register("t1".to_string());
    let value_to_set: &RegisterAssign = match &set_field.source {
        Quantity::LocalVariableName(local) => place_of_local(ctx, local),
        Quantity::NumberLiteral(n) => {
            push_line_start(&mut code, "li t1, ");
            push_signed_decimal(&mut code, *n);
            push_text(&mut code, "\n");
            assert(code@ =~= source_code(set_field.source));
            &t1
        },
        _ => {
            assert(false);
            &t1
        },
    };
    assert(code@ =~= source_code(set_field.source));
    assert(value_to_set@ == source_place(set_field.source, places));
    let value_to_be_setted = place_of(ctx, &set_field.origin_root);
    let result_register = place_of(ctx, &set_field.target);
    let current_offset = field_offset_bits(&set_field.field_chain);
    let root_type_bytes = (set_field.field_chain[0].parent_bits + 7) / 8;
    let current_offset_bytes = (current_offset + 7) / 8;
    let final_type_bytes = (set_field.final_type_bits + 7) / 8;
    let c = current_offset_bytes / 4;
    let f = final_type_bytes / 4;
    let r = root_type_bytes / 4;
    assert(c == field_word(*set_field) && f == final_words(*set_field) && r == root_words(*set_field));
    let (lo, hi, n): (usize, usize, usize) = match result_register {
        RegisterAssign::Register(_) => (0, 1, 1),
        RegisterAssign::MultipleRegisters(rs) => match value_to_set {
            RegisterAssign::Register(_) => (c, c + 1, rs.len()),
            _ => (c, c + f, if rs.len() >= c + f { rs.len() } else { c + f }),
        },
        RegisterAssign::StackValue(_) => match value_to_be_setted {
            RegisterAssign::MultipleRegisters(ts) => match value_to_set {
                RegisterAssign::Register(_) => (c, c + 1, ts.len()),
                _ => (c, c + f, if ts.len() >= c + f { ts.len() } else { c + f }),
            },
            RegisterAssign::StackValue(_) => match value_to_set {
                RegisterAssign::Register(_) => (c, c, c),
                _ => (c, c + f, if r >= c + f { r } else { c + f }),
            },
            _ => (0, 1, 1),
        },
        RegisterAssign::StackRef(_) => {
            assert(false);
            (0, 0, 0)
        },
    };
    assert(layout_of(*set_field, places) == Some((lo as int, hi as int, n as int)));
    push_set_words(&mut code, result_register, value_to_be_setted, value_to_set, lo, hi, n);
    code
}

} // verus!
