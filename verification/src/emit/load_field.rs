//! Assembly code for reading a field of a struct value, word by word.
use vstd::prelude::*;

use crate::emit::set_field::{bytes_of_bits, chain_offset_bits, field_offset_bits, push_slot_line, word_copy, Word};
use crate::emit::{code_line, place_of, push_line_start, stack_slot, FunctionCompileContext};
use crate::ir::LoadField;
use crate::number_text::push_text;
use crate::register_assign::{AssignView, RegisterAssign};

verus! {

/// Moves into `ts[k]` from `rs[start + k]`, for `k` in `0..n`.
pub open spec fn register_moves(ts: Seq<Seq<char>>, rs: Seq<Seq<char>>, start: int, n: int) -> Seq<char>
    decreases n,
{
    if n <= 0 {
        Seq::empty()
    } else {
        register_moves(ts, rs, start, n - 1) + word_copy(Word::Reg(ts[n - 1]), Word::Reg(rs[start + n - 1]))
    }
}

/// Loads into `ts[k]` from the slot `base + 4 * k`, for `k` in `0..n`.
pub open spec fn slot_loads(ts: Seq<Seq<char>>, base: int, n: int) -> Seq<char>
    decreases n,
{
    if n <= 0 {
        Seq::empty()
    } else {
        slot_loads(ts, base, n - 1) + word_copy(Word::Reg(ts[n - 1]), Word::Slot(base + 4 * (n - 1)))
    }
}

/// Copies to the slot `to + 4 * k` from the slot `from + 4 * k`, for `k` in `0..n`.
pub open spec fn slot_copies(to: int, from: int, n: int) -> Seq<char>
    decreases n,
{
    if n <= 0 {
        Seq::empty()
    } else {
        slot_copies(to, from, n - 1) + word_copy(Word::Slot(to + 4 * (n - 1)), Word::Slot(from + 4 * (n - 1)))
    }
}

/// Stores to the slot `to + 4 * k` from `rs[start + k]`, for `k` in `0..n`.
pub open spec fn register_stores(to: int, rs: Seq<Seq<char>>, start: int, n: int) -> Seq<char>
    decreases n,
{
    if n <= 0 {
        Seq::empty()
    } else {
        register_stores(to, rs, start, n - 1) + word_copy(Word::Slot(to + 4 * (n - 1)), Word::Reg(rs[start + n - 1]))
    }
}

/// How far into the source the field starts, in bytes.
pub open spec fn field_bytes(st: LoadField) -> int {
    bytes_of_bits(chain_offset_bits(st.field_chain@, st.field_chain@.len() as int)) as int
}

/// How many bytes the field takes.
pub open spec fn leaf_bytes(st: LoadField) -> int {
    bytes_of_bits(st.leaf_type_bits as nat) as int
}

/// How many registers of `rs` a field starting at byte `c` and taking `f` bytes is stored
/// into: those from `c / 4` on, at most `f / 4` of them.
pub open spec fn words_from(rs: Seq<Seq<char>>, c: int, f: int) -> int {
    let left = rs.len() - c / 4;
    if left <= 0 {
        0
    } else if f / 4 < left {
        f / 4
    } else {
        left
    }
}

/// The code that copies the field, starting at byte `c` of the source and taking `f` bytes, from
/// `from` to `to`: word by word, each move, load or store as the places call for; into a stack
/// slot the field goes at its own offset inside the target, except from a single register.
pub open spec fn field_copy(to: AssignView, from: AssignView, c: int, f: int) -> Seq<char> {
    match to {
        AssignView::Register(t) => match from {
            AssignView::Register(s) => code_line("mv "@ + t + ", "@ + s),
            AssignView::MultipleRegisters(rs) => code_line("mv "@ + t + ", "@ + rs[c / 4]),
            AssignView::StackValue(o) => code_line("lw "@ + t + ", "@ + stack_slot((o + c) as usize)),
            AssignView::StackRef(_) => Seq::empty(),
        },
        AssignView::MultipleRegisters(ts) => match from {
            AssignView::MultipleRegisters(rs) => register_moves(ts, rs, c / 4, ts.len() as int),
            AssignView::StackValue(o) => slot_loads(ts, o + c, ts.len() as int),
            _ => Seq::empty(),
        },
        AssignView::StackValue(t) => match from {
            AssignView::Register(s) => code_line("sw "@ + s + ", "@ + stack_slot(t)),
            AssignView::StackValue(o) => slot_copies(t + c, o + c, f / 4),
            AssignView::MultipleRegisters(rs) => register_stores(t + c, rs, c / 4, words_from(rs, c, f)),
            AssignView::StackRef(_) => Seq::empty(),
        },
        AssignView::StackRef(_) => Seq::empty(),
    }
}

/// Whether the field can be copied from `from` to `to`: neither place is stack space for
/// `alloca`, a single register is not copied into several, the registers read exist, and the
/// stack offsets computed fit in a `usize`.
pub open spec fn field_copyable(to: AssignView, from: AssignView, c: int, f: int) -> bool {
    match to {
        AssignView::Register(_) => match from {
            AssignView::Register(_) => true,
            AssignView::MultipleRegisters(rs) => c / 4 < rs.len(),
            AssignView::StackValue(o) => o + c <= usize::MAX,
            AssignView::StackRef(_) => false,
        },
        AssignView::MultipleRegisters(ts) => match from {
            AssignView::MultipleRegisters(rs) => c / 4 + ts.len() <= rs.len(),
            AssignView::StackValue(o) => o + c + 4 * ts.len() <= usize::MAX,
            _ => false,
        },
        AssignView::StackValue(t) => match from {
            AssignView::Register(_) => true,
            AssignView::StackValue(o) => o + c + 4 * (f / 4) <= usize::MAX && t + c + 4 * (f / 4) <= usize::MAX,
            AssignView::MultipleRegisters(rs) => t + c + 4 * words_from(rs, c, f) <= usize::MAX,
            AssignView::StackRef(_) => false,
        },
        AssignView::StackRef(_) => false,
    }
}

/// Whether the statement can be emitted: both registers have places, each field index is within
/// its struct, the sizes add up within a `usize`, and the field can be copied.
pub open spec fn load_field_emittable(st: LoadField, places: Map<Seq<char>, AssignView>) -> bool {
    &&& places.contains_key(st.target.0@)
    &&& places.contains_key(st.source.0@)
    &&& forall|k: int| 0 <= k < st.field_chain@.len() ==> ((#[trigger] st.field_chain@[k]).field_bits matches Some(sizes)
        ==> st.field_chain@[k].index <= sizes@.len())
    &&& chain_offset_bits(st.field_chain@, st.field_chain@.len() as int) + 7 <= usize::MAX
    &&& st.leaf_type_bits + 7 <= usize::MAX
    &&& field_copyable(places[st.target.0@], places[st.source.0@], field_bytes(st), leaf_bytes(st))
}

/// The code of a [`LoadField`].
pub open spec fn load_field_text(st: LoadField, places: Map<Seq<char>, AssignView>) -> Seq<char> {
    field_copy(places[st.target.0@], places[st.source.0@], field_bytes(st), leaf_bytes(st))
}

/// Appends `    mv <to>, <from>`.
fn push_move(out: &mut String, to: &str, from: &str)
    ensures
        final(out)@ == old(out)@ + code_line("mv "@ + to@ + ", "@ + from@),
{
    push_line_start(out, "mv ");
    push_text(out, to);
    push_text(out, ", ");
    push_text(out, from);
    push_text(out, "\n");
    assert(out@ =~= old(out)@ + code_line("mv "@ + to@ + ", "@ + from@));
}

/// Appends the load of `t0` from slot `from` and its store to slot `to`.
fn push_slot_copy(out: &mut String, to: usize, from: usize)
    ensures
        final(out)@ == old(out)@ + word_copy(Word::Slot(to as int), Word::Slot(from as int)),
{
    push_slot_line(out, "lw ", "t0", from);
    push_slot_line(out, "sw ", "t0", to);
    proof {
        reveal_strlit("lw ");
        reveal_strlit("sw ");
        reveal_strlit("t0");
        reveal_strlit(", ");
        reveal_strlit("lw t0, ");
        reveal_strlit("sw t0, ");
        assert("lw "@ + "t0"@ + ", "@ =~= "lw t0, "@);
        assert("sw "@ + "t0"@ + ", "@ =~= "sw t0, "@);
    }
    assert(out@ =~= old(out)@ + word_copy(Word::Slot(to as int), Word::Slot(from as int)));
}

/// Emit assembly code for a [`LoadField`].
pub fn emit_code(statement: &LoadField, ctx: &FunctionCompileContext) -> (res: String)
    requires
        ctx.local_assign.wf(),
        load_field_emittable(*statement, ctx.places()),
    ensures
        res@ == load_field_text(*statement, ctx.places()),
{
    let current_offset = field_offset_bits(&statement.field_chain);
    let current_offset_bytes = (current_offset + 7) / 8;
    let to_physical_register = place_of(ctx, &statement.target);
    let from_physical_register = place_of(ctx, &statement.source);
    let final_result_bytes = (statement.leaf_type_bits + 7) / 8;
    let ghost c = current_offset_bytes as int;
    let ghost f = final_result_bytes as int;
    assert(c == field_bytes(*statement) && f == leaf_bytes(*statement));
    let ghost to_view = to_physical_register@;
    let ghost from_view = from_physical_register@;
    let mut result = String::new();
    match to_physical_register {
        RegisterAssign::Register(to) => match from_physical_register {
            RegisterAssign::Register(from) => {
                push_move(&mut result, to.as_str(), from.as_str());
            },
            RegisterAssign::MultipleRegisters(from) => {
                let field_at_register = current_offset_bytes / 4;
                push_move(&mut result, to.as_str(), from[field_at_register].as_str());
            },
            RegisterAssign::StackValue(stack_offset) => {
                push_slot_line(&mut result, "lw ", to.as_str(), *stack_offset + current_offset_bytes);
            },
            RegisterAssign::StackRef(_) => {
                assert(false);
            },
        },
        RegisterAssign::MultipleRegisters(to) => match from_physical_register {
            RegisterAssign::MultipleRegisters(from) => {
                let ghost ts = to@.map_values(|r: String| r@);
                let ghost rs = from@.map_values(|r: String| r@);
                let mut field_at_register = current_offset_bytes / 4;
                let mut k: usize = 0;
                while k < to.len()
                    invariant
                        k <= to@.len(),
                        field_at_register == current_offset_bytes / 4 + k,
                        current_offset_bytes / 4 + to@.len() <= from@.len(),
                        from@.len() == from.len(),
                        c == current_offset_bytes,
                        ts == to@.map_values(|r: String| r@),
                        rs == from@.map_values(|r: String| r@),
                        result@ == register_moves(ts, rs, c / 4, k as int),
                    decreases to@.len() - k,
                {
                    push_move(&mut result, to[k].as_str(), from[field_at_register].as_str());
                    assert(ts[k as int] == to@[k as int]@ && rs[c / 4 + k] == from@[field_at_register as int]@);
                    field_at_register = field_at_register + 1;
                    k = k + 1;
                }
                assert(result@ == field_copy(to_view, from_view, c, f));
            },
            RegisterAssign::StackValue(from) => {
                let ghost ts = to@.map_values(|r: String| r@);
                let mut current = *from + current_offset_bytes;
                let mut k: usize = 0;
                while k < to.len()
                    invariant
                        k <= to@.len(),
                        current == *from + current_offset_bytes + 4 * k,
                        *from + current_offset_bytes + 4 * to@.len() <= usize::MAX,
                        c == current_offset_bytes,
                        ts == to@.map_values(|r: String| r@),
                        result@ == slot_loads(ts, *from + c, k as int),
                    decreases to@.len() - k,
                {
                    push_slot_line(&mut result, "lw ", to[k].as_str(), current);
                    assert(ts[k as int] == to@[k as int]@);
                    current = current + 4;
                    k = k + 1;
                }
                assert(result@ == field_copy(to_view, from_view, c, f));
            },
            _ => {
                assert(false);
            },
        },
        RegisterAssign::StackValue(to) => match from_physical_register {
            RegisterAssign::Register(from) => {
                push_slot_line(&mut result, "sw ", from.as_str(), *to);
            },
            RegisterAssign::StackValue(from) => {
                let mut current_from = *from + current_offset_bytes;
                let mut current_to = *to + current_offset_bytes;
                let words = final_result_bytes / 4;
                let mut k: usize = 0;
                while k < words
                    invariant
                        k <= words,
                        words == final_result_bytes / 4,
                        current_from == *from + current_offset_bytes + 4 * k,
                        current_to == *to + current_offset_bytes + 4 * k,
                        *from + current_offset_bytes + 4 * words <= usize::MAX,
                        *to + current_offset_bytes + 4 * words <= usize::MAX,
                        c == current_offset_bytes,
                        result@ == slot_copies(*to + c, *from + c, k as int),
                    decreases words - k,
                {
                    push_slot_copy(&mut result, current_to, current_from);
                    current_from = current_from + 4;
                    current_to = current_to + 4;
                    k = k + 1;
                }
                assert(result@ == field_copy(to_view, from_view, c, f));
            },
            RegisterAssign::MultipleRegisters(from) => {
                let ghost rs = from@.map_values(|r: String| r@);
                let start_at_register = current_offset_bytes / 4;
                let final_result_words = final_result_bytes / 4;
                let count = if start_at_register >= from.len() {
                    0
                } else if final_result_words < from.len() - start_at_register {
                    final_result_words
                } else {
                    from.len() - start_at_register
                };
                assert(count == words_from(from_view->MultipleRegisters_0, c, f));
                assert(count == 0 || start_at_register + count <= from@.len());
                let mut current = *to + current_offset_bytes;
                let mut k: usize = 0;
                while k < count
                    invariant
                        k <= count,
                        start_at_register == current_offset_bytes / 4,
                        count == 0 || start_at_register + count <= from@.len(),
                        current == *to + current_offset_bytes + 4 * k,
                        *to + current_offset_bytes + 4 * count <= usize::MAX,
                        c == current_offset_bytes,
                        rs == from@.map_values(|r: String| r@),
                        result@ == register_stores(*to + c, rs, c / 4, k as int),
                    decreases count - k,
                {
                    push_slot_line(&mut result, "sw ", from[start_at_register + k].as_str(), current);
                    assert(rs[c / 4 + k] == from@[(start_at_register + k) as int]@);
                    current = current + 4;
                    k = k + 1;
                }
                assert(result@ == field_copy(to_view, from_view, c, f));
            },
            RegisterAssign::StackRef(_) => {
                assert(false);
            },
        },
        RegisterAssign::StackRef(_) => {
            assert(false);
        },
    }
    result
}

} // verus!
