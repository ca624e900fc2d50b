//! Assembly code for single statements of a function, given where each register is kept.
use vstd::prelude::*;

use crate::ir::{Quantity, RegisterName};
use crate::name_map::NameMap;
use crate::number_text::{push_decimal_u64, push_signed_decimal, push_text, signed_decimal};
use crate::register_allocation::assign_views;
use crate::register_assign::{AssignView, RegisterAssign};
use crate::text::decimal;

pub mod basic_block;
pub mod block;
pub mod binary_calculate;
pub mod call;
pub mod load;
pub mod load_field;
pub mod ret;
pub mod set_field;
pub mod store;
pub mod terminator;
pub mod unary_calculate;

verus! {

/// What compiling the statements of a function reads: where each register is kept, the label to
/// jump to instead of returning, and the constants phi nodes load at the end of each block.
pub struct FunctionCompileContext {
    pub local_assign: NameMap<RegisterAssign>,
    pub cleanup_label: Option<String>,
    pub phi_constant_assign: NameMap<Vec<(RegisterAssign, i64)>>,
}

impl FunctionCompileContext {
    /// Where each register is kept.
    pub open spec fn places(self) -> Map<Seq<char>, AssignView> {
        assign_views(self.local_assign@)
    }
}

/// An instruction on a line of its own, indented by four spaces.
pub open spec fn code_line(instruction: Seq<char>) -> Seq<char> {
    "    "@ + instruction + "\n"@
}

/// A stack slot `o` bytes above the stack pointer.
pub open spec fn stack_slot(o: usize) -> Seq<char> {
    decimal(o as nat) + "(sp)"@
}

/// Whether `q` can be loaded into a register: a number, or a register kept in one hardware
/// register or in a stack slot.
pub open spec fn loadable(q: Quantity, places: Map<Seq<char>, AssignView>) -> bool {
    match q {
        Quantity::RegisterName(r) => places.contains_key(r.0@) && !(places[r.0@] is MultipleRegisters),
        Quantity::NumberLiteral(_) => true,
        _ => false,
    }
}

/// The code that brings `q` into the hardware register `target`: a move, a load from the stack,
/// or a load of the number.
pub open spec fn load_quantity(target: Seq<char>, q: Quantity, places: Map<Seq<char>, AssignView>) -> Seq<char> {
    match q {
        Quantity::RegisterName(r) => match places[r.0@] {
            AssignView::Register(p) => code_line("mv "@ + target + ", "@ + p),
            AssignView::StackRef(o) => code_line("lw "@ + target + ", "@ + stack_slot(o)),
            AssignView::StackValue(o) => code_line("lw "@ + target + ", "@ + stack_slot(o)),
            AssignView::MultipleRegisters(_) => Seq::empty(),
        },
        Quantity::NumberLiteral(c) => code_line("li "@ + target + ", "@ + signed_decimal(c as int)),
        _ => Seq::empty(),
    }
}

/// Appends `    `, the instruction and a line end.
pub fn push_line_start(out: &mut String, mnemonic: &str)
    ensures
        final(out)@ == old(out)@ + "    "@ + mnemonic@,
{
    push_text(out, "    ");
    push_text(out, mnemonic);
    assert(out@ =~= old(out)@ + "    "@ + mnemonic@);
}

/// Appends a stack slot.
pub fn push_stack_slot(out: &mut String, o: usize)
    ensures
        final(out)@ == old(out)@ + stack_slot(o),
{
    push_decimal_u64(out, o as u64);
    push_text(out, "(sp)");
    assert(out@ =~= old(out)@ + stack_slot(o));
}

/// The place of register `r`.
pub fn place_of<'a>(ctx: &'a FunctionCompileContext, r: &RegisterName) -> (res: &'a RegisterAssign)
    requires
        ctx.local_assign.wf(),
        ctx.places().contains_key(r.0@),
    ensures
        res@ == ctx.places()[r.0@],
{
    match ctx.local_assign.get(r.0.as_str()) {
        Some(a) => a,
        None => {
            assert(ctx.local_assign@.contains_key(r.0@));
            assert(false);
            ctx.local_assign.get(r.0.as_str()).unwrap()
        },
    }
}

/// Appends the code that brings `q` into the hardware register `target`.
pub fn push_load_quantity(out: &mut String, target: &str, q: &Quantity, ctx: &FunctionCompileContext)
    requires
        ctx.local_assign.wf(),
        loadable(*q, ctx.places()),
    ensures
        final(out)@ == old(out)@ + load_quantity(target@, *q, ctx.places()),
{
    match q {
        Quantity::RegisterName(r) => {
            let a = place_of(ctx, r);
            match a {
                RegisterAssign::Register(p) => {
                    push_line_start(out, "mv ");
                    push_text(out, target);
                    push_text(out, ", ");
                    push_text(out, p.as_str());
                },
                RegisterAssign::StackRef(o) => {
                    push_line_start(out, "lw ");
                    push_text(out, target);
                    push_text(out, ", ");
                    push_stack_slot(out, *o);
                },
                RegisterAssign::StackValue(o) => {
                    push_line_start(out, "lw ");
                    push_text(out, target);
                    push_text(out, ", ");
                    push_stack_slot(out, *o);
                },
                RegisterAssign::MultipleRegisters(_) => {
                    assert(false);
                },
            }
            push_text(out, "\n");
        },
        Quantity::NumberLiteral(c) => {
            push_line_start(out, "li ");
            push_text(out, target);
            push_text(out, ", ");
            push_signed_decimal(out, *c);
            push_text(out, "\n");
        },
        _ => {
            assert(false);
        },
    }
    assert(out@ =~= old(out)@ + load_quantity(target@, *q, ctx.places()));
}

/// A stack slot `o` bytes below the stack pointer.
pub open spec fn slot_below(o: usize) -> Seq<char> {
    "-"@ + decimal(o as nat) + "(sp)"@
}

/// Appends a stack slot below the stack pointer.
pub fn push_slot_below(out: &mut String, o: usize)
    ensures
        final(out)@ == old(out)@ + slot_below(o),
{
    push_text(out, "-");
    push_decimal_u64(out, o as u64);
    push_text(out, "(sp)");
    assert(out@ =~= old(out)@ + slot_below(o));
}

/// The place of the local variable `name`.
pub fn place_of_local<'a>(ctx: &'a FunctionCompileContext, name: &String) -> (res: &'a RegisterAssign)
    requires
        ctx.local_assign.wf(),
        ctx.places().contains_key(name@),
    ensures
        res@ == ctx.places()[name@],
{
    match ctx.local_assign.get(name.as_str()) {
        Some(a) => a,
        None => {
            assert(ctx.local_assign@.contains_key(name@));
            assert(false);
            ctx.local_assign.get(name.as_str()).unwrap()
        },
    }
}

} // verus!
