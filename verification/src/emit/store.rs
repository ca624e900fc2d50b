//! Assembly code for storing a value into the stack space a register stands for.
use vstd::prelude::*;

use crate::emit::{code_line, place_of_local, push_line_start, push_slot_below, slot_below, FunctionCompileContext};
use crate::ir::{Quantity, Store};
use crate::number_text::{push_signed_decimal, push_text, signed_decimal};
use crate::register_assign::{AssignView, RegisterAssign};

verus! {

/// Whether the store can be emitted: its source is a number or a local variable kept in one
/// hardware register or spilled to the stack, and its target a local variable that stands for
/// stack space.
pub open spec fn store_emittable(st: Store, places: Map<Seq<char>, AssignView>) -> bool {
    &&& match st.source {
        Quantity::LocalVariableName(l) => places.contains_key(l@) && (places[l@] is Register || places[l@] is StackValue),
        Quantity::NumberLiteral(_) => true,
        _ => false,
    }
    &&& st.target matches Quantity::LocalVariableName(l) && places.contains_key(l@) && places[l@] is StackRef
}

/// The code that makes the source available and the hardware register it is then in: its own,
/// or `t0` loaded from the stack (a line with no indentation) or with the number.
pub open spec fn source_code(q: Quantity, places: Map<Seq<char>, AssignView>) -> (Seq<char>, Seq<char>) {
    match q {
        Quantity::LocalVariableName(l) => match places[l@] {
            AssignView::Register(r) => (Seq::empty(), r),
            AssignView::StackValue(o) => ("lw t0, "@ + slot_below(o) + "\n"@, "t0"@),
            _ => (Seq::empty(), Seq::empty()),
        },
        Quantity::NumberLiteral(n) => (code_line("li t0, "@ + signed_decimal(n as int)), "t0"@),
        _ => (Seq::empty(), Seq::empty()),
    }
}

/// The code of a store: the source made available, then stored into the target's stack space.
pub open spec fn store_text(st: Store, places: Map<Seq<char>, AssignView>) -> Seq<char> {
    let source = source_code(st.source, places);
    let target = places[st.target->LocalVariableName_0@]->StackRef_0;
    source.0 + code_line("sw "@ + source.1 + ", "@ + slot_below(target))
}

/// Emit assembly code for a [`Store`].
pub fn emit_code(statement: &Store, ctx: &FunctionCompileContext) -> (res: String)
    requires
        ctx.local_assign.wf(),
        store_emittable(*statement, ctx.places()),
    ensures
        res@ == store_text(*statement, ctx.places()),
{
    let mut result = String::new();
    let source_register = match &statement.source {
        Quantity::LocalVariableName(local) => match place_of_local(ctx, local) {
            RegisterAssign::Register(r) => r.clone(),
            RegisterAssign::StackValue(o) => {
                push_text(&mut result, "lw t0, ");
                push_slot_below(&mut result, *o);
                push_text(&mut result, "\n");
                "t0".to_string()
            },
            _ => {
                assert(false);
                String::new()
            },
        },
        Quantity::NumberLiteral(n) => {
            push_line_start(&mut result, "li t0, ");
            push_signed_decimal(&mut result, *n);
            push_text(&mut result, "\n");
            "t0".to_string()
        },
        _ => {
            assert(false);
            String::new()
        },
    };
    let ghost source = source_code(statement.source, ctx.places());
    assert(result@ =~= source.0 && source_register@ == source.1);
    let target_stack_offset = match &statement.target {
        Quantity::LocalVariableName(local) => match place_of_local(ctx, local) {
            RegisterAssign::StackRef(o) => *o,
            _ => {
                assert(false);
                0
            },
        },
        _ => {
            assert(false);
            0
        },
    };
    push_line_start(&mut result, "sw ");
    push_text(&mut result, source_register.as_str());
    push_text(&mut result, ", ");
    push_slot_below(&mut result, target_stack_offset);
    push_text(&mut result, "\n");
    assert(result@ =~= store_text(*statement, ctx.places()));
    result
}

} // verus!
