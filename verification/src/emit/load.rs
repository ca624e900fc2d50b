//! Assembly code for loading a value from the stack space a register stands for.
use vstd::prelude::*;

use crate::emit::{code_line, place_of, place_of_local, push_line_start, push_slot_below, slot_below, FunctionCompileContext};
use crate::ir::{Load, Quantity};
use crate::number_text::push_text;
use crate::register_assign::{AssignView, RegisterAssign};

verus! {

/// Whether the load can be emitted: it reads a local variable that stands for stack space, into
/// a register kept in one hardware register or spilled to the stack.
pub open spec fn load_emittable(st: Load, places: Map<Seq<char>, AssignView>) -> bool {
    &&& st.from matches Quantity::LocalVariableName(l) && places.contains_key(l@) && places[l@] is StackRef
    &&& places.contains_key(st.to.0@)
    &&& (places[st.to.0@] is Register || places[st.to.0@] is StackValue)
}

/// The hardware register a value is loaded into: the target's own, or `t0` for a target spilled
/// to the stack.
pub open spec fn load_register(p: AssignView) -> Seq<char> {
    match p {
        AssignView::Register(r) => r,
        _ => "t0"@,
    }
}

/// The code of a load: a word loaded from the stack space, then stored where the target is
/// spilled to the stack.
pub open spec fn load_text(st: Load, places: Map<Seq<char>, AssignView>) -> Seq<char> {
    let from = places[st.from->LocalVariableName_0@]->StackRef_0;
    let target = places[st.to.0@];
    let to = load_register(target);
    code_line("lw "@ + to + ", "@ + slot_below(from)) + match target {
        AssignView::StackValue(o) => code_line("sw "@ + to + ", "@ + slot_below(o)),
        _ => Seq::empty(),
    }
}

/// Emit assembly code for a [`Load`].
pub fn emit_code(statement: &Load, ctx: &FunctionCompileContext) -> (res: String)
    requires
        ctx.local_assign.wf(),
        load_emittable(*statement, ctx.places()),
    ensures
        res@ == load_text(*statement, ctx.places()),
{
    let mut result = String::new();
    let from_stack_offset = match &statement.from {
        Quantity::LocalVariableName(local) => match place_of_local(ctx, local) {
            RegisterAssign::StackRef(o) => *o,
            _ => {
                assert(false);
                0
            },
        },
        _ => {
            assert(false);
            0
        },
    };
    let to_physical = place_of(ctx, &statement.to);
    let to_register = match to_physical {
        RegisterAssign::Register(r) => r.clone(),
        _ => "t0".to_string(),
    };
    assert(to_register@ == load_register(to_physical@));
    push_line_start(&mut result, "lw ");
    push_text(&mut result, to_register.as_str());
    push_text(&mut result, ", ");
    push_slot_below(&mut result, from_stack_offset);
    push_text(&mut result, "\n");
    if let RegisterAssign::StackValue(o) = to_physical {
        push_line_start(&mut result, "sw ");
        push_text(&mut result, to_register.as_str());
        push_text(&mut result, ", ");
        push_slot_below(&mut result, *o);
        push_text(&mut result, "\n");
    }
    assert(result@ =~= load_text(*statement, ctx.places()));
    result
}

} // verus!
