//! Assembly code for returning from a function, with local variables kept below the stack
//! pointer.
use vstd::prelude::*;

use crate::emit::{code_line, place_of_local, push_line_start, push_slot_below, slot_below, FunctionCompileContext};
use crate::ir::{Quantity, Ret};
use crate::number_text::{push_signed_decimal, push_text, signed_decimal};
use crate::register_assign::{AssignView, RegisterAssign};

verus! {

/// Whether the value `ret` returns, if any, can be brought into `a0`: a number, or a local
/// variable kept in one hardware register or spilled to the stack.
pub open spec fn ret_emittable(ret: Ret, places: Map<Seq<char>, AssignView>) -> bool {
    ret.value matches Some(q) ==> match q {
        Quantity::LocalVariableName(l) => places.contains_key(l@) && (places[l@] is Register || places[l@] is StackValue),
        Quantity::NumberLiteral(_) => true,
        _ => false,
    }
}

/// The code of `ret`: its value, if any, brought into `a0`, then a jump to the cleanup label
/// where there is one, else `ret`.
pub open spec fn ret_text(ret: Ret, places: Map<Seq<char>, AssignView>, cleanup: Option<Seq<char>>) -> Seq<char> {
    (match ret.value {
        Some(Quantity::LocalVariableName(l)) => match places[l@] {
            AssignView::Register(r) => code_line("mv a0, "@ + r),
            AssignView::StackValue(o) => code_line("lw a0, "@ + slot_below(o)),
            _ => Seq::empty(),
        },
        Some(Quantity::NumberLiteral(n)) => code_line("li a0, "@ + signed_decimal(n as int)),
        _ => Seq::empty(),
    }) + match cleanup {
        Some(l) => code_line("j "@ + l),
        None => code_line("ret"@),
    }
}

/// Emit assembly code for a [`Ret`].
pub fn emit_code(ret: &Ret, ctx: &FunctionCompileContext) -> (res: String)
    requires
        ctx.local_assign.wf(),
        ret_emittable(*ret, ctx.places()),
    ensures
        res@ == ret_text(*ret, ctx.places(), crate::emit::ret::label_text(ctx.cleanup_label)),
{
    let mut result = String::new();
    match &ret.value {
        Some(Quantity::LocalVariableName(local)) => match place_of_local(ctx, local) {
            RegisterAssign::Register(r) => {
                push_line_start(&mut result, "mv a0, ");
                push_text(&mut result, r.as_str());
                push_text(&mut result, "\n");
            },
            RegisterAssign::StackValue(o) => {
                push_line_start(&mut result, "lw a0, ");
                push_slot_below(&mut result, *o);
                push_text(&mut result, "\n");
            },
            _ => {
                assert(false);
            },
        },
        Some(Quantity::NumberLiteral(n)) => {
            push_line_start(&mut result, "li a0, ");
            push_signed_decimal(&mut result, *n);
            push_text(&mut result, "\n");
        },
        Some(_) => {
            assert(false);
        },
        None => {},
    }
    if let Some(cleanup_label) = &ctx.cleanup_label {
        push_line_start(&mut result, "j ");
        push_text(&mut result, cleanup_label.as_str());
        push_text(&mut result, "\n");
    } else {
        push_line_start(&mut result, "ret");
        push_text(&mut result, "\n");
    }
    assert(result@ =~= ret_text(*ret, ctx.places(), crate::emit::ret::label_text(ctx.cleanup_label)));
    result
}

} // verus!
