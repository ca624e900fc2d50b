//! Assembly code for returning from a function.
use vstd::prelude::*;

use crate::emit::{code_line, load_quantity, loadable, push_line_start, push_load_quantity, FunctionCompileContext};
use crate::ir::{Quantity, Ret};
use crate::number_text::push_text;
use crate::register_assign::AssignView;

verus! {

/// Whether the value `ret` returns, if any, can be brought into `a0`: a number, or a register
/// kept in one hardware register or spilled to the stack.
pub open spec fn ret_emittable(ret: Ret, places: Map<Seq<char>, AssignView>) -> bool {
    ret.value matches Some(q) ==> (loadable(q, places)
        && !(q matches Quantity::RegisterName(r) && places[r.0@] is StackRef))
}

/// The text of a label, where there is one.
pub open spec fn label_text(label: Option<String>) -> Option<Seq<char>> {
    match label {
        Some(l) => Some(l@),
        None => None,
    }
}

/// The code of `ret`: its value, if any, brought into `a0`, then a jump to the cleanup label
/// where there is one, else `ret`.
pub open spec fn ret_text(ret: Ret, places: Map<Seq<char>, AssignView>, cleanup: Option<Seq<char>>) -> Seq<char> {
    (match ret.value {
        Some(q) => load_quantity("a0"@, q, places),
        None => Seq::empty(),
    }) + match cleanup {
        Some(l) => code_line("j "@ + l),
        None => code_line("ret"@),
    }
}

/// Emit assembly code for a [`Ret`].
pub fn emit_code(ret: &Ret, ctx: &FunctionCompileContext) -> (res: String)
    requires
        ctx.local_assign.wf(),
        ret_emittable(*ret, ctx.places()),
    ensures
        res@ == ret_text(*ret, ctx.places(), label_text(ctx.cleanup_label)),
{
    let mut result = String::new();
    if let Some(operand) = &ret.value {
        push_load_quantity(&mut result, "a0", operand, ctx);
    }
    let ghost head = result@;
    if let Some(cleanup_label) = &ctx.cleanup_label {
        push_line_start(&mut result, "j ");
        push_text(&mut result, cleanup_label.as_str());
        push_text(&mut result, "\n");
    } else {
        push_line_start(&mut result, "ret");
        push_text(&mut result, "\n");
    }
    assert(result@ =~= ret_text(*ret, ctx.places(), label_text(ctx.cleanup_label)));
    result
}

} // verus!
