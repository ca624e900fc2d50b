//! Assembly code for the statements that end basic blocks.
use vstd::prelude::*;

use crate::emit::{code_line, push_line_start, FunctionCompileContext};
use crate::ir::Terminator;
use crate::number_text::push_text;
use crate::register_assign::AssignView;

pub mod branch;
pub mod ret;

use branch::{branch_emittable, branch_text};
use ret::{ret_emittable, ret_text};
use crate::emit::ret::label_text;

verus! {

/// Whether the terminator can be emitted: a jump always, a branch or a return where its
/// operands can be made available.
pub open spec fn terminator_emittable(t: Terminator, places: Map<Seq<char>, AssignView>) -> bool {
    match t {
        Terminator::Branch(b) => branch_emittable(b, places),
        Terminator::Jump(_) => true,
        Terminator::Ret(r) => ret_emittable(r, places),
    }
}

/// The code of a terminator: that of a branch or a return, and `j` to the label of a jump.
pub open spec fn terminator_text(t: Terminator, places: Map<Seq<char>, AssignView>, cleanup: Option<Seq<char>>) -> Seq<char> {
    match t {
        Terminator::Branch(b) => branch_text(b, places),
        Terminator::Jump(j) => code_line("j "@ + j.label@),
        Terminator::Ret(r) => ret_text(r, places, cleanup),
    }
}

/// Emit assembly code for a [`Terminator`].
pub fn emit_code(terminator: &Terminator, ctx: &FunctionCompileContext) -> (res: String)
    requires
        ctx.local_assign.wf(),
        terminator_emittable(*terminator, ctx.places()),
    ensures
        res@ == terminator_text(*terminator, ctx.places(), label_text(ctx.cleanup_label)),
{
    match terminator {
        Terminator::Branch(b) => branch::emit_code(b, ctx),
        Terminator::Jump(j) => {
            let mut result = String::new();
            push_line_start(&mut result, "j ");
            push_text(&mut result, j.label.as_str());
            push_text(&mut result, "\n");
            assert(result@ =~= code_line("j "@ + j.label@));
            result
        },
        Terminator::Ret(r) => ret::emit_code(r, ctx),
    }
}

} // verus!
