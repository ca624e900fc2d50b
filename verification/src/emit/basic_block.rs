//! Assembly code that loads the constants phi nodes take from a block, at the block's end.
use vstd::prelude::*;

use crate::emit::{code_line, push_line_start, push_stack_slot, stack_slot, FunctionCompileContext};
use crate::ir::BasicBlock;
use crate::number_text::{push_signed_decimal, push_text, signed_decimal};
use crate::register_assign::{AssignView, RegisterAssign};

verus! {

/// The code that loads `item.1` into the place `item.0`: `li` into a register, or `li` into
/// `t0` and a store for a place on the stack.
pub open spec fn phi_insert_line(item: (RegisterAssign, i64)) -> Seq<char> {
    match item.0@ {
        AssignView::Register(r) => code_line("li "@ + r + ", "@ + signed_decimal(item.1 as int)),
        AssignView::StackRef(o) => code_line("li t0, "@ + signed_decimal(item.1 as int)) + code_line("sw t0, "@ + stack_slot(o)),
        AssignView::StackValue(o) => code_line("li t0, "@ + signed_decimal(item.1 as int)) + code_line("sw t0, "@ + stack_slot(o)),
        AssignView::MultipleRegisters(_) => Seq::empty(),
    }
}

/// The code that loads each of `items` in turn.
pub open spec fn phi_insert_text(items: Seq<(RegisterAssign, i64)>) -> Seq<char>
    decreases items.len(),
{
    if items.len() == 0 {
        Seq::empty()
    } else {
        phi_insert_text(items.drop_last()) + phi_insert_line(items.last())
    }
}

/// Whether the phi constants of `block` can be loaded: the block has a name, and none of its
/// constants goes to a place made of several registers.
pub open spec fn phi_inserts_emittable(ctx: FunctionCompileContext, block: BasicBlock) -> bool {
    &&& block.name is Some
    &&& ctx.phi_constant_assign.wf()
    &&& ctx.phi_constant_assign@.contains_key(block.name.unwrap()@) ==> forall|k: int|
        0 <= k < ctx.phi_constant_assign@[block.name.unwrap()@]@.len()
        ==> !((#[trigger] ctx.phi_constant_assign@[block.name.unwrap()@]@[k]).0@ is MultipleRegisters)
}

/// The code that loads the phi constants of `block`: none where it has none.
pub open spec fn phi_inserts_text(ctx: FunctionCompileContext, block: BasicBlock) -> Seq<char> {
    if ctx.phi_constant_assign@.contains_key(block.name.unwrap()@) {
        phi_insert_text(ctx.phi_constant_assign@[block.name.unwrap()@]@)
    } else {
        Seq::empty()
    }
}

/// The code that loads, at the end of `basic_block`, the constants that phi nodes take from it.
pub fn append_phi_insert(ctx: &FunctionCompileContext, basic_block: &BasicBlock) -> (res: String)
    requires
        phi_inserts_emittable(*ctx, *basic_block),
    ensures
        res@ == phi_inserts_text(*ctx, *basic_block),
{
    let mut result = String::new();
    let name = match &basic_block.name {
        Some(n) => n,
        None => {
            assert(false);
            return result;
        },
    };
    if let Some(phi_insert) = ctx.phi_constant_assign.get(name.as_str()) {
        let mut i: usize = 0;
        assert(phi_insert@.take(0) =~= Seq::<(RegisterAssign, i64)>::empty());
        while i < phi_insert.len()
            invariant
                i <= phi_insert@.len(),
                forall|k: int| 0 <= k < phi_insert@.len() ==> !((#[trigger] phi_insert@[k]).0@ is MultipleRegisters),
                result@ == phi_insert_text(phi_insert@.take(i as int)),
            decreases phi_insert@.len() - i,
        {
            let ghost before = result@;
            let (register_assign, constant) = (&phi_insert[i].0, phi_insert[i].1);
            assert(!(phi_insert@[i as int].0@ is MultipleRegisters));
            match register_assign {
                RegisterAssign::Register(register) => {
                    push_line_start(&mut result, "li ");
                    push_text(&mut result, register.as_str());
                    push_text(&mut result, ", ");
                    push_signed_decimal(&mut result, constant);
                    push_text(&mut result, "\n");
                },
                RegisterAssign::StackRef(offset) => {
                    push_line_start(&mut result, "li t0, ");
                    push_signed_decimal(&mut result, constant);
                    push_text(&mut result, "\n");
                    push_line_start(&mut result, "sw t0, ");
                    push_stack_slot(&mut result, *offset);
                    push_text(&mut result, "\n");
                },
                RegisterAssign::StackValue(offset) => {
                    push_line_start(&mut result, "li t0, ");
                    push_signed_decimal(&mut result, constant);
                    push_text(&mut result, "\n");
                    push_line_start(&mut result, "sw t0, ");
                    push_stack_slot(&mut result, *offset);
                    push_text(&mut result, "\n");
                },
                RegisterAssign::MultipleRegisters(_) => {
                    assert(false);
                },
            }
            let ghost t = phi_insert@.take(i + 1);
            assert(t.drop_last() =~= phi_insert@.take(i as int));
            assert(t.last() == phi_insert@[i as int]);
            assert(result@ =~= before + phi_insert_line(phi_insert@[i as int]));
            i = i + 1;
        }
        assert(phi_insert@.take(phi_insert@.len() as int) =~= phi_insert@);
    }
    result
}

} // verus!
