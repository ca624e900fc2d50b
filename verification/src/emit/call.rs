//! Assembly code for calls of the built-in functions `load_u32` and `store_u32`.
use vstd::prelude::*;

use crate::emit::{
    code_line, load_quantity, loadable, place_of, push_line_start, push_load_quantity, push_stack_slot,
    stack_slot, FunctionCompileContext,
};
use crate::ir::{Call, Quantity, RegisterName};
use crate::number_text::push_text;
use crate::register_assign::{AssignView, RegisterAssign};

verus! {

/// Whether the result of a call, if it is kept, goes to a register kept in one hardware register
/// or in a stack slot.
pub open spec fn storable(to: Option<RegisterName>, places: Map<Seq<char>, AssignView>) -> bool {
    to matches Some(t) ==> (places.contains_key(t.0@) && !(places[t.0@] is MultipleRegisters))
}

/// The code that keeps `a0` in the register `to`, if there is one.
pub open spec fn result_kept(to: Option<RegisterName>, places: Map<Seq<char>, AssignView>) -> Seq<char> {
    match to {
        Some(t) => match places[t.0@] {
            AssignView::Register(r) => code_line("mv "@ + r + ", a0"@),
            AssignView::StackRef(o) => code_line("sw a0, "@ + stack_slot(o)),
            AssignView::StackValue(o) => code_line("sw a0, "@ + stack_slot(o)),
            AssignView::MultipleRegisters(_) => Seq::empty(),
        },
        None => Seq::empty(),
    }
}

/// The code of `store_u32`: the value into `a1`, the address into `a0`, then the store.
pub open spec fn store_u32_text(to_address: Quantity, value: Quantity, places: Map<Seq<char>, AssignView>) -> Seq<char> {
    load_quantity("a1"@, value, places) + load_quantity("a0"@, to_address, places) + code_line("sw a1, 0(a0)"@)
}

/// The code of `load_u32`: the address into `a0`, the load, then the result kept.
pub open spec fn load_u32_text(to: Option<RegisterName>, from_address: Quantity, places: Map<Seq<char>, AssignView>) -> Seq<char> {
    load_quantity("a0"@, from_address, places) + code_line("lw a0, 0(a0)"@) + result_kept(to, places)
}

/// Whether `call` is a call of `load_u32` with an address, or of `store_u32` with an address
/// and a value, whose operands can be brought into registers.
pub open spec fn call_emittable(call: Call, places: Map<Seq<char>, AssignView>) -> bool {
    ||| call.name@ == "load_u32"@ && call.params@.len() >= 1 && loadable(call.params@[0], places)
        && storable(call.to, places)
    ||| call.name@ == "store_u32"@ && call.params@.len() >= 2 && loadable(call.params@[0], places)
        && loadable(call.params@[1], places)
}

/// The code of `call`.
pub open spec fn call_text(call: Call, places: Map<Seq<char>, AssignView>) -> Seq<char> {
    if call.name@ == "load_u32"@ {
        load_u32_text(call.to, call.params@[0], places)
    } else {
        store_u32_text(call.params@[0], call.params@[1], places)
    }
}

/// Emit assembly code for a call of a built-in function.
pub fn emit_code(call: &Call, ctx: &FunctionCompileContext) -> (res: String)
    requires
        ctx.local_assign.wf(),
        call_emittable(*call, ctx.places()),
    ensures
        res@ == call_text(*call, ctx.places()),
{
    proof {
        reveal_strlit("load_u32");
        reveal_strlit("store_u32");
    }
    assert("load_u32"@.len() == 8 && "store_u32"@.len() == 9);
    let load = "load_u32".to_owned();
    if call.name == load {
        assert(call.name@ != "store_u32"@);
        load_u32(&call.to, &call.params[0], ctx)
    } else {
        assert(call.name@ != "load_u32"@);
        store_u32(&call.params[0], &call.params[1], ctx)
    }
}

fn store_u32(to_address: &Quantity, value: &Quantity, ctx: &FunctionCompileContext) -> (res: String)
    requires
        ctx.local_assign.wf(),
        loadable(*to_address, ctx.places()),
        loadable(*value, ctx.places()),
    ensures
        res@ == store_u32_text(*to_address, *value, ctx.places()),
{
    let mut result = String::new();
    push_load_quantity(&mut result, "a1", value, ctx);
    push_load_quantity(&mut result, "a0", to_address, ctx);
    push_line_start(&mut result, "sw a1, 0(a0)");
    push_text(&mut result, "\n");
    assert(result@ =~= store_u32_text(*to_address, *value, ctx.places()));
    result
}

fn load_u32(to: &Option<RegisterName>, from_address: &Quantity, ctx: &FunctionCompileContext) -> (res: String)
    requires
        ctx.local_assign.wf(),
        loadable(*from_address, ctx.places()),
        storable(*to, ctx.places()),
    ensures
        res@ == load_u32_text(*to, *from_address, ctx.places()),
{
    let mut result = String::new();
    push_load_quantity(&mut result, "a0", from_address, ctx);
    push_line_start(&mut result, "lw a0, 0(a0)");
    push_text(&mut result, "\n");
    let ghost head = result@;
    if let Some(to_register) = to {
        let register_assign = place_of(ctx, to_register);
        match register_assign {
            RegisterAssign::Register(register) => {
                push_line_start(&mut result, "mv ");
                push_text(&mut result, register.as_str());
                push_text(&mut result, ", a0");
            },
            RegisterAssign::StackRef(offset) => {
                push_line_start(&mut result, "sw a0, ");
                push_stack_slot(&mut result, *offset);
            },
            RegisterAssign::StackValue(offset) => {
                push_line_start(&mut result, "sw a0, ");
                push_stack_slot(&mut result, *offset);
            },
            RegisterAssign::MultipleRegisters(_) => {
                assert(false);
            },
        }
        push_text(&mut result, "\n");
    }
    assert(result@ =~= load_u32_text(*to, *from_address, ctx.places()));
    result
}

} // verus!
