//! Assembly code for whole basic blocks and whole functions.
use vstd::prelude::*;

use crate::emit::FunctionCompileContext;
use crate::emit::basic_block::{append_phi_insert, phi_insert_text};
use crate::emit::binary_calculate::{binary_emittable, binary_text};
use crate::emit::call::{call_emittable, call_text};
use crate::emit::load::{load_emittable, load_text};
use crate::emit::load_field::{load_field_emittable, load_field_text};
use crate::emit::ret::label_text;
use crate::emit::set_field::{set_field_emittable, set_field_text};
use crate::emit::store::{store_emittable, store_text};
use crate::emit::terminator::{terminator_emittable, terminator_text};
use crate::emit::unary_calculate::{unary_emittable, unary_text};
use crate::ir::{BasicBlock, BinaryCalculate, Call, Load, LoadField, SetField, Store, Terminator, UnaryCalculate};
use crate::name_map::NameMap;
use crate::number_text::{push_decimal_u64, push_text};
use crate::register_allocation::assign_views;
use crate::register_assign::{AssignView, RegisterAssign};
use crate::text::decimal;

verus! {

/// A statement of a function as its code is emitted.
pub enum Statement {
    /// Reserves stack space; it emits no code.
    Alloca,
    UnaryCalculate(UnaryCalculate),
    BinaryCalculate(BinaryCalculate),
    Load(Load),
    Store(Store),
    LoadField(LoadField),
    SetField(SetField),
    Call(Call),
    Terminator(Terminator),
}

/// A basic block as its code is emitted: its label, if any, and its statements, the last one
/// ending it.
pub struct CodeBlock {
    pub name: Option<String>,
    pub content: Vec<Statement>,
}

/// A function as its code is emitted: its name and its basic blocks in order.
pub struct CodeFunction {
    pub name: String,
    pub content: Vec<CodeBlock>,
}

/// Whether the statement can be emitted with registers kept at `places`.
pub open spec fn statement_emittable(s: Statement, places: Map<Seq<char>, AssignView>) -> bool {
    match s {
        Statement::Alloca => true,
        Statement::UnaryCalculate(x) => unary_emittable(x, places),
        Statement::BinaryCalculate(x) => binary_emittable(x, places),
        Statement::Load(x) => load_emittable(x, places),
        Statement::Store(x) => store_emittable(x, places),
        Statement::LoadField(x) => load_field_emittable(x, places),
        Statement::SetField(x) => set_field_emittable(x, places),
        Statement::Call(x) => call_emittable(x, places),
        Statement::Terminator(x) => terminator_emittable(x, places),
    }
}

/// The code of a statement, a return jumping to `cleanup` where there is one.
pub open spec fn statement_text(s: Statement, places: Map<Seq<char>, AssignView>, cleanup: Option<Seq<char>>) -> Seq<char> {
    match s {
        Statement::Alloca => Seq::empty(),
        Statement::UnaryCalculate(x) => unary_text(x, places),
        Statement::BinaryCalculate(x) => binary_text(x, places),
        Statement::Load(x) => load_text(x, places),
        Statement::Store(x) => store_text(x, places),
        Statement::LoadField(x) => load_field_text(x, places),
        Statement::SetField(x) => set_field_text(x, places),
        Statement::Call(x) => call_text(x, places),
        Statement::Terminator(x) => terminator_text(x, places, cleanup),
    }
}

/// The code of the statements one after the other.
pub open spec fn statements_text(ss: Seq<Statement>, places: Map<Seq<char>, AssignView>, cleanup: Option<Seq<char>>)
    -> Seq<char>
    decreases ss.len(),
{
    if ss.len() == 0 {
        Seq::empty()
    } else {
        statements_text(ss.drop_last(), places, cleanup) + statement_text(ss.last(), places, cleanup)
    }
}

/// The constants that phi nodes take from the block named `name` can be loaded: none goes to a
/// place made of several registers.
pub open spec fn phis_ready(phis: Map<Seq<char>, Vec<(RegisterAssign, i64)>>, name: Seq<char>) -> bool {
    phis.contains_key(name) ==> forall|k: int| 0 <= k < phis[name]@.len() ==> !((#[trigger] phis[name]@[k]).0@ is MultipleRegisters)
}

/// The code that loads the constants phi nodes take from the block named `name`.
pub open spec fn phis_text(phis: Map<Seq<char>, Vec<(RegisterAssign, i64)>>, name: Seq<char>) -> Seq<char> {
    if phis.contains_key(name) {
        phi_insert_text(phis[name]@)
    } else {
        Seq::empty()
    }
}

/// Whether the block can be emitted: each statement can, and a block with statements has a
/// name whose phi constants can be loaded.
pub open spec fn block_emittable(block: CodeBlock, places: Map<Seq<char>, AssignView>,
    phis: Map<Seq<char>, Vec<(RegisterAssign, i64)>>) -> bool {
    &&& forall|k: int| 0 <= k < block.content@.len() ==> statement_emittable(#[trigger] block.content@[k], places)
    &&& block.content@.len() > 0 ==> (block.name matches Some(n) && phis_ready(phis, n@))
}

/// The label line of a block with a name.
pub open spec fn label_line(name: Option<String>) -> Seq<char> {
    match name {
        Some(n) => n@ + ":\n"@,
        None => Seq::empty(),
    }
}

/// The code of a block: nothing for a block without statements; else its label, its statements
/// but the last, the loads of the constants phi nodes take from it, then its last statement.
pub open spec fn block_text(block: CodeBlock, places: Map<Seq<char>, AssignView>,
    phis: Map<Seq<char>, Vec<(RegisterAssign, i64)>>, cleanup: Option<Seq<char>>) -> Seq<char> {
    let c = block.content@;
    if c.len() == 0 {
        Seq::empty()
    } else {
        label_line(block.name) + statements_text(c.drop_last(), places, cleanup) + phis_text(phis, block.name->0@)
            + statement_text(c.last(), places, cleanup)
    }
}

/// Emit assembly code for a statement.
pub fn emit_statement(statement: &Statement, ctx: &FunctionCompileContext) -> (res: String)
    requires
        ctx.local_assign.wf(),
        statement_emittable(*statement, ctx.places()),
    ensures
        res@ == statement_text(*statement, ctx.places(), label_text(ctx.cleanup_label)),
{
    match statement {
        Statement::Alloca => String::new(),
        Statement::UnaryCalculate(x) => crate::emit::unary_calculate::emit_code(x, ctx),
        Statement::BinaryCalculate(x) => crate::emit::binary_calculate::emit_code(x, ctx),
        Statement::Load(x) => crate::emit::load::emit_code(x, ctx),
        Statement::Store(x) => crate::emit::store::emit_code(x, ctx),
        Statement::LoadField(x) => crate::emit::load_field::emit_code(x, ctx),
        Statement::SetField(x) => crate::emit::set_field::emit_code(x, ctx),
        Statement::Call(x) => crate::emit::call::emit_code(x, ctx),
        Statement::Terminator(x) => crate::emit::terminator::emit_code(x, ctx),
    }
}

/// Emit assembly code for a basic block: nothing for a block without statements; else its
/// label, its statements but the last, the loads of the constants phi nodes take from it, then
/// the statement that ends it.
pub fn emit_block(block: &CodeBlock, ctx: &FunctionCompileContext) -> (res: String)
    requires
        ctx.local_assign.wf(),
        ctx.phi_constant_assign.wf(),
        block_emittable(*block, ctx.places(), ctx.phi_constant_assign@),
    ensures
        res@ == block_text(*block, ctx.places(), ctx.phi_constant_assign@, label_text(ctx.cleanup_label)),
{
    let ghost places = ctx.places();
    let ghost cleanup = label_text(ctx.cleanup_label);
    let n = block.content.len();
    if n == 0 {
        return String::new();
    }
    let mut result = String::new();
    let name = match &block.name {
        Some(name) => name,
        None => {
            assert(false);
            return result;
        },
    };
    push_text(&mut result, name.as_str());
    push_text(&mut result, ":\n");
    let ghost head = result@;
    let mut i: usize = 0;
    while i + 1 < n
        invariant
            n == block.content@.len(),
            n > 0,
            i + 1 <= n,
            ctx.local_assign.wf(),
            block_emittable(*block, places, ctx.phi_constant_assign@),
            places == ctx.places(),
            cleanup == label_text(ctx.cleanup_label),
            result@ == head + statements_text(block.content@.take(i as int), places, cleanup),
        decreases n - i,
    {
        let code = emit_statement(&block.content[i], ctx);
        push_text(&mut result, code.as_str());
        proof {
            let pre = block.content@.take(i + 1);
            assert(pre.drop_last() =~= block.content@.take(i as int));
            assert(pre.last() == block.content@[i as int]);
            assert(head + statements_text(block.content@.take(i as int), places, cleanup) + code@
                =~= head + statements_text(pre, places, cleanup));
        }
        i = i + 1;
    }
    assert(block.content@.take(i as int) =~= block.content@.drop_last());
    let phi_block = BasicBlock { name: Some(name.clone()), content: Vec::new() };
    let phi_code = append_phi_insert(ctx, &phi_block);
    push_text(&mut result, phi_code.as_str());
    let last = emit_statement(&block.content[n - 1], ctx);
    push_text(&mut result, last.as_str());
    assert(block.content@.last() == block.content@[n - 1]);
    result
}

/// The code of the blocks one after the other.
pub open spec fn blocks_text(blocks: Seq<CodeBlock>, places: Map<Seq<char>, AssignView>,
    phis: Map<Seq<char>, Vec<(RegisterAssign, i64)>>, cleanup: Option<Seq<char>>) -> Seq<char>
    decreases blocks.len(),
{
    if blocks.len() == 0 {
        Seq::empty()
    } else {
        blocks_text(blocks.drop_last(), places, phis, cleanup) + block_text(blocks.last(), places, phis, cleanup)
    }
}

/// The label a function with a stack frame jumps to on return, to pop the frame: its name
/// followed by `_end`; none without a stack frame.
pub open spec fn cleanup_of(name: Seq<char>, stack_space: usize) -> Option<Seq<char>> {
    if stack_space != 0 {
        Some(name + "_end"@)
    } else {
        None
    }
}

/// The code of a function: its name exported and as a label, the stack frame pushed where it
/// has one, its blocks in order, then, where it has a frame, the cleanup label, the frame
/// popped and `ret`.
pub open spec fn function_text(function: CodeFunction, places: Map<Seq<char>, AssignView>,
    phis: Map<Seq<char>, Vec<(RegisterAssign, i64)>>, stack_space: usize) -> Seq<char> {
    let frame = decimal(stack_space as nat);
    ".global "@ + function.name@ + "\n"@ + function.name@ + ":\n"@
        + (if stack_space != 0 { "    addi sp, sp, -"@ + frame + "\n"@ } else { Seq::empty() })
        + blocks_text(function.content@, places, phis, cleanup_of(function.name@, stack_space))
        + (if stack_space != 0 {
            function.name@ + "_end"@ + ":\n"@ + "    addi sp, sp, "@ + frame + "\n"@ + "    ret\n"@
        } else {
            Seq::empty()
        })
}

/// Emit assembly code for a function, its registers kept as `local_assign` says, the constants
/// phi nodes take from each block in `phi_constant_assign`, with a stack frame of `stack_space`
/// bytes.
pub fn emit_function(function: &CodeFunction, local_assign: NameMap<RegisterAssign>,
    phi_constant_assign: NameMap<Vec<(RegisterAssign, i64)>>, stack_space: usize) -> (res: String)
    requires
        local_assign.wf(),
        phi_constant_assign.wf(),
        forall|k: int| 0 <= k < function.content@.len() ==> block_emittable(#[trigger] function.content@[k],
            assign_views(local_assign@), phi_constant_assign@),
    ensures
        res@ == function_text(*function, assign_views(local_assign@), phi_constant_assign@, stack_space),
{
    let mut result = String::new();
    push_text(&mut result, ".global ");
    push_text(&mut result, function.name.as_str());
    push_text(&mut result, "\n");
    push_text(&mut result, function.name.as_str());
    push_text(&mut result, ":\n");
    let cleanup_label = if stack_space != 0 {
        let mut label = function.name.clone();
        push_text(&mut label, "_end");
        Some(label)
    } else {
        None
    };
    let ctx = FunctionCompileContext { local_assign, cleanup_label, phi_constant_assign };
    let ghost places = ctx.places();
    let ghost phis = ctx.phi_constant_assign@;
    let ghost cleanup = label_text(ctx.cleanup_label);
    assert(cleanup == cleanup_of(function.name@, stack_space));
    if stack_space != 0 {
        push_text(&mut result, "    addi sp, sp, -");
        push_decimal_u64(&mut result, stack_space as u64);
        push_text(&mut result, "\n");
    }
    let ghost head = result@;
    let mut i: usize = 0;
    while i < function.content.len()
        invariant
            i <= function.content@.len(),
            ctx.local_assign.wf(),
            ctx.phi_constant_assign.wf(),
            places == ctx.places(),
            phis == ctx.phi_constant_assign@,
            cleanup == label_text(ctx.cleanup_label),
            forall|k: int| 0 <= k < function.content@.len() ==> block_emittable(#[trigger] function.content@[k], places, phis),
            result@ == head + blocks_text(function.content@.take(i as int), places, phis, cleanup),
        decreases function.content@.len() - i,
    {
        let code = emit_block(&function.content[i], &ctx);
        push_text(&mut result, code.as_str());
        proof {
            let pre = function.content@.take(i + 1);
            assert(pre.drop_last() =~= function.content@.take(i as int));
            assert(pre.last() == function.content@[i as int]);
            assert(head + blocks_text(function.content@.take(i as int), places, phis, cleanup) + code@
                =~= head + blocks_text(pre, places, phis, cleanup));
        }
        i = i + 1;
    }
    assert(function.content@.take(i as int) =~= function.content@);
    if let Some(label) = &ctx.cleanup_label {
        push_text(&mut result, label.as_str());
        push_text(&mut result, ":\n");
        if stack_space != 0 {
            push_text(&mut result, "    addi sp, sp, ");
            push_decimal_u64(&mut result, stack_space as u64);
            push_text(&mut result, "\n");
        }
        push_text(&mut result, "    ret\n");
    }
    result
}

} // verus!
