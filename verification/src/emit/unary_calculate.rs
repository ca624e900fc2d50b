//! Assembly code for unary calculations.
use vstd::prelude::*;

use crate::emit::{code_line, place_of, place_of_local, push_line_start, push_stack_slot, stack_slot, FunctionCompileContext};
use crate::ir::{Quantity, UnaryCalculate, UnaryOperation};
use crate::number_text::{push_signed_decimal, push_text, signed_decimal};
use crate::register_assign::{AssignView, RegisterAssign};

verus! {

/// Whether the calculation can be emitted: its operand is a number or a local variable kept in
/// one hardware register or spilled to the stack, and its target a register kept in one
/// hardware register or spilled to the stack.
pub open spec fn unary_emittable(st: UnaryCalculate, places: Map<Seq<char>, AssignView>) -> bool {
    &&& match st.operand {
        Quantity::LocalVariableName(l) => places.contains_key(l@) && (places[l@] is Register || places[l@] is StackValue),
        Quantity::NumberLiteral(_) => true,
        _ => false,
    }
    &&& places.contains_key(st.to.0@)
    &&& (places[st.to.0@] is Register || places[st.to.0@] is StackValue)
}

/// The code that makes the operand available and the hardware register it is then in: its own,
/// or `t0` loaded from the stack or with the number.
pub open spec fn unary_operand_code(q: Quantity, places: Map<Seq<char>, AssignView>) -> (Seq<char>, Seq<char>) {
    match q {
        Quantity::LocalVariableName(l) => match places[l@] {
            AssignView::Register(r) => (Seq::empty(), r),
            AssignView::StackValue(o) => (code_line("lw t0, "@ + stack_slot(o)), "t0"@),
            _ => (Seq::empty(), Seq::empty()),
        },
        Quantity::NumberLiteral(n) => (code_line("li t0, "@ + signed_decimal(n as int)), "t0"@),
        _ => (Seq::empty(), Seq::empty()),
    }
}

/// The mnemonic of an operation, followed by a space.
pub open spec fn unary_mnemonic(op: UnaryOperation) -> Seq<char> {
    match op {
        UnaryOperation::Neg => "neg "@,
        UnaryOperation::Not => "not "@,
    }
}

/// The code of a calculation: the operand made available, the operation into the target's
/// hardware register or `t0`, and the result stored where the target is spilled to the stack.
pub open spec fn unary_text(st: UnaryCalculate, places: Map<Seq<char>, AssignView>) -> Seq<char> {
    let operand = unary_operand_code(st.operand, places);
    let target = places[st.to.0@];
    let to = match target {
        AssignView::Register(r) => r,
        _ => "t0"@,
    };
    operand.0 + code_line(unary_mnemonic(st.operation) + to + ", "@ + operand.1) + match target {
        AssignView::StackValue(o) => code_line("sw "@ + to + ", "@ + stack_slot(o)),
        _ => Seq::empty(),
    }
}

/// Appends the code that makes the operand available, and gives the register it is then in.
fn push_unary_operand(out: &mut String, q: &Quantity, ctx: &FunctionCompileContext) -> (res: String)
    requires
        ctx.local_assign.wf(),
        match *q {
            Quantity::LocalVariableName(l) => ctx.places().contains_key(l@)
                && (ctx.places()[l@] is Register || ctx.places()[l@] is StackValue),
            Quantity::NumberLiteral(_) => true,
            _ => false,
        },
    ensures
        final(out)@ == old(out)@ + unary_operand_code(*q, ctx.places()).0,
        res@ == unary_operand_code(*q, ctx.places()).1,
{
    match q {
        Quantity::LocalVariableName(local) => match place_of_local(ctx, local) {
            RegisterAssign::Register(r) => {
                assert(out@ =~= old(out)@ + Seq::<char>::empty());
                r.clone()
            },
            RegisterAssign::StackValue(o) => {
                push_line_start(out, "lw t0, ");
                push_stack_slot(out, *o);
                push_text(out, "\n");
                assert(out@ =~= old(out)@ + unary_operand_code(*q, ctx.places()).0);
                "t0".to_string()
            },
            _ => {
                assert(false);
                String::new()
            },
        },
        Quantity::NumberLiteral(n) => {
            push_line_start(out, "li t0, ");
            push_signed_decimal(out, *n);
            push_text(out, "\n");
            assert(out@ =~= old(out)@ + unary_operand_code(*q, ctx.places()).0);
            "t0".to_string()
        },
        _ => {
            assert(false);
            String::new()
        },
    }
}

/// `code` leaves the value of `q` in the hardware register `r`: no code where `q` is a local kept
/// in `r`, a load from its stack slot into `r`, or a load of the number into `r`.
pub open spec fn unary_brings(code: Seq<char>, q: Quantity, r: Seq<char>, places: Map<Seq<char>, AssignView>) -> bool {
    match q {
        Quantity::LocalVariableName(l) => match places[l@] {
            AssignView::Register(p) => code.len() == 0 && r == p,
            AssignView::StackValue(o) => code == code_line("lw "@ + r + ", "@ + stack_slot(o)),
            _ => false,
        },
        Quantity::NumberLiteral(n) => code == code_line("li "@ + r + ", "@ + signed_decimal(n as int)),
        _ => false,
    }
}

/// The value the RISC-V instruction `m` computes from the register value `x`: `neg` gives `-x`,
/// `not` the bitwise complement `-x - 1`, `mv` `x` itself; `None` for any other text.
pub open spec fn riscv_unary_value(m: Seq<char>, x: int) -> Option<int> {
    if m == "neg"@ {
        Some(-x)
    } else if m == "not"@ {
        Some(-x - 1)
    } else if m == "mv"@ {
        Some(x)
    } else {
        None
    }
}

/// The value a unary calculation gives on `x`: its negation, or its bitwise complement.
pub open spec fn unary_value(op: UnaryOperation, x: int) -> int {
    match op {
        UnaryOperation::Neg => -x,
        UnaryOperation::Not => -x - 1,
    }
}

/// The code of a unary calculation brings the operand into a register, then one instruction
/// computes the operation of it into the target's register, which is stored to the target's
/// stack slot where it is spilled.
pub proof fn lemma_unary_computes(st: UnaryCalculate, places: Map<Seq<char>, AssignView>)
    requires
        unary_emittable(st, places),
    ensures
        exists|l: Seq<char>, r: Seq<char>, m: Seq<char>, d: Seq<char>|
            #![trigger unary_brings(l, st.operand, r, places), code_line(m + " "@ + d + ", "@ + r)]
            {
                &&& unary_text(st, places) == l + code_line(m + " "@ + d + ", "@ + r) + match places[st.to.0@] {
                    AssignView::StackValue(o) => code_line("sw "@ + d + ", "@ + stack_slot(o)),
                    _ => Seq::empty(),
                }
                &&& unary_brings(l, st.operand, r, places)
                &&& places[st.to.0@] matches AssignView::Register(t) ==> d == t
                &&& forall|x: int| riscv_unary_value(m, x) == Some(unary_value(st.operation, x))
            },
{
    reveal_strlit("neg");
    reveal_strlit("not");
    reveal_strlit("neg ");
    reveal_strlit("not ");
    reveal_strlit(" ");
    reveal_strlit("    ");
    assert("not"@[1] != "neg"@[1]);
    let operand = unary_operand_code(st.operand, places);
    let d = match places[st.to.0@] {
        AssignView::Register(r) => r,
        _ => "t0"@,
    };
    let m = match st.operation {
        UnaryOperation::Neg => "neg"@,
        UnaryOperation::Not => "not"@,
    };
    assert(unary_mnemonic(st.operation) + d + ", "@ + operand.1 =~= m + " "@ + d + ", "@ + operand.1);
    reveal_strlit("lw t0, ");
    reveal_strlit("li t0, ");
    reveal_strlit("lw ");
    reveal_strlit("li ");
    reveal_strlit("t0");
    reveal_strlit(", ");
    match st.operand {
        Quantity::LocalVariableName(l) => match places[l@] {
            AssignView::StackValue(o) => {
                assert(operand.0 =~= code_line("lw "@ + "t0"@ + ", "@ + stack_slot(o)));
            },
            _ => {},
        },
        Quantity::NumberLiteral(n) => {
            assert(operand.0 =~= code_line("li "@ + "t0"@ + ", "@ + signed_decimal(n as int)));
        },
        _ => {},
    }
    assert(unary_brings(operand.0, st.operand, operand.1, places));
    assert(forall|x: int| riscv_unary_value(m, x) == Some(unary_value(st.operation, x)));
    let store = match places[st.to.0@] {
        AssignView::StackValue(o) => code_line("sw "@ + d + ", "@ + stack_slot(o)),
        _ => Seq::empty(),
    };
    assert(unary_text(st, places) == operand.0 + code_line(m + " "@ + d + ", "@ + operand.1) + store);
}

/// Emit assembly code for a [`UnaryCalculate`].
#[verifier::rlimit(50)]
pub fn emit_code(statement: &UnaryCalculate, ctx: &FunctionCompileContext) -> (res: String)
    requires
        ctx.local_assign.wf(),
        unary_emittable(*statement, ctx.places()),
    ensures
        res@ == unary_text(*statement, ctx.places()),
{
    let mut result = String::new();
    let operand_register = push_unary_operand(&mut result, &statement.operand, ctx);
    let ghost operand = unary_operand_code(statement.operand, ctx.places());
    let to_register_assign = place_of(ctx, &statement.to);
    let to_register = match to_register_assign {
        RegisterAssign::Register(r) => r.clone(),
        _ => "t0".to_string(),
    };
    let ghost to_text = match to_register_assign@ {
        AssignView::Register(r) => r,
        _ => "t0"@,
    };
    assert(to_register@ == to_text);
    let ghost before_op = result@;
    match statement.operation {
        UnaryOperation::Neg => push_text(&mut result, "    neg "),
        UnaryOperation::Not => push_text(&mut result, "    not "),
    }
    push_text(&mut result, to_register.as_str());
    push_text(&mut result, ", ");
    push_text(&mut result, operand_register.as_str());
    push_text(&mut result, "\n");
    let ghost after_op = result@;
    proof {
        let m = unary_mnemonic(statement.operation);
        assert(after_op =~= before_op + code_line(m + to_text + ", "@ + operand.1)) by {
            reveal_strlit("    neg ");
            reveal_strlit("    not ");
            reveal_strlit("neg ");
            reveal_strlit("not ");
            reveal_strlit("    ");
        }
    }
    if let RegisterAssign::StackValue(o) = to_register_assign {
        push_line_start(&mut result, "sw ");
        push_text(&mut result, to_register.as_str());
        push_text(&mut result, ", ");
        push_stack_slot(&mut result, *o);
        push_text(&mut result, "\n");
    }
    assert(result@ =~= unary_text(*statement, ctx.places()));
    result
}

} // verus!
