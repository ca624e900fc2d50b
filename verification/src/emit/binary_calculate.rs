//! Assembly code for binary calculations.
use vstd::prelude::*;

use crate::emit::{code_line, place_of, push_line_start, push_stack_slot, stack_slot, FunctionCompileContext};
use crate::ir::{BinaryCalculate, BinaryOperation, Quantity};
use crate::number_text::{push_signed_decimal, push_text, signed_decimal};
use crate::register_assign::{AssignView, RegisterAssign};

verus! {

/// Whether an operand is a number, or a register kept in one hardware register or spilled to
/// the stack.
pub open spec fn operand_ok(q: Quantity, places: Map<Seq<char>, AssignView>) -> bool {
    match q {
        Quantity::RegisterName(l) => places.contains_key(l.0@)
            && (places[l.0@] is Register || places[l.0@] is StackValue),
        Quantity::NumberLiteral(_) => true,
        _ => false,
    }
}

/// The code that makes an operand available and the hardware register it is then in: a
/// register's own hardware register, or `scratch` loaded from the stack or with the number.
pub open spec fn operand_code(q: Quantity, scratch: Seq<char>, places: Map<Seq<char>, AssignView>) -> (Seq<char>, Seq<char>) {
    match q {
        Quantity::RegisterName(l) => match places[l.0@] {
            AssignView::Register(p) => (Seq::empty(), p),
            AssignView::StackValue(o) => (code_line("lw "@ + scratch + ", "@ + stack_slot(o)), scratch),
            _ => (Seq::empty(), Seq::empty()),
        },
        Quantity::NumberLiteral(v) => (code_line("li "@ + scratch + ", "@ + signed_decimal(v as int)), scratch),
        _ => (Seq::empty(), Seq::empty()),
    }
}

/// The hardware register a result is computed into: the target's own, or `t0` for a target
/// spilled to the stack.
pub open spec fn result_register(p: AssignView) -> Seq<char> {
    match p {
        AssignView::Register(r) => r,
        _ => "t0"@,
    }
}

/// The instructions of an operation: `add`, `slt`, or `sub` then `seqz` for equality.
pub open spec fn operation_code(op: BinaryOperation, to: Seq<char>, a: Seq<char>, b: Seq<char>) -> Seq<char> {
    match op {
        BinaryOperation::Add => code_line("add "@ + to + ", "@ + a + ", "@ + b),
        BinaryOperation::LessThan => code_line("slt "@ + to + ", "@ + a + ", "@ + b),
        BinaryOperation::Equal => code_line("sub "@ + to + ", "@ + a + ", "@ + b) + code_line("seqz "@ + to + ", "@ + to),
        _ => Seq::empty(),
    }
}

/// Whether the calculation can be emitted: an addition, a comparison by `<` or an equality,
/// on operands that can be made available, into a register kept in one hardware register or
/// spilled to the stack.
pub open spec fn binary_emittable(st: BinaryCalculate, places: Map<Seq<char>, AssignView>) -> bool {
    &&& operand_ok(st.operand1, places)
    &&& operand_ok(st.operand2, places)
    &&& places.contains_key(st.to.0@)
    &&& (places[st.to.0@] is Register || places[st.to.0@] is StackValue)
    &&& (st.operation is Add || st.operation is LessThan || st.operation is Equal)
}

/// The code of a calculation: the operands made available in `t0` and `t1` where needed, the
/// operation, and the result stored where the target is spilled to the stack.
pub open spec fn binary_text(st: BinaryCalculate, places: Map<Seq<char>, AssignView>) -> Seq<char> {
    let first = operand_code(st.operand1, "t0"@, places);
    let second = operand_code(st.operand2, "t1"@, places);
    let target = places[st.to.0@];
    let to = result_register(target);
    first.0 + second.0 + operation_code(st.operation, to, first.1, second.1) + match target {
        AssignView::StackValue(o) => code_line("sw "@ + to + ", "@ + stack_slot(o)),
        _ => Seq::empty(),
    }
}

/// Whether no register is kept in the scratch registers `t0` and `t1`, which the register
/// allocator leaves free: it hands out temporaries from `t2` on.
pub open spec fn scratch_free(places: Map<Seq<char>, AssignView>) -> bool {
    forall|l: Seq<char>| places.contains_key(l) ==> places[l] != AssignView::Register("t0"@)
        && places[l] != AssignView::Register("t1"@)
}

/// `code` leaves the value of `q` in the hardware register `r`: no code where `q` is kept in
/// `r`, a load from `q`'s stack slot into `r`, or a load of the number into `r`.
pub open spec fn brings_into(code: Seq<char>, q: Quantity, r: Seq<char>, places: Map<Seq<char>, AssignView>) -> bool {
    match q {
        Quantity::RegisterName(l) => match places[l.0@] {
            AssignView::Register(p) => code.len() == 0 && r == p,
            AssignView::StackValue(o) => code == code_line("lw "@ + r + ", "@ + stack_slot(o)),
            _ => false,
        },
        Quantity::NumberLiteral(v) => code == code_line("li "@ + r + ", "@ + signed_decimal(v as int)),
        _ => false,
    }
}

/// The value the RISC-V instruction `m` computes from register values `x` and `y`: `add`,
/// `sub`, `slt` (1 where `x < y`, else 0) and `sltu`, `and`, `or`, `xor` are known; `None` for
/// any other text.
pub open spec fn riscv_value(m: Seq<char>, x: int, y: int) -> Option<int> {
    if m == "add"@ {
        Some(x + y)
    } else if m == "sub"@ {
        Some(x - y)
    } else if m == "slt"@ {
        Some(if x < y { 1int } else { 0int })
    } else {
        None
    }
}

/// The value left in the result register by the instruction `m` on `x` and `y`, followed by
/// `post`: nothing more, or `seqz` of the result into itself (1 where it is 0, else 0).
pub open spec fn riscv_result(m: Seq<char>, post: Seq<char>, d: Seq<char>, x: int, y: int) -> Option<int> {
    if post.len() == 0 {
        riscv_value(m, x, y)
    } else if post == code_line("seqz "@ + d + ", "@ + d) {
        match riscv_value(m, x, y) {
            Some(v) => Some(if v == 0 { 1int } else { 0int }),
            None => None,
        }
    } else {
        None
    }
}

/// The value a binary calculation gives on operands `x` and `y`: their sum, or 1 where the
/// comparison holds and 0 where it does not.
pub open spec fn calculated(op: BinaryOperation, x: int, y: int) -> int {
    match op {
        BinaryOperation::Add => x + y,
        BinaryOperation::LessThan => if x < y { 1 } else { 0 },
        BinaryOperation::Equal => if x == y { 1 } else { 0 },
        _ => 0,
    }
}

/// The code of a binary calculation brings the first operand into one register and then the
/// second into another, without overwriting the first; then one instruction, possibly followed
/// by `seqz`, computes the operation on the first and the second, in that order, into the
/// target's register, which is stored to the target's stack slot where it is spilled.
pub proof fn lemma_binary_operands_in_order(st: BinaryCalculate, places: Map<Seq<char>, AssignView>)
    requires
        binary_emittable(st, places),
        scratch_free(places),
    ensures
        exists|l1: Seq<char>, r1: Seq<char>, l2: Seq<char>, r2: Seq<char>, m: Seq<char>, d: Seq<char>, post: Seq<char>|
            #![trigger brings_into(l1, st.operand1, r1, places), brings_into(l2, st.operand2, r2, places), riscv_result(m, post, d, 0, 0)]
            {
                &&& binary_text(st, places) == l1 + l2 + code_line(m + " "@ + d + ", "@ + r1 + ", "@ + r2) + post + match places[st.to.0@] {
                    AssignView::StackValue(o) => code_line("sw "@ + d + ", "@ + stack_slot(o)),
                    _ => Seq::empty(),
                }
                &&& brings_into(l1, st.operand1, r1, places)
                &&& brings_into(l2, st.operand2, r2, places)
                &&& l2.len() > 0 ==> r2 != r1
                &&& l1.len() > 0 ==> r1 != r2
                &&& places[st.to.0@] matches AssignView::Register(t) ==> d == t
                &&& forall|x: int, y: int| riscv_result(m, post, d, x, y) == Some(calculated(st.operation, x, y))
            },
{
    reveal_strlit("t0");
    reveal_strlit("t1");
    reveal_strlit("add");
    reveal_strlit("sub");
    reveal_strlit("slt");
    assert("t0"@[1] != "t1"@[1]);
    assert("sub"@[0] != "add"@[0]);
    assert("slt"@[0] != "add"@[0]);
    assert("slt"@[1] != "sub"@[1]);
    let first = operand_code(st.operand1, "t0"@, places);
    let second = operand_code(st.operand2, "t1"@, places);
    let d = result_register(places[st.to.0@]);
    let (m, post) = match st.operation {
        BinaryOperation::Add => ("add"@, Seq::<char>::empty()),
        BinaryOperation::LessThan => ("slt"@, Seq::<char>::empty()),
        _ => ("sub"@, code_line("seqz "@ + d + ", "@ + d)),
    };
    reveal_strlit("add ");
    reveal_strlit("sub ");
    reveal_strlit("slt ");
    reveal_strlit(" ");
    assert(code_line("add "@ + d + ", "@ + first.1 + ", "@ + second.1) =~= code_line("add"@ + " "@ + d + ", "@ + first.1 + ", "@ + second.1));
    assert(code_line("slt "@ + d + ", "@ + first.1 + ", "@ + second.1) =~= code_line("slt"@ + " "@ + d + ", "@ + first.1 + ", "@ + second.1));
    assert(code_line("sub "@ + d + ", "@ + first.1 + ", "@ + second.1) =~= code_line("sub"@ + " "@ + d + ", "@ + first.1 + ", "@ + second.1));
    assert(operation_code(st.operation, d, first.1, second.1) =~= code_line(m + " "@ + d + ", "@ + first.1 + ", "@ + second.1) + post);
    assert(brings_into(first.0, st.operand1, first.1, places));
    assert(brings_into(second.0, st.operand2, second.1, places));
    if second.0.len() > 0 {
        assert(second.1 == "t1"@);
        match st.operand1 {
            Quantity::RegisterName(l) => {
                assert(places.contains_key(l.0@));
                assert(places[l.0@] != AssignView::Register("t1"@));
                match places[l.0@] {
                    AssignView::Register(p) => {
                        assert(first.1 == p);
                        assert(p != "t1"@);
                    },
                    _ => {
                        assert(first.1 == "t0"@);
                    },
                }
            },
            _ => {
                assert(first.1 == "t0"@);
            },
        }
        assert(first.1 != "t1"@);
    }
    if first.0.len() > 0 {
        assert(first.1 == "t0"@);
        match st.operand2 {
            Quantity::RegisterName(l) => {
                assert(places.contains_key(l.0@));
                assert(places[l.0@] != AssignView::Register("t0"@));
                match places[l.0@] {
                    AssignView::Register(p) => {
                        assert(second.1 == p);
                    },
                    _ => {
                        assert(second.1 == "t1"@);
                    },
                }
            },
            _ => {
                assert(second.1 == "t1"@);
            },
        }
        assert(second.1 != "t0"@);
    }
    assert forall|x: int, y: int| riscv_result(m, post, d, x, y) == Some(calculated(st.operation, x, y)) by {
        match st.operation {
            BinaryOperation::Add => {
                assert(riscv_value(m, x, y) == Some(x + y));
            },
            BinaryOperation::LessThan => {
                assert(riscv_value(m, x, y) == Some(if x < y { 1int } else { 0int }));
            },
            _ => {
                assert(st.operation is Equal);
                reveal_strlit("    ");
                assert(code_line("seqz "@ + d + ", "@ + d).len() > 0);
                assert(riscv_value(m, x, y) == Some(x - y));
                assert(riscv_result(m, post, d, x, y) == Some(if x - y == 0 { 1int } else { 0int }));
            },
        }
    }
    assert(riscv_result(m, post, d, 0, 0) == Some(calculated(st.operation, 0, 0)));
}

/// Appends the code that makes an operand available, and gives the register it is then in.
fn push_operand(out: &mut String, q: &Quantity, scratch: &str, ctx: &FunctionCompileContext) -> (res: String)
    requires
        ctx.local_assign.wf(),
        operand_ok(*q, ctx.places()),
    ensures
        final(out)@ == old(out)@ + operand_code(*q, scratch@, ctx.places()).0,
        res@ == operand_code(*q, scratch@, ctx.places()).1,
{
    match q {
        Quantity::RegisterName(local) => {
            let assign = place_of(ctx, local);
            match assign {
                RegisterAssign::Register(physical_register) => {
                    assert(out@ =~= old(out)@ + Seq::<char>::empty());
                    physical_register.clone()
                },
                RegisterAssign::StackValue(offset) => {
                    push_line_start(out, "lw ");
                    push_text(out, scratch);
                    push_text(out, ", ");
                    push_stack_slot(out, *offset);
                    push_text(out, "\n");
                    assert(out@ =~= old(out)@ + operand_code(*q, scratch@, ctx.places()).0);
                    scratch.to_owned()
                },
                _ => {
                    assert(false);
                    String::new()
                },
            }
        },
        Quantity::NumberLiteral(literal) => {
            push_line_start(out, "li ");
            push_text(out, scratch);
            push_text(out, ", ");
            push_signed_decimal(out, *literal);
            push_text(out, "\n");
            assert(out@ =~= old(out)@ + operand_code(*q, scratch@, ctx.places()).0);
            scratch.to_owned()
        },
        _ => {
            assert(false);
            String::new()
        },
    }
}

/// Appends `    op to, a, b` and a line end.
fn push_three(out: &mut String, op: &str, to: &String, a: &String, b: &String)
    ensures
        final(out)@ == old(out)@ + code_line(op@ + to@ + ", "@ + a@ + ", "@ + b@),
{
    push_line_start(out, op);
    push_text(out, to.as_str());
    push_text(out, ", ");
    push_text(out, a.as_str());
    push_text(out, ", ");
    push_text(out, b.as_str());
    push_text(out, "\n");
    assert(out@ =~= old(out)@ + code_line(op@ + to@ + ", "@ + a@ + ", "@ + b@));
}

/// Appends the instructions of an operation.
fn push_operation(out: &mut String, op: BinaryOperation, to: &String, a: &String, b: &String)
    requires
        op is Add || op is LessThan || op is Equal,
    ensures
        final(out)@ == old(out)@ + operation_code(op, to@, a@, b@),
{
    match op {
        BinaryOperation::Add => push_three(out, "add ", to, a, b),
        BinaryOperation::LessThan => push_three(out, "slt ", to, a, b),
        BinaryOperation::Equal => {
            push_three(out, "sub ", to, a, b);
            let ghost mid = out@;
            push_line_start(out, "seqz ");
            push_text(out, to.as_str());
            push_text(out, ", ");
            push_text(out, to.as_str());
            push_text(out, "\n");
            assert(out@ =~= mid + code_line("seqz "@ + to@ + ", "@ + to@));
        },
        _ => {
            assert(false);
        },
    }
    assert(out@ =~= old(out)@ + operation_code(op, to@, a@, b@));
}

/// Emit assembly code for a [`BinaryCalculate`].
pub fn emit_code(statement: &BinaryCalculate, ctx: &FunctionCompileContext) -> (res: String)
    requires
        ctx.local_assign.wf(),
        binary_emittable(*statement, ctx.places()),
    ensures
        res@ == binary_text(*statement, ctx.places()),
{
    let mut result = String::new();
    let operand1_register = push_operand(&mut result, &statement.operand1, "t0", ctx);
    let operand2_register = push_operand(&mut result, &statement.operand2, "t1", ctx);
    let ghost operands = result@;
    let to_register_assign = place_of(ctx, &statement.to);
    let to_register = match to_register_assign {
        RegisterAssign::Register(register) => register.clone(),
        _ => "t0".to_owned(),
    };
    assert(to_register@ == result_register(to_register_assign@));
    push_operation(&mut result, statement.operation, &to_register, &operand1_register, &operand2_register);
    let ghost operated = result@;
    if let RegisterAssign::StackValue(stack_offset) = to_register_assign {
        push_line_start(&mut result, "sw ");
        push_text(&mut result, to_register.as_str());
        push_text(&mut result, ", ");
        push_stack_slot(&mut result, *stack_offset);
        push_text(&mut result, "\n");
        assert(result@ =~= operated + code_line("sw "@ + to_register@ + ", "@ + stack_slot(*stack_offset)));
    }
    assert(result@ =~= binary_text(*statement, ctx.places()));
    result
}

} // verus!
