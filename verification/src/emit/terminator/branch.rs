//! Assembly code for branches.
use vstd::prelude::*;

use crate::emit::{code_line, place_of_local, push_line_start, push_slot_below, slot_below, FunctionCompileContext};
use crate::ir::{Branch, BranchType, Quantity};
use crate::number_text::{push_signed_decimal, push_text, signed_decimal};
use crate::register_assign::{AssignView, RegisterAssign};

verus! {

/// Whether an operand of a branch is a number, or a local variable kept in one hardware
/// register or spilled to the stack.
pub open spec fn branch_operand_ok(q: Quantity, places: Map<Seq<char>, AssignView>) -> bool {
    match q {
        Quantity::LocalVariableName(l) => places.contains_key(l@) && (places[l@] is Register || places[l@] is StackValue),
        Quantity::NumberLiteral(_) => true,
        _ => false,
    }
}

/// Whether the branch can be emitted: both its operands can be made available.
pub open spec fn branch_emittable(b: Branch, places: Map<Seq<char>, AssignView>) -> bool {
    branch_operand_ok(b.operand1, places) && branch_operand_ok(b.operand2, places)
}

/// The code that makes an operand available and the hardware register it is then in: its own,
/// or `scratch` loaded from the stack or with the number.
pub open spec fn branch_operand_code(q: Quantity, scratch: Seq<char>, places: Map<Seq<char>, AssignView>) -> (Seq<char>, Seq<char>) {
    match q {
        Quantity::LocalVariableName(l) => match places[l@] {
            AssignView::Register(r) => (Seq::empty(), r),
            AssignView::StackValue(o) => (code_line("lw "@ + scratch + ", "@ + slot_below(o)), scratch),
            _ => (Seq::empty(), Seq::empty()),
        },
        Quantity::NumberLiteral(n) => (code_line("li "@ + scratch + ", "@ + signed_decimal(n as int)), scratch),
        _ => (Seq::empty(), Seq::empty()),
    }
}

/// The instruction of a comparison.
pub open spec fn branch_command(t: BranchType) -> Seq<char> {
    match t {
        BranchType::EQ => "beq"@,
        BranchType::GE => "bge"@,
        BranchType::LT => "blt"@,
        BranchType::NE => "bne"@,
    }
}

/// The code of a branch: the operands made available in `t0` and `t1` where needed, the
/// comparison that goes to the success label, and a jump to the failure label.
pub open spec fn branch_text(b: Branch, places: Map<Seq<char>, AssignView>) -> Seq<char> {
    let first = branch_operand_code(b.operand1, "t0"@, places);
    let second = branch_operand_code(b.operand2, "t1"@, places);
    first.0 + second.0 + code_line(branch_command(b.branch_type) + " "@ + first.1 + ", "@ + second.1 + ", "@
        + b.success_label@) + code_line("j "@ + b.failure_label@)
}

/// Whether no local variable is kept in the scratch registers `t0` and `t1`, which the register
/// allocator leaves free: it hands out temporaries from `t2` on.
pub open spec fn branch_scratch_free(places: Map<Seq<char>, AssignView>) -> bool {
    forall|l: Seq<char>| places.contains_key(l) ==> places[l] != AssignView::Register("t0"@)
        && places[l] != AssignView::Register("t1"@)
}

/// `code` leaves the value of `q` in the hardware register `r`: no code where `q` is kept in
/// `r`, a load from `q`'s stack slot into `r`, or a load of the number into `r`.
pub open spec fn branch_brings(code: Seq<char>, q: Quantity, r: Seq<char>, places: Map<Seq<char>, AssignView>) -> bool {
    match q {
        Quantity::LocalVariableName(l) => match places[l@] {
            AssignView::Register(p) => code.len() == 0 && r == p,
            AssignView::StackValue(o) => code == code_line("lw "@ + r + ", "@ + slot_below(o)),
            _ => false,
        },
        Quantity::NumberLiteral(n) => code == code_line("li "@ + r + ", "@ + signed_decimal(n as int)),
        _ => false,
    }
}

/// Whether the RISC-V conditional branch `m` is taken on register values `x` and `y`: `beq`,
/// `bne`, `blt`, `bge`, and the assembler's `bgt` and `ble`; never for any other text.
pub open spec fn riscv_branch_taken(m: Seq<char>, x: int, y: int) -> bool {
    if m == "beq"@ {
        x == y
    } else if m == "bne"@ {
        x != y
    } else if m == "blt"@ {
        x < y
    } else if m == "bge"@ {
        x >= y
    } else if m == "bgt"@ {
        x > y
    } else if m == "ble"@ {
        x <= y
    } else {
        false
    }
}

/// Whether a branch of type `t` continues at its success label on operands `x` and `y`.
pub open spec fn branch_holds(t: BranchType, x: int, y: int) -> bool {
    match t {
        BranchType::EQ => x == y,
        BranchType::GE => x >= y,
        BranchType::LT => x < y,
        BranchType::NE => x != y,
    }
}

/// The code of a branch brings the first operand into one register and then the second into
/// another, without overwriting the first; then one conditional branch on the first and the
/// second, in that order, goes to the success label exactly where the branch's comparison holds
/// of them, and a jump goes to the failure label otherwise.
pub proof fn lemma_branch_taken_exactly_when_it_holds(b: Branch, places: Map<Seq<char>, AssignView>)
    requires
        branch_emittable(b, places),
        branch_scratch_free(places),
    ensures
        exists|l1: Seq<char>, r1: Seq<char>, l2: Seq<char>, r2: Seq<char>, m: Seq<char>|
            #![trigger branch_brings(l1, b.operand1, r1, places), branch_brings(l2, b.operand2, r2, places), riscv_branch_taken(m, 0, 0)]
            {
                &&& branch_text(b, places) == l1 + l2 + code_line(m + " "@ + r1 + ", "@ + r2 + ", "@ + b.success_label@)
                    + code_line("j "@ + b.failure_label@)
                &&& branch_brings(l1, b.operand1, r1, places)
                &&& branch_brings(l2, b.operand2, r2, places)
                &&& l2.len() > 0 ==> r2 != r1
                &&& l1.len() > 0 ==> r1 != r2
                &&& forall|x: int, y: int| riscv_branch_taken(m, x, y) == branch_holds(b.branch_type, x, y)
            },
{
    reveal_strlit("t0");
    reveal_strlit("t1");
    reveal_strlit("beq");
    reveal_strlit("bne");
    reveal_strlit("blt");
    reveal_strlit("bge");
    assert("t0"@[1] != "t1"@[1]);
    assert("bne"@[1] != "beq"@[1]);
    assert("blt"@[1] != "beq"@[1]);
    assert("blt"@[1] != "bne"@[1]);
    assert("bge"@[1] != "beq"@[1]);
    assert("bge"@[1] != "bne"@[1]);
    assert("bge"@[1] != "blt"@[1]);
    let first = branch_operand_code(b.operand1, "t0"@, places);
    let second = branch_operand_code(b.operand2, "t1"@, places);
    let m = branch_command(b.branch_type);
    assert(branch_brings(first.0, b.operand1, first.1, places));
    assert(branch_brings(second.0, b.operand2, second.1, places));
    if second.0.len() > 0 {
        assert(second.1 == "t1"@);
        match b.operand1 {
            Quantity::LocalVariableName(l) => {
                assert(places.contains_key(l@));
                assert(places[l@] != AssignView::Register("t1"@));
                match places[l@] {
                    AssignView::Register(p) => {
                        assert(first.1 == p);
                    },
                    _ => {
                        assert(first.1 == "t0"@);
                    },
                }
            },
            _ => {
                assert(first.1 == "t0"@);
            },
        }
        assert(first.1 != "t1"@);
    }
    if first.0.len() > 0 {
        assert(first.1 == "t0"@);
        match b.operand2 {
            Quantity::LocalVariableName(l) => {
                assert(places.contains_key(l@));
                assert(places[l@] != AssignView::Register("t0"@));
                match places[l@] {
                    AssignView::Register(p) => {
                        assert(second.1 == p);
                    },
                    _ => {
                        assert(second.1 == "t1"@);
                    },
                }
            },
            _ => {
                assert(second.1 == "t1"@);
            },
        }
        assert(second.1 != "t0"@);
    }
    assert forall|x: int, y: int| riscv_branch_taken(m, x, y) == branch_holds(b.branch_type, x, y) by {
        match b.branch_type {
            BranchType::EQ => {},
            BranchType::GE => {},
            BranchType::LT => {},
            BranchType::NE => {},
        }
    }
    assert(riscv_branch_taken(m, 0, 0) == branch_holds(b.branch_type, 0, 0));
}

/// Appends the code that makes an operand available, and gives the register it is then in.
fn push_branch_operand(out: &mut String, q: &Quantity, scratch: &str, ctx: &FunctionCompileContext) -> (res: String)
    requires
        ctx.local_assign.wf(),
        branch_operand_ok(*q, ctx.places()),
    ensures
        final(out)@ == old(out)@ + branch_operand_code(*q, scratch@, ctx.places()).0,
        res@ == branch_operand_code(*q, scratch@, ctx.places()).1,
{
    match q {
        Quantity::LocalVariableName(local) => match place_of_local(ctx, local) {
            RegisterAssign::Register(r) => {
                assert(out@ =~= old(out)@ + Seq::<char>::empty());
                r.clone()
            },
            RegisterAssign::StackValue(o) => {
                push_line_start(out, "lw ");
                push_text(out, scratch);
                push_text(out, ", ");
                push_slot_below(out, *o);
                push_text(out, "\n");
                assert(out@ =~= old(out)@ + branch_operand_code(*q, scratch@, ctx.places()).0);
                scratch.to_string()
            },
            _ => {
                assert(false);
                String::new()
            },
        },
        Quantity::NumberLiteral(n) => {
            push_line_start(out, "li ");
            push_text(out, scratch);
            push_text(out, ", ");
            push_signed_decimal(out, *n);
            push_text(out, "\n");
            assert(out@ =~= old(out)@ + branch_operand_code(*q, scratch@, ctx.places()).0);
            scratch.to_string()
        },
        _ => {
            assert(false);
            String::new()
        },
    }
}

/// Emit assembly code for a [`Branch`].
pub fn emit_code(branch: &Branch, ctx: &FunctionCompileContext) -> (res: String)
    requires
        ctx.local_assign.wf(),
        branch_emittable(*branch, ctx.places()),
    ensures
        res@ == branch_text(*branch, ctx.places()),
{
    let mut result = String::new();
    let branch_command = match branch.branch_type {
        BranchType::EQ => "beq",
        BranchType::GE => "bge",
        BranchType::LT => "blt",
        BranchType::NE => "bne",
    };
    let operand1_register = push_branch_operand(&mut result, &branch.operand1, "t0", ctx);
    let operand2_register = push_branch_operand(&mut result, &branch.operand2, "t1", ctx);
    push_line_start(&mut result, branch_command);
    push_text(&mut result, " ");
    push_text(&mut result, operand1_register.as_str());
    push_text(&mut result, ", ");
    push_text(&mut result, operand2_register.as_str());
    push_text(&mut result, ", ");
    push_text(&mut result, branch.success_label.as_str());
    push_text(&mut result, "\n");
    push_line_start(&mut result, "j ");
    push_text(&mut result, branch.failure_label.as_str());
    push_text(&mut result, "\n");
    assert(result@ =~= branch_text(*branch, ctx.places()));
    result
}

} // verus!
