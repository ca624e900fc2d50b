use come::emit::load;
use come::ir::Load;
use come::emit::store;
use come::ir::Store;
use come::emit::unary_calculate;
use come::ir::{UnaryCalculate, UnaryOperation};
use come::emit::terminator;
use come::ir::{Branch, BranchType, Jump, Terminator};
use come::emit::basic_block::append_phi_insert;
use come::emit::FunctionCompileContext;
use come::emit::{binary_calculate, call, ret};
use come::ir::{BasicBlock, BinaryCalculate, BinaryOperation, Call, DataType, Integer, Quantity, RegisterName, Ret};
use come::name_map::NameMap;
use come::register_assign::RegisterAssign;

fn i32_type() -> DataType {
    DataType::Integer(Integer { signed: true, width: 32 })
}

fn reg(name: &str) -> RegisterName {
    RegisterName(name.to_string())
}

fn context(places: &[(&str, RegisterAssign)], cleanup_label: Option<&str>) -> FunctionCompileContext {
    let mut local_assign = NameMap::new();
    for (name, place) in places {
        local_assign.insert(name.to_string(), place.clone());
    }
    FunctionCompileContext {
        local_assign,
        cleanup_label: cleanup_label.map(|it| it.to_string()),
        phi_constant_assign: NameMap::new(),
    }
}

#[test]
fn ret_moves_the_value_into_a0() {
    let ctx = context(&[("r", RegisterAssign::Register("t2".to_string()))], None);
    let code = ret::emit_code(&Ret { value: Some(Quantity::RegisterName(reg("r"))) }, &ctx);
    assert_eq!(code, "    mv a0, t2\n    ret\n");
    let ctx = context(&[("r", RegisterAssign::StackValue(8))], Some("f_end"));
    let code = ret::emit_code(&Ret { value: Some(Quantity::RegisterName(reg("r"))) }, &ctx);
    assert_eq!(code, "    lw a0, 8(sp)\n    j f_end\n");
    let code = ret::emit_code(&Ret { value: Some(Quantity::NumberLiteral(-3)) }, &ctx);
    assert_eq!(code, "    li a0, -3\n    j f_end\n");
    let code = ret::emit_code(&Ret { value: None }, &context(&[], None));
    assert_eq!(code, "    ret\n");
}

#[test]
fn builtin_calls_load_and_store_words() {
    let ctx = context(
        &[("p", RegisterAssign::Register("t0".to_string())), ("x", RegisterAssign::StackValue(4))],
        None,
    );
    let store = Call {
        to: None,
        name: "store_u32".to_string(),
        params: vec![Quantity::RegisterName(reg("p")), Quantity::NumberLiteral(5)],
    };
    assert_eq!(call::emit_code(&store, &ctx), "    li a1, 5\n    mv a0, t0\n    sw a1, 0(a0)\n");
    let load = Call {
        to: Some(reg("x")),
        name: "load_u32".to_string(),
        params: vec![Quantity::NumberLiteral(4096)],
    };
    assert_eq!(call::emit_code(&load, &ctx), "    li a0, 4096\n    lw a0, 0(a0)\n    sw a0, 4(sp)\n");
    let load_into_register = Call {
        to: Some(reg("p")),
        name: "load_u32".to_string(),
        params: vec![Quantity::RegisterName(reg("x"))],
    };
    assert_eq!(
        call::emit_code(&load_into_register, &ctx),
        "    lw a0, 4(sp)\n    lw a0, 0(a0)\n    mv t0, a0\n"
    );
}

#[test]
fn binary_calculations_use_scratch_registers() {
    let ctx = context(
        &[
            ("a", RegisterAssign::Register("t2".to_string())),
            ("b", RegisterAssign::Register("t3".to_string())),
            ("c", RegisterAssign::StackValue(12)),
            ("d", RegisterAssign::Register("t4".to_string())),
            ("s", RegisterAssign::StackValue(0)),
        ],
        None,
    );
    let add = BinaryCalculate {
        operation: BinaryOperation::Add,
        operand1: Quantity::RegisterName(reg("a")),
        operand2: Quantity::NumberLiteral(7),
        to: reg("c"),
        data_type: i32_type(),
    };
    assert_eq!(binary_calculate::emit_code(&add, &ctx), "    li t1, 7\n    add t0, t2, t1\n    sw t0, 12(sp)\n");
    let equal = BinaryCalculate {
        operation: BinaryOperation::Equal,
        operand1: Quantity::RegisterName(reg("s")),
        operand2: Quantity::RegisterName(reg("b")),
        to: reg("d"),
        data_type: i32_type(),
    };
    assert_eq!(
        binary_calculate::emit_code(&equal, &ctx),
        "    lw t0, 0(sp)\n    sub t4, t0, t3\n    seqz t4, t4\n"
    );
    let less = BinaryCalculate {
        operation: BinaryOperation::LessThan,
        operand1: Quantity::NumberLiteral(-1),
        operand2: Quantity::RegisterName(reg("a")),
        to: reg("d"),
        data_type: i32_type(),
    };
    assert_eq!(binary_calculate::emit_code(&less, &ctx), "    li t0, -1\n    slt t4, t0, t2\n");
}

#[test]
fn phi_constants_are_loaded_at_the_end_of_their_block() {
    let mut ctx = context(&[], None);
    let mut constants = NameMap::new();
    constants.insert(
        "bb1".to_string(),
        vec![(RegisterAssign::Register("t0".to_string()), 1), (RegisterAssign::StackValue(8), -2)],
    );
    ctx.phi_constant_assign = constants;
    let bb1 = BasicBlock { name: Some("bb1".to_string()), content: vec![] };
    assert_eq!(append_phi_insert(&ctx, &bb1), "    li t0, 1\n    li t0, -2\n    sw t0, 8(sp)\n");
    let bb2 = BasicBlock { name: Some("bb2".to_string()), content: vec![] };
    assert_eq!(append_phi_insert(&ctx, &bb2), "");
}

fn local(name: &str) -> Quantity {
    Quantity::LocalVariableName(name.to_string())
}

#[test]
fn load_reads_below_the_stack_pointer() {
    let ctx = context(
        &[
            ("slot", RegisterAssign::StackRef(16)),
            ("r", RegisterAssign::Register("t3".to_string())),
            ("s", RegisterAssign::StackValue(8)),
        ],
        None,
    );
    assert_eq!(load::emit_code(&Load { to: reg("r"), from: local("slot") }, &ctx), "    lw t3, -16(sp)\n");
    assert_eq!(
        load::emit_code(&Load { to: reg("s"), from: local("slot") }, &ctx),
        "    lw t0, -16(sp)\n    sw t0, -8(sp)\n"
    );
}

#[test]
fn store_writes_below_the_stack_pointer() {
    let ctx = context(
        &[
            ("slot", RegisterAssign::StackRef(4)),
            ("r", RegisterAssign::Register("a2".to_string())),
            ("s", RegisterAssign::StackValue(12)),
        ],
        None,
    );
    assert_eq!(store::emit_code(&Store { source: local("r"), target: local("slot") }, &ctx), "    sw a2, -4(sp)\n");
    assert_eq!(
        store::emit_code(&Store { source: local("s"), target: local("slot") }, &ctx),
        "lw t0, -12(sp)\n    sw t0, -4(sp)\n"
    );
    assert_eq!(
        store::emit_code(&Store { source: Quantity::NumberLiteral(-7), target: local("slot") }, &ctx),
        "    li t0, -7\n    sw t0, -4(sp)\n"
    );
}

#[test]
fn unary_calculations_neg_and_not() {
    let ctx = context(
        &[("a", RegisterAssign::Register("t2".to_string())), ("b", RegisterAssign::StackValue(20))],
        None,
    );
    let neg = UnaryCalculate { operation: UnaryOperation::Neg, operand: local("a"), to: reg("a"), data_type: i32_type() };
    assert_eq!(unary_calculate::emit_code(&neg, &ctx), "    neg t2, t2\n");
    let not = UnaryCalculate { operation: UnaryOperation::Not, operand: local("b"), to: reg("b"), data_type: i32_type() };
    assert_eq!(unary_calculate::emit_code(&not, &ctx), "    lw t0, 20(sp)\n    not t0, t0\n    sw t0, 20(sp)\n");
    let literal = UnaryCalculate { operation: UnaryOperation::Neg, operand: Quantity::NumberLiteral(5), to: reg("a"), data_type: i32_type() };
    assert_eq!(unary_calculate::emit_code(&literal, &ctx), "    li t0, 5\n    neg t2, t0\n");
}

#[test]
fn terminators_branch_jump_and_return() {
    let ctx = context(
        &[("a", RegisterAssign::Register("s1".to_string())), ("b", RegisterAssign::StackValue(8))],
        Some("f_end"),
    );
    let branch = Terminator::Branch(Branch {
        branch_type: BranchType::LT,
        operand1: local("a"),
        operand2: local("b"),
        success_label: "bb1".to_string(),
        failure_label: "bb2".to_string(),
    });
    assert_eq!(terminator::emit_code(&branch, &ctx), "    lw t1, -8(sp)\n    blt s1, t1, bb1\n    j bb2\n");
    let branch = Terminator::Branch(Branch {
        branch_type: BranchType::NE,
        operand1: Quantity::NumberLiteral(3),
        operand2: local("a"),
        success_label: "x".to_string(),
        failure_label: "y".to_string(),
    });
    assert_eq!(terminator::emit_code(&branch, &ctx), "    li t0, 3\n    bne t0, s1, x\n    j y\n");
    let jump = Terminator::Jump(Jump { label: "bb3".to_string() });
    assert_eq!(terminator::emit_code(&jump, &ctx), "    j bb3\n");
    let ret = Terminator::Ret(Ret { value: Some(local("b")) });
    assert_eq!(terminator::emit_code(&ret, &ctx), "    lw a0, -8(sp)\n    j f_end\n");
    let ret = Terminator::Ret(Ret { value: Some(local("a")) });
    assert_eq!(terminator::emit_code(&ret, &context(&[("a", RegisterAssign::Register("s1".to_string()))], None)), "    mv a0, s1\n    ret\n");
}
