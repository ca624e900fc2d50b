use come::emit::block::{emit_block, emit_function, CodeBlock, CodeFunction, Statement};
use come::emit::FunctionCompileContext;
use come::ir::{BinaryCalculate, BinaryOperation, DataType, Integer, Jump, Quantity, RegisterName, Ret, Terminator};
use come::name_map::NameMap;
use come::register_assign::RegisterAssign;

fn binop_constant(to: &str) -> Statement {
    Statement::BinaryCalculate(BinaryCalculate {
        operation: BinaryOperation::Add,
        operand1: Quantity::NumberLiteral(1),
        operand2: Quantity::NumberLiteral(2),
        to: RegisterName(to.to_string()),
        data_type: DataType::Integer(Integer { signed: true, width: 32 }),
    })
}

fn jump(label: &str) -> Statement {
    Statement::Terminator(Terminator::Jump(Jump { label: label.to_string() }))
}

fn register_assign() -> NameMap<RegisterAssign> {
    let mut local_assign = NameMap::new();
    for (name, register) in [("reg0", "t2"), ("reg1", "t3"), ("reg2", "t4"), ("reg3", "t5")] {
        local_assign.insert(name.to_string(), RegisterAssign::Register(register.to_string()));
    }
    local_assign
}

fn phi_constants() -> NameMap<Vec<(RegisterAssign, i64)>> {
    let mut phi_constant_assign = NameMap::new();
    phi_constant_assign.insert("bb1".to_string(), vec![(RegisterAssign::Register("t2".to_string()), 1)]);
    phi_constant_assign.insert("bb2".to_string(), vec![(RegisterAssign::Register("t2".to_string()), 2)]);
    phi_constant_assign
}

#[test]
fn phi_insert() {
    let context = FunctionCompileContext {
        local_assign: register_assign(),
        cleanup_label: None,
        phi_constant_assign: phi_constants(),
    };
    let bb1 = CodeBlock { name: Some("bb1".to_string()), content: vec![binop_constant("reg2"), jump("bb3")] };
    let code = emit_block(&bb1, &context);
    assert_eq!(
        code,
        r#"bb1:
    li t0, 1
    li t1, 2
    add t4, t0, t1
    li t2, 1
    j bb3
"#
    );
    let bb2 = CodeBlock { name: Some("bb2".to_string()), content: vec![binop_constant("reg3"), jump("bb3")] };
    let code = emit_block(&bb2, &context);
    assert_eq!(
        code,
        r#"bb2:
    li t0, 1
    li t1, 2
    add t5, t0, t1
    li t2, 2
    j bb3
"#
    )
}

#[test]
fn block_without_statements_emits_nothing() {
    let context = FunctionCompileContext { local_assign: register_assign(), cleanup_label: None, phi_constant_assign: NameMap::new() };
    assert_eq!(emit_block(&CodeBlock { name: Some("bb9".to_string()), content: vec![] }, &context), "");
}

fn function() -> CodeFunction {
    CodeFunction {
        name: "f".to_string(),
        content: vec![
            CodeBlock { name: Some("f_entry".to_string()), content: vec![Statement::Alloca, jump("bb1")] },
            CodeBlock {
                name: Some("bb1".to_string()),
                content: vec![binop_constant("reg2"), Statement::Terminator(Terminator::Ret(Ret { value: None }))],
            },
        ],
    }
}

#[test]
fn function_with_a_stack_frame_pops_it_at_its_end() {
    let code = emit_function(&function(), register_assign(), phi_constants(), 16);
    assert_eq!(
        code,
        r#".global f
f:
    addi sp, sp, -16
f_entry:
    j bb1
bb1:
    li t0, 1
    li t1, 2
    add t4, t0, t1
    li t2, 1
    j f_end
f_end:
    addi sp, sp, 16
    ret
"#
    );
}

#[test]
fn function_without_a_stack_frame_returns_directly() {
    let code = emit_function(&function(), register_assign(), NameMap::new(), 0);
    assert_eq!(
        code,
        r#".global f
f:
f_entry:
    j bb1
bb1:
    li t0, 1
    li t1, 2
    add t4, t0, t1
    ret
"#
    );
}
