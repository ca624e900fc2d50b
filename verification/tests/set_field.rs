use come::emit::set_field::emit_code;
use come::emit::FunctionCompileContext;
use come::ir::{FieldStep, Quantity, RegisterName, SetField};
use come::name_map::NameMap;
use come::register_assign::RegisterAssign;

fn reg(name: &str) -> RegisterName {
    RegisterName(name.to_string())
}

fn local(name: &str) -> Quantity {
    Quantity::LocalVariableName(name.to_string())
}

fn registers(names: &[&str]) -> RegisterAssign {
    RegisterAssign::MultipleRegisters(names.iter().map(|it| it.to_string()).collect())
}

fn context(places: &[(&str, RegisterAssign)]) -> FunctionCompileContext {
    let mut local_assign = NameMap::new();
    for (name, place) in places {
        local_assign.insert(name.to_string(), place.clone());
    }
    FunctionCompileContext { local_assign, cleanup_label: None, phi_constant_assign: NameMap::new() }
}

/// `S0 { i32 }`: 32 bits.
fn s0_field(index: usize) -> FieldStep {
    FieldStep { parent_bits: 32, field_bits: Some(vec![32]), index }
}

/// `S1 { i32, i32 }`: 64 bits.
fn s1_field(index: usize) -> FieldStep {
    FieldStep { parent_bits: 64, field_bits: Some(vec![32, 32]), index }
}

/// `S2 { i32, S1, i32 }`: 128 bits.
fn s2_field(index: usize) -> FieldStep {
    FieldStep { parent_bits: 128, field_bits: Some(vec![32, 64, 32]), index }
}

fn set_field(target: &str, source: Quantity, origin_root: &str, field_chain: Vec<FieldStep>, final_type_bits: usize) -> SetField {
    SetField { target: reg(target), source, origin_root: reg(origin_root), field_chain, final_type_bits }
}

#[test]
fn emit_code_reg_whatever_reg() {
    let ctx = context(&[
        ("a", RegisterAssign::Register("t2".to_string())),
        ("b", RegisterAssign::Register("t3".to_string())),
    ]);
    let st = set_field("a", Quantity::NumberLiteral(42), "b", vec![s0_field(0)], 32);
    assert_eq!(emit_code(&st, &ctx), "    li t1, 42\n    mv t2, t1\n");
}

#[test]
fn emit_code_reg_whatever_mem() {
    let ctx = context(&[
        ("a", RegisterAssign::Register("t2".to_string())),
        ("b", RegisterAssign::Register("t3".to_string())),
        ("c", RegisterAssign::StackValue(16)),
    ]);
    let st = set_field("a", local("c"), "b", vec![s0_field(0)], 32);
    assert_eq!(emit_code(&st, &ctx), "    lw t2, 16(sp)\n");
}

#[test]
fn emit_code_multi_multi_reg() {
    let ctx = context(&[("a", registers(&["t2", "t3"])), ("b", registers(&["t4", "t5"]))]);
    let st = set_field("a", Quantity::NumberLiteral(42), "b", vec![s1_field(0)], 32);
    assert_eq!(emit_code(&st, &ctx), "    li t1, 42\n    mv t2, t1\n    mv t3, t5\n");
    let st = set_field("a", Quantity::NumberLiteral(42), "b", vec![s1_field(1)], 32);
    assert_eq!(emit_code(&st, &ctx), "    li t1, 42\n    mv t2, t4\n    mv t3, t1\n");
}

#[test]
fn emit_code_multi_multi_multi() {
    let ctx = context(&[
        ("a", registers(&["a0", "a1", "a2", "a3"])),
        ("b", registers(&["t2", "t3"])),
        ("c", registers(&["a4", "a5", "a6", "a7"])),
    ]);
    let st = set_field("c", local("b"), "a", vec![s2_field(1)], 64);
    assert_eq!(emit_code(&st, &ctx), "    mv a4, a0\n    mv a5, t2\n    mv a6, t3\n    mv a7, a3\n");
}

#[test]
fn emit_code_multi_multi_mem() {
    let ctx = context(&[
        ("a", registers(&["a0", "a1", "a2", "a3"])),
        ("b", RegisterAssign::StackValue(16)),
        ("c", registers(&["a4", "a5", "a6", "a7"])),
    ]);
    let st = set_field("c", local("b"), "a", vec![s2_field(1)], 64);
    assert_eq!(emit_code(&st, &ctx), "    mv a4, a0\n    lw a5, 16(sp)\n    lw a6, 20(sp)\n    mv a7, a3\n");
}

#[test]
fn emit_code_multi_mem_reg() {
    let ctx = context(&[
        ("a", registers(&["a0", "a1"])),
        ("b", RegisterAssign::StackValue(16)),
        ("c", RegisterAssign::Register("t2".to_string())),
    ]);
    let st = set_field("a", local("c"), "b", vec![s1_field(1)], 32);
    assert_eq!(emit_code(&st, &ctx), "    lw a0, 16(sp)\n    mv a1, t2\n");
}

#[test]
fn emit_code_multi_mem_multi() {
    let ctx = context(&[
        ("a", registers(&["a0", "a1", "a2", "a3"])),
        ("b", RegisterAssign::StackValue(16)),
        ("c", registers(&["t2", "t3"])),
    ]);
    let st = set_field("a", local("c"), "b", vec![s2_field(1)], 64);
    assert_eq!(emit_code(&st, &ctx), "    lw a0, 16(sp)\n    mv a1, t2\n    mv a2, t3\n    lw a3, 28(sp)\n");
}

#[test]
fn set_field_into_stack_values() {
    let ctx = context(&[
        ("r", RegisterAssign::StackValue(32)),
        ("s", RegisterAssign::StackValue(0)),
        ("v", RegisterAssign::StackValue(48)),
        ("w", RegisterAssign::Register("t2".to_string())),
        ("m", registers(&["a0", "a1", "a2", "a3"])),
    ]);
    let st = set_field("r", local("v"), "s", vec![s2_field(1)], 64);
    assert_eq!(
        emit_code(&st, &ctx),
        "    lw t0, 0(sp)\n    sw t0, 32(sp)\n    lw t0, 48(sp)\n    sw t0, 36(sp)\n    lw t0, 52(sp)\n    sw t0, 40(sp)\n    lw t0, 12(sp)\n    sw t0, 44(sp)\n"
    );
    let st = set_field("r", local("w"), "m", vec![s2_field(2)], 32);
    assert_eq!(
        emit_code(&st, &ctx),
        "    sw a0, 32(sp)\n    sw a1, 36(sp)\n    sw a2, 40(sp)\n    sw t2, 44(sp)\n"
    );
    let st = set_field("r", local("w"), "s", vec![s2_field(2)], 32);
    assert_eq!(
        emit_code(&st, &ctx),
        "    lw t0, 0(sp)\n    sw t0, 32(sp)\n    lw t0, 4(sp)\n    sw t0, 36(sp)\n    lw t0, 8(sp)\n    sw t0, 40(sp)\n"
    );
}
