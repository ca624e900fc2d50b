use come::emit::load_field::emit_code;
use come::emit::FunctionCompileContext;
use come::ir::{FieldStep, LoadField, RegisterName};
use come::name_map::NameMap;
use come::register_assign::RegisterAssign;

fn registers(names: &[&str]) -> RegisterAssign {
    RegisterAssign::MultipleRegisters(names.iter().map(|it| it.to_string()).collect())
}

fn register(name: &str) -> RegisterAssign {
    RegisterAssign::Register(name.to_string())
}

fn context(places: &[(&str, RegisterAssign)]) -> FunctionCompileContext {
    let mut local_assign = NameMap::new();
    for (name, place) in places {
        local_assign.insert(name.to_string(), place.clone());
    }
    FunctionCompileContext { local_assign, cleanup_label: None, phi_constant_assign: NameMap::new() }
}

/// `S0 { i32 }`: 32 bits.
fn s0_field(index: usize) -> FieldStep {
    FieldStep { parent_bits: 32, field_bits: Some(vec![32]), index }
}

/// `S1 { i32, i32 }`: 64 bits.
fn s1_field(index: usize) -> FieldStep {
    FieldStep { parent_bits: 64, field_bits: Some(vec![32, 32]), index }
}

/// `S2 { i32, S1, i32 }`: 128 bits.
fn s2_field(index: usize) -> FieldStep {
    FieldStep { parent_bits: 128, field_bits: Some(vec![32, 64, 32]), index }
}

/// `b` becomes the field of `a` that `field_chain` leads to.
fn load_b_from_a(field_chain: Vec<FieldStep>, leaf_type_bits: usize) -> LoadField {
    LoadField {
        target: RegisterName("b".to_string()),
        source: RegisterName("a".to_string()),
        field_chain,
        leaf_type_bits,
    }
}

#[test]
fn load_field_emit_code_multiple_to_single() {
    let ctx = context(&[("a", registers(&["t2", "t3"])), ("b", register("t4"))]);
    assert_eq!(emit_code(&load_b_from_a(vec![s1_field(1)], 32), &ctx), "    mv t4, t3\n");
    assert_eq!(emit_code(&load_b_from_a(vec![s1_field(0)], 32), &ctx), "    mv t4, t2\n");
    let ctx = context(&[("a", registers(&["a0", "a1", "a2", "a3"])), ("b", register("t4"))]);
    assert_eq!(emit_code(&load_b_from_a(vec![s2_field(1), s1_field(1)], 32), &ctx), "    mv t4, a2\n");
    assert_eq!(emit_code(&load_b_from_a(vec![s2_field(2)], 32), &ctx), "    mv t4, a3\n");
}

#[test]
fn load_field_emit_code_multiple_to_multiple() {
    let ctx = context(&[("a", registers(&["a0", "a1", "a2", "a3"])), ("b", registers(&["t2", "t3"]))]);
    assert_eq!(emit_code(&load_b_from_a(vec![s2_field(1)], 64), &ctx), "    mv t2, a1\n    mv t3, a2\n");
}

#[test]
fn load_field_emit_code_single_to_memory() {
    let ctx = context(&[("a", register("a0")), ("b", RegisterAssign::StackValue(16))]);
    assert_eq!(emit_code(&load_b_from_a(vec![s0_field(0)], 32), &ctx), "    sw a0, 16(sp)\n");
}

#[test]
fn load_field_emit_code_memory_to_single() {
    let ctx = context(&[("a", RegisterAssign::StackValue(16)), ("b", register("t2"))]);
    assert_eq!(emit_code(&load_b_from_a(vec![s1_field(1)], 32), &ctx), "    lw t2, 20(sp)\n");
    assert_eq!(emit_code(&load_b_from_a(vec![s2_field(1), s1_field(1)], 32), &ctx), "    lw t2, 24(sp)\n");
    assert_eq!(emit_code(&load_b_from_a(vec![s2_field(2)], 32), &ctx), "    lw t2, 28(sp)\n");
}

#[test]
fn load_field_emit_code_multiple_to_memory() {
    let ctx = context(&[("a", registers(&["a0", "a1", "a2", "a3"])), ("b", RegisterAssign::StackValue(16))]);
    assert_eq!(emit_code(&load_b_from_a(vec![s2_field(1)], 64), &ctx), "    sw a1, 20(sp)\n    sw a2, 24(sp)\n");
}

#[test]
fn load_field_emit_code_memory_to_multiple() {
    let ctx = context(&[("a", RegisterAssign::StackValue(16)), ("b", registers(&["t2", "t3"]))]);
    assert_eq!(emit_code(&load_b_from_a(vec![s2_field(1)], 64), &ctx), "    lw t2, 20(sp)\n    lw t3, 24(sp)\n");
}

#[test]
fn load_field_emit_code_memory_to_memory() {
    let ctx = context(&[("a", RegisterAssign::StackValue(16)), ("b", RegisterAssign::StackValue(32))]);
    assert_eq!(
        emit_code(&load_b_from_a(vec![s2_field(1)], 64), &ctx),
        "    lw t0, 20(sp)\n    sw t0, 36(sp)\n    lw t0, 24(sp)\n    sw t0, 40(sp)\n"
    );
}

#[test]
fn load_field_from_single_register_moves_it() {
    let ctx = context(&[("a", register("t5")), ("b", register("t6"))]);
    assert_eq!(emit_code(&load_b_from_a(vec![s0_field(0)], 32), &ctx), "    mv t6, t5\n");
}
