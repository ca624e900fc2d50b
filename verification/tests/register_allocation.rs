use come::ir::{Ret, BasicBlock, FunctionDefinition, IRStatement, Parameter, Phi, PhiSource, Quantity, RegisterName};
use come::name_map::NameMap;
use come::register_allocation::{assign_alloca, assign_param, assign_register};
use come::register_assign::RegisterAssign;
use come::register_groups::{active_block_intersection, register_groups};

fn reg(name: &str) -> RegisterName {
    RegisterName(name.to_string())
}

fn binop_constant(to: &str) -> IRStatement {
    IRStatement::Compute {
        to: reg(to),
        operands: vec![Quantity::NumberLiteral(1), Quantity::NumberLiteral(2)],
    }
}

fn jump(label: &str) -> IRStatement {
    IRStatement::Jump { label: label.to_string() }
}

fn phi(to: &str, block1: &str, value1: &str, block2: &str, value2: &str) -> IRStatement {
    IRStatement::Phi(Phi {
        to: reg(to),
        from: vec![
            PhiSource { value: Quantity::RegisterName(reg(value1)), block: block1.to_string() },
            PhiSource { value: Quantity::RegisterName(reg(value2)), block: block2.to_string() },
        ],
    })
}

fn phi_function() -> FunctionDefinition {
    FunctionDefinition {
        name: "f".to_string(),
        content: vec![
            BasicBlock {
                name: Some("bb1".to_string()),
                content: vec![binop_constant("t0"), binop_constant("a1"), binop_constant("b0"), jump("bb2")],
            },
            BasicBlock {
                name: Some("bb2".to_string()),
                content: vec![binop_constant("t1"), binop_constant("a0"), binop_constant("b1"), jump("bb3")],
            },
            BasicBlock {
                name: Some("bb3".to_string()),
                content: vec![phi("t2", "bb1", "t0", "bb2", "t1"), phi("a2", "bb1", "a1", "bb2", "a0"), jump("bb5")],
            },
            BasicBlock { name: Some("bb4".to_string()), content: vec![binop_constant("t3"), jump("bb5")] },
            BasicBlock {
                name: Some("bb5".to_string()),
                content: vec![phi("t4", "bb3", "t2", "bb4", "t3"), IRStatement::Ret(Ret { value: None })],
            },
        ],
    }
}

fn live_and_sizes(entries: &[(&str, Vec<usize>, usize)]) -> (NameMap<Vec<usize>>, NameMap<usize>) {
    let mut live = NameMap::new();
    let mut sizes = NameMap::new();
    for (name, blocks, bits) in entries {
        live.insert(name.to_string(), blocks.clone());
        sizes.insert(name.to_string(), *bits);
    }
    (live, sizes)
}

fn phi_function_facts() -> (NameMap<Vec<usize>>, NameMap<usize>) {
    live_and_sizes(&[
        ("t0", vec![0, 2], 32),
        ("t1", vec![1, 2], 32),
        ("t2", vec![2, 4], 32),
        ("t3", vec![3, 4], 32),
        ("t4", vec![4], 32),
        ("a0", vec![1, 2], 32),
        ("a1", vec![0, 2], 32),
        ("a2", vec![2], 32),
        ("b0", vec![0], 32),
        ("b1", vec![1], 32),
    ])
}

fn names(group: &[RegisterName]) -> Vec<String> {
    let mut result: Vec<String> = group.iter().map(|it| it.0.clone()).collect();
    result.sort();
    result
}

#[test]
fn register_groups_join_registers_live_apart() {
    let (live, sizes) = phi_function_facts();
    let consider: Vec<RegisterName> =
        ["t0", "a1", "b0", "t1", "a0", "b1", "t2", "a2", "t3", "t4"].iter().map(|it| reg(it)).collect();
    let groups = register_groups(&consider, &phi_function(), &live, &sizes);
    assert_eq!(groups.len(), 3);
    assert_eq!(names(&groups[0]), vec!["t0", "t1", "t2", "t3", "t4"]);
    assert_eq!(names(&groups[1]), vec!["a0", "a1", "a2"]);
    assert_eq!(names(&groups[2]), vec!["b0", "b1"]);
}

#[test]
fn wide_registers_keep_a_group_of_their_own() {
    let (live, sizes) = live_and_sizes(&[("x", vec![0], 64), ("y", vec![1], 32)]);
    let function = FunctionDefinition { name: "g".to_string(), content: vec![] };
    let groups = register_groups(&vec![reg("y"), reg("x")], &function, &live, &sizes);
    assert_eq!(groups.len(), 2);
    assert_eq!(names(&groups[0]), vec!["y"]);
    assert_eq!(names(&groups[1]), vec!["x"]);
    let groups = register_groups(&vec![reg("x"), reg("y")], &function, &live, &sizes);
    assert_eq!(groups.len(), 1);
    assert_eq!(names(&groups[0]), vec!["x", "y"]);
}

#[test]
fn active_blocks_of_a_group() {
    let (live, _) = live_and_sizes(&[("a", vec![1, 2], 32), ("b", vec![2, 3], 32)]);
    let mut blocks = active_block_intersection(&vec![reg("a"), reg("b")], &live);
    blocks.sort();
    assert_eq!(blocks, vec![1, 2, 3]);
}

#[test]
fn parameters_take_argument_registers() {
    let params = vec![
        Parameter { name: reg("p0"), size_bits: 32 },
        Parameter { name: reg("p1"), size_bits: 64 },
        Parameter { name: reg("p2"), size_bits: 8 },
        Parameter { name: reg("p3"), size_bits: 32 },
    ];
    let assign = assign_param(&params);
    assert_eq!(assign.get("p0"), Some(&RegisterAssign::Register("a0".to_string())));
    assert_eq!(
        assign.get("p1"),
        Some(&RegisterAssign::MultipleRegisters(vec!["a1".to_string(), "a2".to_string()]))
    );
    assert_eq!(assign.get("p2"), Some(&RegisterAssign::MultipleRegisters(vec![])));
    assert_eq!(assign.get("p3"), Some(&RegisterAssign::Register("a3".to_string())));
}

#[test]
fn allocas_take_stack_space_in_turn() {
    let mut stack = 8;
    let assign = assign_alloca(&vec![(reg("x"), 32), (reg("y"), 64), (reg("z"), 1)], &mut stack);
    assert_eq!(assign.get("x"), Some(&RegisterAssign::StackRef(8)));
    assert_eq!(assign.get("y"), Some(&RegisterAssign::StackRef(12)));
    assert_eq!(assign.get("z"), Some(&RegisterAssign::StackRef(20)));
    assert_eq!(stack, 21);
}

#[test]
fn groups_with_fewer_live_blocks_get_registers_first() {
    let (live, sizes) = phi_function_facts();
    let registers: Vec<RegisterName> =
        ["t0", "a1", "b0", "t1", "a0", "b1", "t2", "a2", "t3", "t4"].iter().map(|it| reg(it)).collect();
    let (assign, stack) = assign_register(&phi_function(), &vec![], &vec![], &registers, &live, &sizes);
    assert_eq!(stack, 0);
    assert_eq!(assign.get("b0"), Some(&RegisterAssign::Register("t2".to_string())));
    assert_eq!(assign.get("b1"), Some(&RegisterAssign::Register("t2".to_string())));
    assert_eq!(assign.get("a1"), Some(&RegisterAssign::Register("t3".to_string())));
    assert_eq!(assign.get("t4"), Some(&RegisterAssign::Register("t4".to_string())));
    assert_eq!(assign.len(), 10);
}

#[test]
fn registers_spill_to_the_stack_when_temporaries_run_out() {
    let entries: Vec<(String, Vec<usize>, usize)> =
        (0..7).map(|i| (format!("r{i}"), vec![0], if i == 0 { 64 } else { 32 })).collect();
    let mut live = NameMap::new();
    let mut sizes = NameMap::new();
    for (name, blocks, bits) in &entries {
        live.insert(name.clone(), blocks.clone());
        sizes.insert(name.clone(), *bits);
    }
    let params = vec![Parameter { name: reg("p"), size_bits: 32 }];
    let allocas = vec![(reg("s"), 32)];
    let mut registers: Vec<RegisterName> = entries.iter().map(|it| reg(&it.0)).collect();
    registers.push(reg("p"));
    registers.push(reg("s"));
    let function = FunctionDefinition { name: "h".to_string(), content: vec![] };
    let (assign, stack) = assign_register(&function, &params, &allocas, &registers, &live, &sizes);
    assert_eq!(assign.get("p"), Some(&RegisterAssign::Register("a0".to_string())));
    assert_eq!(assign.get("s"), Some(&RegisterAssign::StackRef(0)));
    assert_eq!(
        assign.get("r0"),
        Some(&RegisterAssign::MultipleRegisters(vec!["t2".to_string(), "t3".to_string()]))
    );
    assert_eq!(assign.get("r1"), Some(&RegisterAssign::Register("t4".to_string())));
    assert_eq!(assign.get("r2"), Some(&RegisterAssign::Register("t5".to_string())));
    assert_eq!(assign.get("r3"), Some(&RegisterAssign::Register("t6".to_string())));
    assert_eq!(assign.get("r4"), Some(&RegisterAssign::StackValue(4)));
    assert_eq!(assign.get("r5"), Some(&RegisterAssign::StackValue(8)));
    assert_eq!(assign.get("r6"), Some(&RegisterAssign::StackValue(12)));
    assert_eq!(stack, 16);
}
