use come::ir::{Ret, BasicBlock, FunctionDefinition, IRStatement, Phi, PhiSource, Quantity, RegisterName};
use come::name_map::NameMap;
use come::register_assign::{collect_phi_constant_assign, collect_phied_registers, RegisterAssign};

fn binop_constant(to: &str) -> IRStatement {
    IRStatement::Compute {
        to: RegisterName(to.to_string()),
        operands: vec![Quantity::NumberLiteral(1), Quantity::NumberLiteral(2)],
    }
}

fn jump(label: &str) -> IRStatement {
    IRStatement::Jump { label: label.to_string() }
}

fn branch(success: &str, failure: &str) -> IRStatement {
    IRStatement::Branch {
        condition: Quantity::NumberLiteral(1),
        success_label: success.to_string(),
        failure_label: failure.to_string(),
    }
}

fn phi(to: &str, block1: &str, value1: &str, block2: &str, value2: &str) -> IRStatement {
    IRStatement::Phi(Phi {
        to: RegisterName(to.to_string()),
        from: vec![
            PhiSource {
                value: Quantity::RegisterName(RegisterName(value1.to_string())),
                block: block1.to_string(),
            },
            PhiSource {
                value: Quantity::RegisterName(RegisterName(value2.to_string())),
                block: block2.to_string(),
            },
        ],
    })
}

#[test]
fn test_collect_phied_registers() {
    let function_definition = FunctionDefinition {
        name: "f".to_string(),
        content: vec![
            BasicBlock {
                name: Some("bb1".to_string()),
                content: vec![
                    binop_constant("t0"),
                    binop_constant("a1"),
                    binop_constant("b0"),
                    jump("bb3"),
                ],
            },
            BasicBlock {
                name: Some("bb2".to_string()),
                content: vec![
                    binop_constant("t1"),
                    binop_constant("a0"),
                    binop_constant("b1"),
                    jump("bb3"),
                ],
            },
            BasicBlock {
                name: Some("bb3".to_string()),
                content: vec![
                    phi("t2", "bb1", "t0", "bb2", "t1"),
                    phi("a2", "bb1", "a1", "bb2", "a0"),
                    jump("bb5"),
                ],
            },
            BasicBlock {
                name: Some("bb4".to_string()),
                content: vec![binop_constant("t3"), jump("bb5")],
            },
            BasicBlock {
                name: Some("bb5".to_string()),
                content: vec![
                    phi("t4", "bb3", "t2", "bb4", "t3"),
                    IRStatement::Ret(Ret { value: None }),
                ],
            },
        ],
    };
    let phied_together_registers = collect_phied_registers(&function_definition);
    assert_eq!(phied_together_registers.len(), 2);
    let contains_t0 = phied_together_registers
        .iter()
        .find(|it| it.contains(&RegisterName("t0".to_string())))
        .unwrap();
    assert_eq!(contains_t0.len(), 5);
    assert!(contains_t0.contains(&RegisterName("t1".to_string())));
    assert!(contains_t0.contains(&RegisterName("t2".to_string())));
    assert!(contains_t0.contains(&RegisterName("t3".to_string())));
    assert!(contains_t0.contains(&RegisterName("t4".to_string())));
    let contains_a0 = phied_together_registers
        .iter()
        .find(|it| it.contains(&RegisterName("a0".to_string())))
        .unwrap();
    assert!(contains_a0.contains(&RegisterName("a1".to_string())));
    assert!(contains_a0.contains(&RegisterName("a2".to_string())));
}

#[test]
fn test_collect_phi_constant_assign() {
    let function = FunctionDefinition {
        name: "f".to_string(),
        content: vec![
            BasicBlock {
                name: Some("f_entry".to_string()),
                content: vec![branch("bb1", "bb2")],
            },
            BasicBlock {
                name: Some("bb1".to_string()),
                content: vec![jump("bb3")],
            },
            BasicBlock {
                name: Some("bb2".to_string()),
                content: vec![jump("bb3")],
            },
            BasicBlock {
                name: Some("bb3".to_string()),
                content: vec![IRStatement::Phi(Phi {
                    to: RegisterName("reg0".to_string()),
                    from: vec![
                        PhiSource {
                            value: Quantity::NumberLiteral(1),
                            block: "bb1".to_string(),
                        },
                        PhiSource {
                            value: Quantity::NumberLiteral(2),
                            block: "bb2".to_string(),
                        },
                    ],
                })],
            },
        ],
    };
    let mut register_assign = NameMap::new();
    register_assign.insert("reg0".to_string(), RegisterAssign::Register("t0".to_string()));
    let result = collect_phi_constant_assign(&function, &register_assign);
    let bb1_result = result.get("bb1").unwrap();
    assert_eq!(bb1_result.len(), 1);
    assert_eq!(bb1_result[0].0, RegisterAssign::Register("t0".to_string()));
    assert_eq!(bb1_result[0].1, 1);
    let bb2_result = result.get("bb2").unwrap();
    assert_eq!(bb2_result.len(), 1);
    assert_eq!(bb2_result[0].0, RegisterAssign::Register("t0".to_string()));
    assert_eq!(bb2_result[0].1, 2);
}

#[test]
fn phi_that_joins_two_groups_extends_the_first() {
    let function = FunctionDefinition {
        name: "g".to_string(),
        content: vec![BasicBlock {
            name: Some("bb0".to_string()),
            content: vec![
                phi("x", "bb1", "a", "bb2", "a"),
                phi("y", "bb1", "b", "bb2", "c"),
                phi("z", "bb1", "x", "bb2", "y"),
                IRStatement::Ret(Ret { value: None }),
            ],
        }],
    };
    let groups = collect_phied_registers(&function);
    assert_eq!(groups.len(), 2);
    assert_eq!(groups[0].len(), 4);
    assert!(groups[0].contains(&RegisterName("z".to_string())));
    assert!(groups[0].contains(&RegisterName("y".to_string())));
    assert_eq!(groups[1].len(), 3);
}

#[test]
fn constants_keep_phi_order_within_a_block() {
    let function = FunctionDefinition {
        name: "h".to_string(),
        content: vec![BasicBlock {
            name: Some("bb9".to_string()),
            content: vec![
                IRStatement::Phi(Phi {
                    to: RegisterName("p".to_string()),
                    from: vec![
                        PhiSource { value: Quantity::NumberLiteral(7), block: "bb1".to_string() },
                        PhiSource {
                            value: Quantity::RegisterName(RegisterName("q".to_string())),
                            block: "bb2".to_string(),
                        },
                    ],
                }),
                IRStatement::Phi(Phi {
                    to: RegisterName("r".to_string()),
                    from: vec![PhiSource { value: Quantity::NumberLiteral(-3), block: "bb1".to_string() }],
                }),
            ],
        }],
    };
    let mut register_assign = NameMap::new();
    register_assign.insert("p".to_string(), RegisterAssign::StackValue(8));
    register_assign.insert("r".to_string(), RegisterAssign::Register("t3".to_string()));
    let result = collect_phi_constant_assign(&function, &register_assign);
    assert_eq!(result.len(), 1);
    assert!(result.get("bb2").is_none());
    let bb1 = result.get("bb1").unwrap();
    assert_eq!(
        bb1,
        &vec![
            (RegisterAssign::StackValue(8), 7),
            (RegisterAssign::Register("t3".to_string()), -3)
        ]
    );
}

#[test]
fn name_map_insert_replaces() {
    let mut map = NameMap::new();
    map.insert("a".to_string(), 1u32);
    map.insert("b".to_string(), 2u32);
    map.insert("a".to_string(), 3u32);
    assert_eq!(map.len(), 2);
    assert_eq!(map.get("a"), Some(&3));
    assert_eq!(map.get("c"), None);
}

#[test]
fn register_assigns_are_shown() {
    assert_eq!(RegisterAssign::Register("t0".to_string()).to_string(), "t0");
    assert_eq!(
        RegisterAssign::MultipleRegisters(vec!["t0".to_string(), "t1".to_string(), "t2".to_string()]).to_string(),
        "t0,t1,t2"
    );
    assert_eq!(RegisterAssign::MultipleRegisters(vec![]).to_string(), "");
    assert_eq!(RegisterAssign::StackRef(16).to_string(), "alias to 16(sp)");
    assert_eq!(RegisterAssign::StackValue(4).to_string(), "4(sp)");
}
