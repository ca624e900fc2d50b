use come::lowering::{lower_function_type, FunctionHeader};
use come::ir::{BinaryCalculate, BinaryOperation, Branch, BranchType, DataType, Integer, Quantity, RegisterName, UnaryCalculate, UnaryOperation};
use come::lowering::{generate_if_condition, lower_binary_calculate, lower_type, lower_unary_calculate, put_value_onto_stack, ValType, WasmInstruction};
use come::name_map::NameMap;

fn integer(width: usize) -> DataType {
    DataType::Integer(Integer { signed: true, width })
}

fn reg(name: &str) -> RegisterName {
    RegisterName(name.to_string())
}

fn ids() -> NameMap<u32> {
    let mut ids = NameMap::new();
    ids.insert("a".to_string(), 0);
    ids.insert("b".to_string(), 1);
    ids.insert("c".to_string(), 2);
    ids
}

#[test]
fn lower_type_picks_the_width() {
    assert_eq!(lower_type(&integer(32)), ValType::I32);
    assert_eq!(lower_type(&integer(64)), ValType::I64);
}

#[test]
fn values_go_onto_the_stack() {
    let mut result = Vec::new();
    put_value_onto_stack(&Quantity::RegisterName(reg("b")), &ids(), &mut result, ValType::I32);
    put_value_onto_stack(&Quantity::NumberLiteral(0x1_0000_0005), &ids(), &mut result, ValType::I32);
    put_value_onto_stack(&Quantity::NumberLiteral(-7), &ids(), &mut result, ValType::I64);
    assert_eq!(
        result,
        vec![WasmInstruction::LocalGet(1), WasmInstruction::I32Const(5), WasmInstruction::I64Const(-7)]
    );
}

#[test]
fn binary_and_unary_calculations_lower_to_stack_code() {
    let mut result = Vec::new();
    let add = BinaryCalculate {
        operation: BinaryOperation::Add,
        operand1: Quantity::RegisterName(reg("a")),
        operand2: Quantity::NumberLiteral(3),
        to: reg("c"),
        data_type: integer(32),
    };
    lower_binary_calculate(&mut result, &ids(), &add);
    assert_eq!(
        result,
        vec![WasmInstruction::LocalGet(0), WasmInstruction::I32Const(3), WasmInstruction::I32Add, WasmInstruction::LocalSet(2)]
    );
    let mut result = Vec::new();
    let shift = BinaryCalculate {
        operation: BinaryOperation::AthematicShiftRight,
        operand1: Quantity::RegisterName(reg("a")),
        operand2: Quantity::RegisterName(reg("b")),
        to: reg("a"),
        data_type: integer(64),
    };
    lower_binary_calculate(&mut result, &ids(), &shift);
    assert_eq!(
        result,
        vec![WasmInstruction::LocalGet(0), WasmInstruction::LocalGet(1), WasmInstruction::I64ShrS, WasmInstruction::LocalSet(0)]
    );
    let mut result = Vec::new();
    let neg = UnaryCalculate { operation: UnaryOperation::Neg, operand: Quantity::RegisterName(reg("b")), to: reg("c"), data_type: integer(64) };
    lower_unary_calculate(&mut result, &ids(), &neg);
    assert_eq!(
        result,
        vec![WasmInstruction::I64Const(0), WasmInstruction::LocalGet(1), WasmInstruction::I64Sub, WasmInstruction::LocalSet(2)]
    );
}

#[test]
fn branch_conditions_take_the_type_of_a_register() {
    let mut types = NameMap::new();
    types.insert("b".to_string(), integer(32));
    let branch = Branch {
        branch_type: BranchType::LT,
        operand1: Quantity::NumberLiteral(1),
        operand2: Quantity::RegisterName(reg("b")),
        success_label: "x".to_string(),
        failure_label: "y".to_string(),
    };
    let mut result = Vec::new();
    generate_if_condition(&branch, &types, &ids(), &mut result);
    assert_eq!(result, vec![WasmInstruction::I32Const(1), WasmInstruction::LocalGet(1), WasmInstruction::I32LtS]);
    let both_numbers = Branch { operand2: Quantity::NumberLiteral(2), branch_type: BranchType::NE, ..branch };
    let mut result = Vec::new();
    generate_if_condition(&both_numbers, &types, &ids(), &mut result);
    assert_eq!(result, vec![WasmInstruction::I64Const(1), WasmInstruction::I64Const(2), WasmInstruction::I64Ne]);
}

use come::control_flow::element::ControlFlowElement;
use come::control_flow::selector::{CFSelector, CFSelectorSegment};
use come::ir::{Jump, Ret};
use come::lowering::{lower_control_flow_element, lower_function_body, lower_statement, WasmStatement};

fn jump(label: &str) -> WasmStatement {
    WasmStatement::Jump(Jump { label: label.to_string() })
}

fn block_index(names: &[&str]) -> NameMap<usize> {
    let mut index = NameMap::new();
    for (i, name) in names.iter().enumerate() {
        index.insert(name.to_string(), i);
    }
    index
}

#[test]
fn function_body_with_a_loop() {
    let body = vec![
        vec![
            WasmStatement::BinaryCalculate(BinaryCalculate {
                operation: BinaryOperation::Add,
                operand1: Quantity::RegisterName(reg("a")),
                operand2: Quantity::NumberLiteral(1),
                to: reg("a"),
                data_type: integer(32),
            }),
            jump("bb1"),
        ],
        vec![jump("bb2")],
        vec![WasmStatement::Branch(Branch {
            branch_type: BranchType::LT,
            operand1: Quantity::RegisterName(reg("a")),
            operand2: Quantity::NumberLiteral(10),
            success_label: "bb1".to_string(),
            failure_label: "bb3".to_string(),
        })],
        vec![WasmStatement::Ret(Ret { value: None })],
    ];
    let root = ControlFlowElement::new_block(vec![
        ControlFlowElement::new_node(0),
        ControlFlowElement::Loop { content: vec![ControlFlowElement::new_node(1), ControlFlowElement::new_node(2)] },
        ControlFlowElement::new_node(3),
    ]);
    let locals = vec![(reg("a"), integer(32))];
    let (types, instructions) = lower_function_body(&body, &root, &block_index(&["bb0", "bb1", "bb2", "bb3"]), &locals);
    assert_eq!(types, vec![ValType::I32]);
    assert_eq!(
        instructions,
        vec![
            WasmInstruction::LocalGet(0),
            WasmInstruction::I32Const(1),
            WasmInstruction::I32Add,
            WasmInstruction::LocalSet(0),
            WasmInstruction::Loop,
            WasmInstruction::BrIf(1),
            WasmInstruction::End,
            WasmInstruction::Return,
        ]
    );
}

fn if_element() -> ControlFlowElement {
    ControlFlowElement::If {
        condition: Box::new(ControlFlowElement::new_node(0)),
        on_success: vec![ControlFlowElement::new_node(1)],
        on_failure: vec![ControlFlowElement::new_node(2)],
    }
}

#[test]
fn if_element_lowers_condition_and_branches() {
    let body = vec![
        vec![WasmStatement::Branch(Branch {
            branch_type: BranchType::EQ,
            operand1: Quantity::RegisterName(reg("a")),
            operand2: Quantity::NumberLiteral(0),
            success_label: "bb1".to_string(),
            failure_label: "bb2".to_string(),
        })],
        vec![WasmStatement::Ret(Ret { value: None })],
        vec![WasmStatement::Ret(Ret { value: None })],
    ];
    let root = ControlFlowElement::new_block(vec![if_element()]);
    let mut types = NameMap::new();
    types.insert("a".to_string(), integer(64));
    let mut result = Vec::new();
    lower_control_flow_element(
        &mut result,
        &body,
        &if_element(),
        CFSelector::from_segment(CFSelectorSegment::ContentAtIndex(0)),
        &block_index(&["bb0", "bb1", "bb2"]),
        &ids(),
        &root,
        &types,
    );
    assert_eq!(
        result,
        vec![
            WasmInstruction::LocalGet(0),
            WasmInstruction::I64Const(0),
            WasmInstruction::I64Eq,
            WasmInstruction::If,
            WasmInstruction::Return,
            WasmInstruction::Else,
            WasmInstruction::Return,
            WasmInstruction::End,
        ]
    );
    let mut single = Vec::new();
    lower_statement(&mut single, &ids(), &jump("bb0"), 2, &root, &types, &block_index(&["bb0", "bb1", "bb2"]));
    assert_eq!(single, vec![WasmInstruction::BrIf(0)]);
}

#[test]
fn levels_before_counts_only_for_earlier_targets() {
    let earlier = CFSelector::from_segment(CFSelectorSegment::ContentAtIndex(0));
    let current = CFSelector::from_segment(CFSelectorSegment::ContentAtIndex(2));
    assert_eq!(earlier.levels_before(&current), Some(1));
    assert_eq!(current.levels_before(&earlier), None);
}

#[test]
fn function_type_lowers_parameters_and_result() {
    let i32_type = come::ir::DataType::Integer(come::ir::Integer { signed: true, width: 32 });
    let i64_type = come::ir::DataType::Integer(come::ir::Integer { signed: true, width: 64 });
    let header = FunctionHeader {
        name: "f".to_string(),
        parameter_types: vec![i32_type, i64_type.clone()],
        return_type: i64_type,
    };
    assert_eq!(lower_function_type(&header), (vec![come::lowering::ValType::I32, come::lowering::ValType::I64], vec![come::lowering::ValType::I64]));
    let header = FunctionHeader { name: "g".to_string(), parameter_types: vec![], return_type: come::ir::DataType::Unit };
    assert_eq!(lower_function_type(&header), (vec![], vec![]));
}
