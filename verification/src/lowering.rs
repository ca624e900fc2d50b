//! Lowering statements of a function to WebAssembly instructions.
use vstd::prelude::*;

use crate::control_flow::element::{lemma_views, views, CFTree, ControlFlowElement};
use crate::control_flow::selector::{common_prefix_len, count_content, spec_is_after_from, CFSelector, CFSelectorSegment};
use crate::ir::{RegisterName, BinaryCalculate, BinaryOperation, Branch, BranchType, DataType, Jump, Quantity, Ret, UnaryCalculate, UnaryOperation};
use crate::name_map::NameMap;

verus! {

/// The WebAssembly value types that integers are lowered to.
#[derive(Debug, Clone, Copy, PartialEq, Eq, Structural)]
pub enum ValType {
    I32,
    I64,
}

/// The WebAssembly instructions that statements are lowered to. Blocks, loops and `if`s take
/// no value.
#[derive(Debug, Clone, Copy, PartialEq, Eq, Structural)]
pub enum WasmInstruction {
    LocalGet(u32),
    LocalSet(u32),
    I32Const(i32),
    I64Const(i64),
    I32Add,
    I64Add,
    I32Sub,
    I64Sub,
    I32LtS,
    I64LtS,
    I32LeS,
    I64LeS,
    I32GtS,
    I64GtS,
    I32GeS,
    I64GeS,
    I32Eq,
    I64Eq,
    I32Ne,
    I64Ne,
    I32Or,
    I64Or,
    I32Xor,
    I64Xor,
    I32And,
    I64And,
    I32Shl,
    I64Shl,
    I32ShrU,
    I64ShrU,
    I32ShrS,
    I64ShrS,
    I32Eqz,
    Block,
    Loop,
    If,
    Else,
    End,
    BrIf(u32),
    Return,
}

/// The value type an integer type is lowered to: signed 32- and 64-bit integers only.
pub open spec fn lowered_type(t: DataType) -> Option<ValType> {
    match t {
        DataType::Integer(i) => if i.signed && i.width == 32 {
            Some(ValType::I32)
        } else if i.signed && i.width == 64 {
            Some(ValType::I64)
        } else {
            None
        },
        _ => None,
    }
}

/// The value type `t` is lowered to.
pub fn lower_type(t: &DataType) -> (res: ValType)
    requires
        lowered_type(*t) is Some,
    ensures
        Some(res) == lowered_type(*t),
{
    match t {
        DataType::Integer(i) => if i.signed && i.width == 32 {
            ValType::I32
        } else {
            ValType::I64
        },
        _ => ValType::I32,
    }
}

/// The header of a function as its type is lowered: the types of its parameters and the type
/// of its result, `Unit` where it returns none.
pub struct FunctionHeader {
    pub name: String,
    pub parameter_types: Vec<DataType>,
    pub return_type: DataType,
}

/// The value types of a function: one for each parameter in order, and one for the result
/// unless it returns none.
pub fn lower_function_type(header: &FunctionHeader) -> (res: (Vec<ValType>, Vec<ValType>))
    requires
        forall|k: int| 0 <= k < header.parameter_types@.len() ==> lowered_type(#[trigger] header.parameter_types@[k]) is Some,
        !(header.return_type is Unit) ==> lowered_type(header.return_type) is Some,
    ensures
        res.0@.len() == header.parameter_types@.len(),
        forall|k: int| 0 <= k < res.0@.len() ==> Some(#[trigger] res.0@[k]) == lowered_type(header.parameter_types@[k]),
        res.1@ == if header.return_type is Unit {
            Seq::<ValType>::empty()
        } else {
            seq![lowered_type(header.return_type)->0]
        },
{
    let mut parameter_types: Vec<ValType> = Vec::new();
    let mut k: usize = 0;
    while k < header.parameter_types.len()
        invariant
            k <= header.parameter_types@.len(),
            parameter_types@.len() == k,
            forall|j: int| 0 <= j < header.parameter_types@.len() ==> lowered_type(#[trigger] header.parameter_types@[j]) is Some,
            forall|j: int| 0 <= j < k ==> Some(#[trigger] parameter_types@[j]) == lowered_type(header.parameter_types@[j]),
        decreases header.parameter_types@.len() - k,
    {
        let t = lower_type(&header.parameter_types[k]);
        parameter_types.push(t);
        k = k + 1;
    }
    let return_type = match &header.return_type {
        DataType::Unit => Vec::new(),
        t => {
            let mut v = Vec::new();
            v.push(lower_type(t));
            v
        },
    };
    proof {
        if !(header.return_type is Unit) {
            assert(return_type@ =~= seq![lowered_type(header.return_type)->0]);
        }
    }
    (parameter_types, return_type)
}

/// `q` can be put onto the stack: a register with a local index, or a number.
pub open spec fn placeable(q: Quantity, ids: Map<Seq<char>, u32>) -> bool {
    match q {
        Quantity::RegisterName(r) => ids.contains_key(r.0@),
        Quantity::NumberLiteral(_) => true,
        _ => false,
    }
}

/// The instruction that puts `q` onto the stack: a read of its local, or the number as a
/// constant of type `t`, cut to 32 bits for `I32`.
pub open spec fn value_instruction(q: Quantity, ids: Map<Seq<char>, u32>, t: ValType) -> WasmInstruction {
    match q {
        Quantity::RegisterName(r) => WasmInstruction::LocalGet(ids[r.0@]),
        Quantity::NumberLiteral(n) => match t {
            ValType::I32 => WasmInstruction::I32Const(n as i32),
            ValType::I64 => WasmInstruction::I64Const(n),
        },
        _ => WasmInstruction::Return,
    }
}

/// Appends the instruction that puts `value` onto the stack as a value of type `data_type`.
pub fn put_value_onto_stack(value: &Quantity, register_name_id_map: &NameMap<u32>, result: &mut Vec<WasmInstruction>,
    data_type: ValType)
    requires
        register_name_id_map.wf(),
        placeable(*value, register_name_id_map@),
    ensures
        final(result)@ == old(result)@.push(value_instruction(*value, register_name_id_map@, data_type)),
{
    match value {
        Quantity::RegisterName(register) => {
            let register_id = match register_name_id_map.get(register.0.as_str()) {
                Some(id) => *id,
                None => 0,
            };
            result.push(WasmInstruction::LocalGet(register_id));
        },
        Quantity::NumberLiteral(n) => {
            match data_type {
                ValType::I32 => result.push(WasmInstruction::I32Const(*n as i32)),
                ValType::I64 => result.push(WasmInstruction::I64Const(*n)),
            }
        },
        _ => {
            assert(false);
        },
    }
}

/// The instruction of a binary operation on values of type `t`.
pub open spec fn binary_instruction(op: BinaryOperation, t: ValType) -> WasmInstruction {
    let wide = t == ValType::I64;
    match op {
        BinaryOperation::Add => if wide { WasmInstruction::I64Add } else { WasmInstruction::I32Add },
        BinaryOperation::LessThan => if wide { WasmInstruction::I64LtS } else { WasmInstruction::I32LtS },
        BinaryOperation::LessOrEqualThan => if wide { WasmInstruction::I64LeS } else { WasmInstruction::I32LeS },
        BinaryOperation::GreaterThan => if wide { WasmInstruction::I64GtS } else { WasmInstruction::I32GtS },
        BinaryOperation::GreaterOrEqualThan => if wide { WasmInstruction::I64GeS } else { WasmInstruction::I32GeS },
        BinaryOperation::Equal => if wide { WasmInstruction::I64Eq } else { WasmInstruction::I32Eq },
        BinaryOperation::NotEqual => if wide { WasmInstruction::I64Ne } else { WasmInstruction::I32Ne },
        BinaryOperation::Sub => if wide { WasmInstruction::I64Sub } else { WasmInstruction::I32Sub },
        BinaryOperation::Or => if wide { WasmInstruction::I64Or } else { WasmInstruction::I32Or },
        BinaryOperation::Xor => if wide { WasmInstruction::I64Xor } else { WasmInstruction::I32Xor },
        BinaryOperation::And => if wide { WasmInstruction::I64And } else { WasmInstruction::I32And },
        BinaryOperation::LogicalShiftLeft => if wide { WasmInstruction::I64Shl } else { WasmInstruction::I32Shl },
        BinaryOperation::LogicalShiftRight => if wide { WasmInstruction::I64ShrU } else { WasmInstruction::I32ShrU },
        BinaryOperation::AthematicShiftRight => if wide { WasmInstruction::I64ShrS } else { WasmInstruction::I32ShrS },
    }
}

/// The instruction of a binary operation on values of type `t`.
fn binary_instruction_of(op: BinaryOperation, t: ValType) -> (res: WasmInstruction)
    ensures
        res == binary_instruction(op, t),
{
    let wide = t == ValType::I64;
    match op {
        BinaryOperation::Add => if wide { WasmInstruction::I64Add } else { WasmInstruction::I32Add },
        BinaryOperation::LessThan => if wide { WasmInstruction::I64LtS } else { WasmInstruction::I32LtS },
        BinaryOperation::LessOrEqualThan => if wide { WasmInstruction::I64LeS } else { WasmInstruction::I32LeS },
        BinaryOperation::GreaterThan => if wide { WasmInstruction::I64GtS } else { WasmInstruction::I32GtS },
        BinaryOperation::GreaterOrEqualThan => if wide { WasmInstruction::I64GeS } else { WasmInstruction::I32GeS },
        BinaryOperation::Equal => if wide { WasmInstruction::I64Eq } else { WasmInstruction::I32Eq },
        BinaryOperation::NotEqual => if wide { WasmInstruction::I64Ne } else { WasmInstruction::I32Ne },
        BinaryOperation::Sub => if wide { WasmInstruction::I64Sub } else { WasmInstruction::I32Sub },
        BinaryOperation::Or => if wide { WasmInstruction::I64Or } else { WasmInstruction::I32Or },
        BinaryOperation::Xor => if wide { WasmInstruction::I64Xor } else { WasmInstruction::I32Xor },
        BinaryOperation::And => if wide { WasmInstruction::I64And } else { WasmInstruction::I32And },
        BinaryOperation::LogicalShiftLeft => if wide { WasmInstruction::I64Shl } else { WasmInstruction::I32Shl },
        BinaryOperation::LogicalShiftRight => if wide { WasmInstruction::I64ShrU } else { WasmInstruction::I32ShrU },
        BinaryOperation::AthematicShiftRight => if wide { WasmInstruction::I64ShrS } else { WasmInstruction::I32ShrS },
    }
}

/// The local index of the register `name`.
fn local_index(register_name_id_map: &NameMap<u32>, name: &String) -> (res: u32)
    requires
        register_name_id_map.wf(),
        register_name_id_map@.contains_key(name@),
    ensures
        res == register_name_id_map@[name@],
{
    match register_name_id_map.get(name.as_str()) {
        Some(id) => *id,
        None => 0,
    }
}

/// Whether a binary calculation can be lowered: its type is a signed 32- or 64-bit integer,
/// its operands can be put onto the stack, and its target has a local index.
pub open spec fn binary_lowerable(st: BinaryCalculate, ids: Map<Seq<char>, u32>) -> bool {
    &&& lowered_type(st.data_type) is Some
    &&& placeable(st.operand1, ids)
    &&& placeable(st.operand2, ids)
    &&& ids.contains_key(st.to.0@)
}

/// The instructions of a binary calculation: both operands onto the stack, the operation, and
/// the result into the target's local.
pub open spec fn binary_instructions(st: BinaryCalculate, ids: Map<Seq<char>, u32>) -> Seq<WasmInstruction> {
    let t = lowered_type(st.data_type)->0;
    seq![value_instruction(st.operand1, ids, t), value_instruction(st.operand2, ids, t),
        binary_instruction(st.operation, t), WasmInstruction::LocalSet(ids[st.to.0@])]
}

/// The value the WebAssembly binary instruction `i` computes from the two values `x` and `y` it
/// pops, with the type it works on: an `i32` instruction reads the low 32 bits of each as a
/// signed integer and wraps its sum or difference to 32 bits; a comparison gives 1 where it holds
/// and 0 where it does not; a shift shifts by the second value modulo the width. `None` for an
/// instruction that is not a binary operation.
pub open spec fn wasm_binary(i: WasmInstruction, x: i64, y: i64) -> Option<(ValType, int)> {
    let a = x as i32;
    let b = y as i32;
    match i {
        WasmInstruction::I32Add => Some((ValType::I32, (a + b) as i32 as int)),
        WasmInstruction::I64Add => Some((ValType::I64, (x + y) as i64 as int)),
        WasmInstruction::I32Sub => Some((ValType::I32, (a - b) as i32 as int)),
        WasmInstruction::I64Sub => Some((ValType::I64, (x - y) as i64 as int)),
        WasmInstruction::I32LtS => Some((ValType::I32, if a < b { 1int } else { 0int })),
        WasmInstruction::I64LtS => Some((ValType::I64, if x < y { 1int } else { 0int })),
        WasmInstruction::I32LeS => Some((ValType::I32, if a <= b { 1int } else { 0int })),
        WasmInstruction::I64LeS => Some((ValType::I64, if x <= y { 1int } else { 0int })),
        WasmInstruction::I32GtS => Some((ValType::I32, if a > b { 1int } else { 0int })),
        WasmInstruction::I64GtS => Some((ValType::I64, if x > y { 1int } else { 0int })),
        WasmInstruction::I32GeS => Some((ValType::I32, if a >= b { 1int } else { 0int })),
        WasmInstruction::I64GeS => Some((ValType::I64, if x >= y { 1int } else { 0int })),
        WasmInstruction::I32Eq => Some((ValType::I32, if a == b { 1int } else { 0int })),
        WasmInstruction::I64Eq => Some((ValType::I64, if x == y { 1int } else { 0int })),
        WasmInstruction::I32Ne => Some((ValType::I32, if a != b { 1int } else { 0int })),
        WasmInstruction::I64Ne => Some((ValType::I64, if x != y { 1int } else { 0int })),
        WasmInstruction::I32Or => Some((ValType::I32, (a | b) as int)),
        WasmInstruction::I64Or => Some((ValType::I64, (x | y) as int)),
        WasmInstruction::I32Xor => Some((ValType::I32, (a ^ b) as int)),
        WasmInstruction::I64Xor => Some((ValType::I64, (x ^ y) as int)),
        WasmInstruction::I32And => Some((ValType::I32, (a & b) as int)),
        WasmInstruction::I64And => Some((ValType::I64, (x & y) as int)),
        WasmInstruction::I32Shl => Some((ValType::I32, (a << ((b as u32) % 32u32)) as int)),
        WasmInstruction::I64Shl => Some((ValType::I64, (x << ((y as u64) % 64u64)) as int)),
        WasmInstruction::I32ShrU => Some((ValType::I32, ((a as u32) >> ((b as u32) % 32u32)) as i32 as int)),
        WasmInstruction::I64ShrU => Some((ValType::I64, ((x as u64) >> ((y as u64) % 64u64)) as i64 as int)),
        WasmInstruction::I32ShrS => Some((ValType::I32, (a >> ((b as u32) % 32u32)) as int)),
        WasmInstruction::I64ShrS => Some((ValType::I64, (x >> ((y as u64) % 64u64)) as int)),
        _ => None,
    }
}

/// The value a binary calculation of type `t` gives on `x` and `y`, each taken as a value of
/// that type (the low 32 bits as a signed integer for `i32`): the sum or difference wrapped to the
/// width; 1 where a comparison holds and 0 where it does not; the bitwise `or`, `xor` and `and`;
/// a logical shift left or right, or an arithmetic shift right, by `y` modulo the width.
pub open spec fn calculation_value(op: BinaryOperation, t: ValType, x: i64, y: i64) -> int {
    match t {
        ValType::I32 => {
            let a = x as i32;
            let b = y as i32;
            let k = (b as u32) % 32u32;
            match op {
                BinaryOperation::Add => (a + b) as i32 as int,
                BinaryOperation::Sub => (a - b) as i32 as int,
                BinaryOperation::LessThan => if a < b { 1 } else { 0 },
                BinaryOperation::LessOrEqualThan => if a <= b { 1 } else { 0 },
                BinaryOperation::GreaterThan => if a > b { 1 } else { 0 },
                BinaryOperation::GreaterOrEqualThan => if a >= b { 1 } else { 0 },
                BinaryOperation::Equal => if a == b { 1 } else { 0 },
                BinaryOperation::NotEqual => if a != b { 1 } else { 0 },
                BinaryOperation::Or => (a | b) as int,
                BinaryOperation::Xor => (a ^ b) as int,
                BinaryOperation::And => (a & b) as int,
                BinaryOperation::LogicalShiftLeft => (a << k) as int,
                BinaryOperation::LogicalShiftRight => ((a as u32) >> k) as i32 as int,
                BinaryOperation::AthematicShiftRight => (a >> k) as int,
            }
        },
        ValType::I64 => {
            let k = (y as u64) % 64u64;
            match op {
                BinaryOperation::Add => (x + y) as i64 as int,
                BinaryOperation::Sub => (x - y) as i64 as int,
                BinaryOperation::LessThan => if x < y { 1 } else { 0 },
                BinaryOperation::LessOrEqualThan => if x <= y { 1 } else { 0 },
                BinaryOperation::GreaterThan => if x > y { 1 } else { 0 },
                BinaryOperation::GreaterOrEqualThan => if x >= y { 1 } else { 0 },
                BinaryOperation::Equal => if x == y { 1 } else { 0 },
                BinaryOperation::NotEqual => if x != y { 1 } else { 0 },
                BinaryOperation::Or => (x | y) as int,
                BinaryOperation::Xor => (x ^ y) as int,
                BinaryOperation::And => (x & y) as int,
                BinaryOperation::LogicalShiftLeft => (x << k) as int,
                BinaryOperation::LogicalShiftRight => ((x as u64) >> k) as i64 as int,
                BinaryOperation::AthematicShiftRight => (x >> k) as int,
            }
        },
    }
}

/// The value an instruction pushes onto the stack, given the values of the locals: a local's
/// value, or a constant (an `i32` constant as the `i64` of the same value).
pub open spec fn pushed_value(i: WasmInstruction, locals: Map<u32, i64>) -> Option<i64> {
    match i {
        WasmInstruction::LocalGet(k) => Some(locals[k]),
        WasmInstruction::I32Const(c) => Some(c as i64),
        WasmInstruction::I64Const(c) => Some(c),
        _ => None,
    }
}

/// The value of an operand, the locals holding the registers at `ids`: a register's local's
/// value, or the number itself.
pub open spec fn operand_value(q: Quantity, ids: Map<Seq<char>, u32>, locals: Map<u32, i64>) -> i64 {
    match q {
        Quantity::RegisterName(r) => locals[ids[r.0@]],
        Quantity::NumberLiteral(n) => n,
        _ => 0,
    }
}

/// Running two pushes, a binary instruction and a `local.set`: the local set, the type the
/// instruction works on, and the value stored. `None` for any other shape of code.
pub open spec fn run_binary(code: Seq<WasmInstruction>, locals: Map<u32, i64>) -> Option<(u32, ValType, int)> {
    if code.len() == 4 && pushed_value(code[0], locals) is Some && pushed_value(code[1], locals) is Some
        && code[3] is LocalSet {
        match wasm_binary(code[2], pushed_value(code[0], locals)->0, pushed_value(code[1], locals)->0) {
            Some((t, v)) => Some((code[3]->LocalSet_0, t, v)),
            None => None,
        }
    } else {
        None
    }
}

/// The WebAssembly instruction of each binary operation computes that operation on values of the
/// type it is lowered for.
pub proof fn lemma_binary_instruction_computes(op: BinaryOperation, t: ValType)
    ensures
        forall|x: i64, y: i64| #[trigger] wasm_binary(binary_instruction(op, t), x, y) == Some((t, calculation_value(op, t, x, y))),
{
}

/// Running the code a binary calculation is lowered to, whatever values the locals hold, stores
/// into the target's local the value of the calculation on its first and second operand, in that
/// order, at the type of the calculation.
pub proof fn lemma_binary_lowering_computes(st: BinaryCalculate, ids: Map<Seq<char>, u32>, locals: Map<u32, i64>)
    requires
        binary_lowerable(st, ids),
    ensures
        ({
            let t = lowered_type(st.data_type)->0;
            run_binary(binary_instructions(st, ids), locals) == Some((ids[st.to.0@], t,
                calculation_value(st.operation, t, operand_value(st.operand1, ids, locals), operand_value(st.operand2, ids, locals))))
        }),
{
    let t = lowered_type(st.data_type)->0;
    let code = binary_instructions(st, ids);
    let x = operand_value(st.operand1, ids, locals);
    let y = operand_value(st.operand2, ids, locals);
    let px = pushed_value(code[0], locals)->0;
    let py = pushed_value(code[1], locals)->0;
    assert(pushed_value(code[0], locals) is Some);
    assert(pushed_value(code[1], locals) is Some);
    assert(px as i32 == x as i32) by {
        if let Quantity::NumberLiteral(n) = st.operand1 {
            if t == ValType::I32 {
                assert(((n as i32) as i64) as i32 == n as i32) by (bit_vector);
            }
        }
    }
    assert(py as i32 == y as i32) by {
        if let Quantity::NumberLiteral(n) = st.operand2 {
            if t == ValType::I32 {
                assert(((n as i32) as i64) as i32 == n as i32) by (bit_vector);
            }
        }
    }
    assert(t == ValType::I64 ==> px == x && py == y);
    lemma_binary_instruction_computes(st.operation, t);
    assert(wasm_binary(code[2], px, py) == Some((t, calculation_value(st.operation, t, px, py))));
    assert(calculation_value(st.operation, t, px, py) == calculation_value(st.operation, t, x, y));
}

/// Appends the instructions of a binary calculation.
pub fn lower_binary_calculate(result: &mut Vec<WasmInstruction>, register_name_id_map: &NameMap<u32>,
    binary_calculate: &BinaryCalculate)
    requires
        register_name_id_map.wf(),
        binary_lowerable(*binary_calculate, register_name_id_map@),
    ensures
        final(result)@ == old(result)@ + binary_instructions(*binary_calculate, register_name_id_map@),
{
    let data_type = lower_type(&binary_calculate.data_type);
    put_value_onto_stack(&binary_calculate.operand1, register_name_id_map, result, data_type);
    put_value_onto_stack(&binary_calculate.operand2, register_name_id_map, result, data_type);
    result.push(binary_instruction_of(binary_calculate.operation, data_type));
    let result_register_id = local_index(register_name_id_map, &binary_calculate.to.0);
    result.push(WasmInstruction::LocalSet(result_register_id));
    assert(result@ =~= old(result)@ + binary_instructions(*binary_calculate, register_name_id_map@));
}

/// Whether a unary calculation can be lowered: a negation of a signed 32- or 64-bit integer
/// that can be put onto the stack, into a register with a local index.
pub open spec fn unary_lowerable(st: UnaryCalculate, ids: Map<Seq<char>, u32>) -> bool {
    &&& lowered_type(st.data_type) is Some
    &&& st.operation == UnaryOperation::Neg
    &&& placeable(st.operand, ids)
    &&& ids.contains_key(st.to.0@)
}

/// The instructions of a negation: zero, the operand, a subtraction, and the result into the
/// target's local.
pub open spec fn unary_instructions(st: UnaryCalculate, ids: Map<Seq<char>, u32>) -> Seq<WasmInstruction> {
    let t = lowered_type(st.data_type)->0;
    seq![if t == ValType::I64 { WasmInstruction::I64Const(0) } else { WasmInstruction::I32Const(0) },
        value_instruction(st.operand, ids, t),
        if t == ValType::I64 { WasmInstruction::I64Sub } else { WasmInstruction::I32Sub },
        WasmInstruction::LocalSet(ids[st.to.0@])]
}

/// Appends the instructions of a unary calculation.
pub fn lower_unary_calculate(result: &mut Vec<WasmInstruction>, register_name_id_map: &NameMap<u32>,
    unary_calculate: &UnaryCalculate)
    requires
        register_name_id_map.wf(),
        unary_lowerable(*unary_calculate, register_name_id_map@),
    ensures
        final(result)@ == old(result)@ + unary_instructions(*unary_calculate, register_name_id_map@),
{
    let data_type = lower_type(&unary_calculate.data_type);
    match data_type {
        ValType::I32 => result.push(WasmInstruction::I32Const(0)),
        ValType::I64 => result.push(WasmInstruction::I64Const(0)),
    }
    put_value_onto_stack(&unary_calculate.operand, register_name_id_map, result, data_type);
    match data_type {
        ValType::I32 => result.push(WasmInstruction::I32Sub),
        ValType::I64 => result.push(WasmInstruction::I64Sub),
    }
    let result_register_id = local_index(register_name_id_map, &unary_calculate.to.0);
    result.push(WasmInstruction::LocalSet(result_register_id));
    assert(result@ =~= old(result)@ + unary_instructions(*unary_calculate, register_name_id_map@));
}

/// The type a branch compares its operands as: that of its first operand that is a register,
/// or a signed 64-bit integer where both are numbers.
pub open spec fn branch_operation_type(st: Branch, types: Map<Seq<char>, DataType>) -> Option<DataType> {
    match st.operand1 {
        Quantity::RegisterName(r) => Some(types[r.0@]),
        Quantity::NumberLiteral(_) => match st.operand2 {
            Quantity::RegisterName(r) => Some(types[r.0@]),
            Quantity::NumberLiteral(_) => Some(DataType::Integer(crate::ir::Integer { signed: true, width: 64 })),
            _ => None,
        },
        _ => match st.operand2 {
            Quantity::RegisterName(r) => Some(types[r.0@]),
            _ => None,
        },
    }
}

/// Whether the comparison of a branch can be lowered: its operation type is found, with a
/// type for the register it is read from, and lowers to a value type.
pub open spec fn branch_type_known(st: Branch, types: Map<Seq<char>, DataType>) -> bool {
    &&& (st.operand1 matches Quantity::RegisterName(r) ==> types.contains_key(r.0@))
    &&& (st.operand2 matches Quantity::RegisterName(r) ==> st.operand1 is RegisterName || types.contains_key(r.0@))
    &&& branch_operation_type(st, types) matches Some(t) && lowered_type(t) is Some
}

/// The value type a branch compares its operands as.
pub fn decide_branch_operation_type(branch_statement: &Branch, register_type: &NameMap<DataType>) -> (res: ValType)
    requires
        register_type.wf(),
        branch_type_known(*branch_statement, register_type@),
    ensures
        Some(res) == lowered_type(branch_operation_type(*branch_statement, register_type@)->0),
{
    let register = match &branch_statement.operand1 {
        Quantity::RegisterName(r) => Some(r),
        _ => match &branch_statement.operand2 {
            Quantity::RegisterName(r) => Some(r),
            _ => None,
        },
    };
    match register {
        Some(r) => match register_type.get(r.0.as_str()) {
            Some(t) => lower_type(t),
            None => {
                assert(false);
                ValType::I64
            },
        },
        None => ValType::I64,
    }
}

/// The comparison instruction of a branch type on values of type `t`.
pub open spec fn comparison_instruction(b: BranchType, t: ValType) -> WasmInstruction {
    let wide = t == ValType::I64;
    match b {
        BranchType::EQ => if wide { WasmInstruction::I64Eq } else { WasmInstruction::I32Eq },
        BranchType::NE => if wide { WasmInstruction::I64Ne } else { WasmInstruction::I32Ne },
        BranchType::LT => if wide { WasmInstruction::I64LtS } else { WasmInstruction::I32LtS },
        BranchType::GE => if wide { WasmInstruction::I64GeS } else { WasmInstruction::I32GeS },
    }
}

/// The instructions that compute the condition of a branch: both operands onto the stack and
/// the comparison.
pub open spec fn if_condition_instructions(st: Branch, types: Map<Seq<char>, DataType>, ids: Map<Seq<char>, u32>)
    -> Seq<WasmInstruction> {
    let t = lowered_type(branch_operation_type(st, types)->0)->0;
    seq![value_instruction(st.operand1, ids, t), value_instruction(st.operand2, ids, t),
        comparison_instruction(st.branch_type, t)]
}

/// Appends the instructions that compute the condition of a branch.
pub fn generate_if_condition(branch_statement: &Branch, register_type: &NameMap<DataType>,
    register_name_id_map: &NameMap<u32>, result: &mut Vec<WasmInstruction>)
    requires
        register_type.wf(),
        register_name_id_map.wf(),
        branch_type_known(*branch_statement, register_type@),
        placeable(branch_statement.operand1, register_name_id_map@),
        placeable(branch_statement.operand2, register_name_id_map@),
    ensures
        final(result)@ == old(result)@ + if_condition_instructions(*branch_statement, register_type@, register_name_id_map@),
{
    let data_type = decide_branch_operation_type(branch_statement, register_type);
    put_value_onto_stack(&branch_statement.operand1, register_name_id_map, result, data_type);
    put_value_onto_stack(&branch_statement.operand2, register_name_id_map, result, data_type);
    let wide = data_type == ValType::I64;
    let comparison = match branch_statement.branch_type {
        BranchType::EQ => if wide { WasmInstruction::I64Eq } else { WasmInstruction::I32Eq },
        BranchType::NE => if wide { WasmInstruction::I64Ne } else { WasmInstruction::I32Ne },
        BranchType::LT => if wide { WasmInstruction::I64LtS } else { WasmInstruction::I32LtS },
        BranchType::GE => if wide { WasmInstruction::I64GeS } else { WasmInstruction::I32GeS },
    };
    result.push(comparison);
    assert(result@ =~= old(result)@ + if_condition_instructions(*branch_statement, register_type@, register_name_id_map@));
}

/// Whether a branch of type `b` holds of `x` and `y`, each taken as a value of type `t`.
pub open spec fn condition_holds(b: BranchType, t: ValType, x: i64, y: i64) -> bool {
    let (a, c) = match t {
        ValType::I32 => ((x as i32) as int, (y as i32) as int),
        ValType::I64 => (x as int, y as int),
    };
    match b {
        BranchType::EQ => a == c,
        BranchType::NE => a != c,
        BranchType::LT => a < c,
        BranchType::GE => a >= c,
    }
}

/// Running two pushes and a binary instruction: the type it works on and the value it leaves.
/// `None` for any other shape of code.
pub open spec fn run_condition(code: Seq<WasmInstruction>, locals: Map<u32, i64>) -> Option<(ValType, int)> {
    if code.len() == 3 && pushed_value(code[0], locals) is Some && pushed_value(code[1], locals) is Some {
        wasm_binary(code[2], pushed_value(code[0], locals)->0, pushed_value(code[1], locals)->0)
    } else {
        None
    }
}

/// Running the code that computes a branch's condition, whatever values the locals hold, leaves
/// 1 exactly where the branch's comparison holds of its first and second operand, in that order,
/// and 0 where it does not.
pub proof fn lemma_if_condition_computes(st: Branch, types: Map<Seq<char>, DataType>, ids: Map<Seq<char>, u32>,
    locals: Map<u32, i64>)
    requires
        branch_type_known(st, types),
        placeable(st.operand1, ids),
        placeable(st.operand2, ids),
    ensures
        ({
            let t = lowered_type(branch_operation_type(st, types)->0)->0;
            run_condition(if_condition_instructions(st, types, ids), locals) == Some((t,
                if condition_holds(st.branch_type, t, operand_value(st.operand1, ids, locals),
                    operand_value(st.operand2, ids, locals)) { 1int } else { 0int }))
        }),
{
    let t = lowered_type(branch_operation_type(st, types)->0)->0;
    let code = if_condition_instructions(st, types, ids);
    let x = operand_value(st.operand1, ids, locals);
    let y = operand_value(st.operand2, ids, locals);
    let px = pushed_value(code[0], locals)->0;
    let py = pushed_value(code[1], locals)->0;
    assert(pushed_value(code[0], locals) is Some);
    assert(pushed_value(code[1], locals) is Some);
    assert(px as i32 == x as i32) by {
        if let Quantity::NumberLiteral(n) = st.operand1 {
            if t == ValType::I32 {
                assert(((n as i32) as i64) as i32 == n as i32) by (bit_vector);
            }
        }
    }
    assert(py as i32 == y as i32) by {
        if let Quantity::NumberLiteral(n) = st.operand2 {
            if t == ValType::I32 {
                assert(((n as i32) as i64) as i32 == n as i32) by (bit_vector);
            }
        }
    }
    assert(t == ValType::I64 ==> px == x && py == y);
    assert(condition_holds(st.branch_type, t, px, py) == condition_holds(st.branch_type, t, x, y));
}

/// Running the code a negation is lowered to, whatever values the locals hold, stores into the
/// target's local zero minus the operand, wrapped to the width of the calculation's type.
pub proof fn lemma_negation_lowering_computes(st: UnaryCalculate, ids: Map<Seq<char>, u32>, locals: Map<u32, i64>)
    requires
        unary_lowerable(st, ids),
    ensures
        ({
            let t = lowered_type(st.data_type)->0;
            let x = operand_value(st.operand, ids, locals);
            run_binary(unary_instructions(st, ids), locals) == Some((ids[st.to.0@], t, match t {
                ValType::I32 => (0 - (x as i32)) as i32 as int,
                ValType::I64 => (0 - x) as i64 as int,
            }))
        }),
{
    let t = lowered_type(st.data_type)->0;
    let code = unary_instructions(st, ids);
    let x = operand_value(st.operand, ids, locals);
    let px = pushed_value(code[1], locals)->0;
    assert(pushed_value(code[0], locals) is Some);
    assert(pushed_value(code[1], locals) is Some);
    assert(px as i32 == x as i32) by {
        if let Quantity::NumberLiteral(n) = st.operand {
            if t == ValType::I32 {
                assert(((n as i32) as i64) as i32 == n as i32) by (bit_vector);
            }
        }
    }
    assert(t == ValType::I64 ==> px == x);
    assert(((0i32 as i64) as i32) == 0i32) by (bit_vector);
}

/// A statement of a basic block, as far as lowering to WebAssembly reads it.
#[derive(Debug, Clone, PartialEq, Eq)]
pub enum WasmStatement {
    UnaryCalculate(UnaryCalculate),
    BinaryCalculate(BinaryCalculate),
    Branch(Branch),
    Jump(Jump),
    Ret(Ret),
}

/// How many blocks or loops a branch from `current` back to `target` leaves, or `None` where
/// the target comes after `current`.
pub open spec fn levels(target: Seq<CFSelectorSegment>, current: Seq<CFSelectorSegment>) -> Option<usize> {
    if spec_is_after_from(target, current, 0) == Some(false) {
        None
    } else {
        Some(count_content(target.skip(common_prefix_len(target, current) as int)) as usize)
    }
}

/// The path is to the condition of an `if`.
pub open spec fn at_if_condition(path: Seq<CFSelectorSegment>) -> bool {
    path.len() > 0 && path.last() == CFSelectorSegment::IfCondition
}

/// How many levels a branch from basic block `from` to the block named `label` goes back.
pub open spec fn levels_to(label: Seq<char>, from: usize, root: CFTree, blocks: Map<Seq<char>, usize>) -> Option<usize> {
    levels(root.find(blocks[label])->0, root.find(from)->0)
}

/// A branch back by `levels`, where there is one.
pub open spec fn branch_back(levels: Option<usize>) -> Seq<WasmInstruction> {
    match levels {
        Some(l) => seq![WasmInstruction::BrIf(l as u32)],
        None => Seq::empty(),
    }
}

/// The instructions of a statement of basic block `bb_id`: a calculation; at the condition of
/// an `if`, the condition only, as the `if` itself follows from the element; elsewhere a branch back where the target comes before,
/// on success, then on failure (negating the condition where only failure goes back); a jump
/// back; or a return.
pub open spec fn statement_instructions(st: WasmStatement, bb_id: usize, root: CFTree, types: Map<Seq<char>, DataType>,
    ids: Map<Seq<char>, u32>, blocks: Map<Seq<char>, usize>) -> Seq<WasmInstruction> {
    match st {
        WasmStatement::UnaryCalculate(u) => unary_instructions(u, ids),
        WasmStatement::BinaryCalculate(b) => binary_instructions(b, ids),
        WasmStatement::Branch(br) => if at_if_condition(root.find(bb_id)->0) {
            if_condition_instructions(br, types, ids)
        } else {
            let success = levels_to(br.success_label@, bb_id, root, blocks);
            let failure = levels_to(br.failure_label@, bb_id, root, blocks);
            match success {
                Some(_) => branch_back(success) + branch_back(failure),
                None => match failure {
                    Some(_) => seq![WasmInstruction::I32Eqz] + branch_back(failure),
                    None => Seq::empty(),
                },
            }
        },
        WasmStatement::Jump(j) => branch_back(levels_to(j.label@, bb_id, root, blocks)),
        WasmStatement::Ret(_) => seq![WasmInstruction::Return],
    }
}

/// The block named `label` has an index, and the control flow holds it.
pub open spec fn target_known(label: Seq<char>, root: CFTree, blocks: Map<Seq<char>, usize>) -> bool {
    blocks.contains_key(label) && root.find(blocks[label]) is Some
}

/// Whether a statement of basic block `bb_id` can be lowered: the control flow holds the block,
/// calculations can be lowered, the condition of an `if` can be computed, and other branches
/// and jumps have known targets.
pub open spec fn statement_lowerable(st: WasmStatement, bb_id: usize, root: CFTree, types: Map<Seq<char>, DataType>,
    ids: Map<Seq<char>, u32>, blocks: Map<Seq<char>, usize>) -> bool {
    &&& root.find(bb_id) is Some
    &&& match st {
        WasmStatement::UnaryCalculate(u) => unary_lowerable(u, ids),
        WasmStatement::BinaryCalculate(b) => binary_lowerable(b, ids),
        WasmStatement::Branch(br) => if at_if_condition(root.find(bb_id)->0) {
            branch_type_known(br, types) && placeable(br.operand1, ids) && placeable(br.operand2, ids)
        } else {
            target_known(br.success_label@, root, blocks) && target_known(br.failure_label@, root, blocks)
        },
        WasmStatement::Jump(j) => target_known(j.label@, root, blocks),
        WasmStatement::Ret(_) => true,
    }
}

/// The path to the basic block named `label`.
fn target_selector(label: &String, cfe_root: &ControlFlowElement, block_index: &NameMap<usize>) -> (res: CFSelector)
    requires
        block_index.wf(),
        target_known(label@, cfe_root@, block_index@),
    ensures
        res@ == cfe_root@.find(block_index@[label@])->0,
{
    let index = match block_index.get(label.as_str()) {
        Some(i) => *i,
        None => 0,
    };
    match cfe_root.find_node(index) {
        Some(s) => s,
        None => {
            assert(false);
            CFSelector::new_empty()
        },
    }
}

/// Appends a branch back by `levels`, where there is one.
fn push_branch_back(result: &mut Vec<WasmInstruction>, levels: Option<usize>)
    ensures
        final(result)@ == old(result)@ + branch_back(levels),
{
    if let Some(l) = levels {
        result.push(WasmInstruction::BrIf(l as u32));
    }
    assert(result@ =~= old(result)@ + branch_back(levels));
}

/// Appends the instructions of a statement of basic block `bb_id`.
pub fn lower_statement(result: &mut Vec<WasmInstruction>, register_name_id_map: &NameMap<u32>, statement: &WasmStatement,
    bb_id: usize, cfe_root: &ControlFlowElement, register_type: &NameMap<DataType>, block_index: &NameMap<usize>)
    requires
        register_name_id_map.wf(),
        register_type.wf(),
        block_index.wf(),
        statement_lowerable(*statement, bb_id, cfe_root@, register_type@, register_name_id_map@, block_index@),
    ensures
        final(result)@ == old(result)@ + statement_instructions(*statement, bb_id, cfe_root@, register_type@,
            register_name_id_map@, block_index@),
{
    let current = match cfe_root.find_node(bb_id) {
        Some(s) => s,
        None => {
            assert(false);
            CFSelector::new_empty()
        },
    };
    match statement {
        WasmStatement::UnaryCalculate(unary_calculate) => {
            lower_unary_calculate(result, register_name_id_map, unary_calculate);
        },
        WasmStatement::BinaryCalculate(binary_calculate) => {
            lower_binary_calculate(result, register_name_id_map, binary_calculate);
        },
        WasmStatement::Branch(branch_statement) => {
            if current.is_if_condition() {
                generate_if_condition(branch_statement, register_type, register_name_id_map, result);
            } else {
                let success_target_selector = target_selector(&branch_statement.success_label, cfe_root, block_index);
                let failure_target_selector = target_selector(&branch_statement.failure_label, cfe_root, block_index);
                let success = success_target_selector.levels_before(&current);
                let failure = failure_target_selector.levels_before(&current);
                match success {
                    Some(_) => {
                        push_branch_back(result, success);
                        push_branch_back(result, failure);
                    },
                    None => {
                        if failure.is_some() {
                            result.push(WasmInstruction::I32Eqz);
                            push_branch_back(result, failure);
                        }
                    },
                }
            }
        },
        WasmStatement::Jump(jump_statement) => {
            let jump_target_selector = target_selector(&jump_statement.label, cfe_root, block_index);
            let levels = jump_target_selector.levels_before(&current);
            push_branch_back(result, levels);
        },
        WasmStatement::Ret(_) => {
            result.push(WasmInstruction::Return);
        },
    }
    assert(result@ =~= old(result)@ + statement_instructions(*statement, bb_id, cfe_root@, register_type@,
        register_name_id_map@, block_index@));
}

/// What lowering a function body reads besides the element lowered: the statements of each basic
/// block, the whole control flow, the type and local index of each register, and the index of
/// each basic block by name.
pub struct LowerEnv {
    pub body: Seq<Vec<WasmStatement>>,
    pub root: CFTree,
    pub types: Map<Seq<char>, DataType>,
    pub ids: Map<Seq<char>, u32>,
    pub blocks: Map<Seq<char>, usize>,
}

/// The instructions of the statements of basic block `bb_id`, in order.
pub open spec fn block_instructions(stmts: Seq<WasmStatement>, bb_id: usize, env: LowerEnv) -> Seq<WasmInstruction>
    decreases stmts.len(),
{
    if stmts.len() == 0 {
        Seq::empty()
    } else {
        block_instructions(stmts.drop_last(), bb_id, env)
            + statement_instructions(stmts.last(), bb_id, env.root, env.types, env.ids, env.blocks)
    }
}

/// Every statement of basic block `bb_id` can be lowered.
pub open spec fn block_lowerable(stmts: Seq<WasmStatement>, bb_id: usize, env: LowerEnv) -> bool {
    forall|k: int| 0 <= k < stmts.len() ==> statement_lowerable(#[trigger] stmts[k], bb_id, env.root, env.types, env.ids, env.blocks)
}

/// The instructions of an element: a block, a loop or an `if` around the instructions of what
/// they hold (the failure branch after an `else`, where there is one), or the statements of a
/// basic block.
pub open spec fn element_instructions(e: CFTree, env: LowerEnv) -> Seq<WasmInstruction>
    decreases e,
{
    match e {
        CFTree::Block(content) => seq![WasmInstruction::Block] + list_instructions(content, env) + seq![WasmInstruction::End],
        CFTree::If(condition, on_success, on_failure) => element_instructions(*condition, env) + seq![WasmInstruction::If]
            + list_instructions(on_success, env) + (if on_failure.len() > 0 {
                seq![WasmInstruction::Else] + list_instructions(on_failure, env)
            } else {
                Seq::empty()
            }) + seq![WasmInstruction::End],
        CFTree::Loop(content) => seq![WasmInstruction::Loop] + list_instructions(content, env) + seq![WasmInstruction::End],
        CFTree::BasicBlock(id) => block_instructions(env.body[id as int]@, id, env),
    }
}

/// The instructions of a list of elements, in order.
pub open spec fn list_instructions(list: Seq<CFTree>, env: LowerEnv) -> Seq<WasmInstruction>
    decreases list,
{
    if list.len() == 0 {
        Seq::empty()
    } else {
        list_instructions(list.drop_last(), env) + element_instructions(list.last(), env)
    }
}

/// Every basic block in the element is in the body, and each of its statements can be lowered.
pub open spec fn element_lowerable(e: CFTree, env: LowerEnv) -> bool
    decreases e,
{
    match e {
        CFTree::Block(content) => list_lowerable(content, env),
        CFTree::If(condition, on_success, on_failure) => element_lowerable(*condition, env)
            && list_lowerable(on_success, env) && list_lowerable(on_failure, env),
        CFTree::Loop(content) => list_lowerable(content, env),
        CFTree::BasicBlock(id) => id < env.body.len() && block_lowerable(env.body[id as int]@, id, env),
    }
}

/// Every element of the list can be lowered.
pub open spec fn list_lowerable(list: Seq<CFTree>, env: LowerEnv) -> bool
    decreases list,
{
    if list.len() == 0 {
        true
    } else {
        list_lowerable(list.drop_last(), env) && element_lowerable(list.last(), env)
    }
}

/// Each element of a list that can be lowered can be lowered.
proof fn lemma_list_lowerable_each(list: Seq<CFTree>, env: LowerEnv)
    requires
        list_lowerable(list, env),
    ensures
        forall|k: int| 0 <= k < list.len() ==> element_lowerable(#[trigger] list[k], env),
    decreases list.len(),
{
    if list.len() > 0 {
        lemma_list_lowerable_each(list.drop_last(), env);
        assert forall|k: int| 0 <= k < list.len() implies element_lowerable(#[trigger] list[k], env) by {
            if k < list.len() - 1 {
                assert(list.drop_last()[k] == list[k]);
            }
        }
    }
}

/// The environment that the arguments of lowering stand for.
pub open spec fn env_of(body: &[Vec<WasmStatement>], cfe_root: &ControlFlowElement, register_type: &NameMap<DataType>,
    register_name_id_map: &NameMap<u32>, block_index: &NameMap<usize>) -> LowerEnv {
    LowerEnv { body: body@, root: cfe_root@, types: register_type@, ids: register_name_id_map@, blocks: block_index@ }
}

/// Appends the instructions of the statements of basic block `bb_id`.
fn lower_basic_block(result: &mut Vec<WasmInstruction>, bb_id: usize, block: &Vec<WasmStatement>, _selector: CFSelector,
    block_index: &NameMap<usize>, register_name_id_map: &NameMap<u32>, cfe_root: &ControlFlowElement,
    register_type: &NameMap<DataType>, env: Ghost<LowerEnv>)
    requires
        register_name_id_map.wf(),
        register_type.wf(),
        block_index.wf(),
        env@.root == cfe_root@,
        env@.types == register_type@,
        env@.ids == register_name_id_map@,
        env@.blocks == block_index@,
        block_lowerable(block@, bb_id, env@),
    ensures
        final(result)@ == old(result)@ + block_instructions(block@, bb_id, env@),
{
    let mut i: usize = 0;
    while i < block.len()
        invariant
            i <= block@.len(),
            register_name_id_map.wf(),
            register_type.wf(),
            block_index.wf(),
            env@.root == cfe_root@,
            env@.types == register_type@,
            env@.ids == register_name_id_map@,
            env@.blocks == block_index@,
            block_lowerable(block@, bb_id, env@),
            result@ == old(result)@ + block_instructions(block@.take(i as int), bb_id, env@),
        decreases block@.len() - i,
    {
        assert(statement_lowerable(block@[i as int], bb_id, env@.root, env@.types, env@.ids, env@.blocks));
        lower_statement(result, register_name_id_map, &block[i], bb_id, cfe_root, register_type, block_index);
        proof {
            let next = block@.take(i + 1);
            assert(next.drop_last() =~= block@.take(i as int));
            assert(next.last() == block@[i as int]);
        }
        i = i + 1;
    }
    assert(block@.take(block@.len() as int) =~= block@);
}

/// Which children of an element a list is: the content of a block or loop, or a branch of an
/// `if`.
#[derive(Debug, Clone, Copy, PartialEq, Eq, Structural)]
pub enum ChildKind {
    Content,
    Success,
    Failure,
}

/// The selector segment of child `i` of this kind.
fn child_segment(kind: ChildKind, i: usize) -> CFSelectorSegment {
    match kind {
        ChildKind::Content => CFSelectorSegment::ContentAtIndex(i),
        ChildKind::Success => CFSelectorSegment::IndexInSuccess(i),
        ChildKind::Failure => CFSelectorSegment::IndexInFailure(i),
    }
}

/// Appends the instructions of each element of `list`, in order.
fn lower_elements(result: &mut Vec<WasmInstruction>, body: &[Vec<WasmStatement>], list: &Vec<ControlFlowElement>,
    current: &CFSelector, kind: ChildKind, block_index: &NameMap<usize>, register_name_id_map: &NameMap<u32>,
    cfe_root: &ControlFlowElement, register_type: &NameMap<DataType>)
    requires
        register_name_id_map.wf(),
        register_type.wf(),
        block_index.wf(),
        list_lowerable(views(list@), env_of(body, cfe_root, register_type, register_name_id_map, block_index)),
    ensures
        final(result)@ == old(result)@ + list_instructions(views(list@),
            env_of(body, cfe_root, register_type, register_name_id_map, block_index)),
    decreases list,
{
    let ghost env = env_of(body, cfe_root, register_type, register_name_id_map, block_index);
    proof {
        lemma_views(list@);
        lemma_list_lowerable_each(views(list@), env);
    }
    let mut i: usize = 0;
    while i < list.len()
        invariant
            i <= list@.len(),
            register_name_id_map.wf(),
            register_type.wf(),
            block_index.wf(),
            env == env_of(body, cfe_root, register_type, register_name_id_map, block_index),
            views(list@).len() == list@.len(),
            forall|k: int| 0 <= k < list@.len() ==> #[trigger] views(list@)[k] == list@[k]@,
            forall|k: int| 0 <= k < list@.len() ==> element_lowerable(#[trigger] views(list@)[k], env),
            result@ == old(result)@ + list_instructions(views(list@).take(i as int), env),
        decreases list@.len() - i,
    {
        let mut new_selector = current.duplicate();
        new_selector.push_back(child_segment(kind, i));
        assert(element_lowerable(views(list@)[i as int], env));
        proof {
            assert(decreases_to!(list => list[i as int]));
        }
        lower_control_flow_element(result, body, &list[i], new_selector, block_index, register_name_id_map, cfe_root,
            register_type);
        proof {
            let v = views(list@);
            assert(v.take(i + 1).drop_last() =~= v.take(i as int));
            assert(v.take(i + 1).last() == list@[i as int]@);
        }
        i = i + 1;
    }
    assert(views(list@).take(list@.len() as int) =~= views(list@));
}

/// Appends the instructions of a control flow element at `current`.
pub fn lower_control_flow_element(result: &mut Vec<WasmInstruction>, body: &[Vec<WasmStatement>],
    element: &ControlFlowElement, current: CFSelector, block_index: &NameMap<usize>,
    register_name_id_map: &NameMap<u32>, cfe_root: &ControlFlowElement, register_type: &NameMap<DataType>)
    requires
        register_name_id_map.wf(),
        register_type.wf(),
        block_index.wf(),
        element_lowerable(element@, env_of(body, cfe_root, register_type, register_name_id_map, block_index)),
    ensures
        final(result)@ == old(result)@ + element_instructions(element@,
            env_of(body, cfe_root, register_type, register_name_id_map, block_index)),
    decreases element,
{
    let ghost env = env_of(body, cfe_root, register_type, register_name_id_map, block_index);
    match element {
        ControlFlowElement::Block { content } => {
            result.push(WasmInstruction::Block);
            proof {
                assert(decreases_to!(element => content));
            }
            lower_elements(result, body, content, &current, ChildKind::Content, block_index, register_name_id_map,
                cfe_root, register_type);
            result.push(WasmInstruction::End);
        },
        ControlFlowElement::If { condition, on_success, on_failure } => {
            let mut new_selector = current.duplicate();
            new_selector.push_back(CFSelectorSegment::IfCondition);
            proof {
                assert(decreases_to!(element => condition));
            }
            lower_control_flow_element(result, body, condition, new_selector, block_index, register_name_id_map,
                cfe_root, register_type);
            result.push(WasmInstruction::If);
            proof {
                assert(decreases_to!(element => on_success));
                assert(decreases_to!(element => on_failure));
            }
            lower_elements(result, body, on_success, &current, ChildKind::Success, block_index, register_name_id_map,
                cfe_root, register_type);
            if on_failure.len() > 0 {
                result.push(WasmInstruction::Else);
                lower_elements(result, body, on_failure, &current, ChildKind::Failure, block_index,
                    register_name_id_map, cfe_root, register_type);
            }
            proof {
                lemma_views(on_failure@);
            }
            result.push(WasmInstruction::End);
        },
        ControlFlowElement::Loop { content } => {
            result.push(WasmInstruction::Loop);
            proof {
                assert(decreases_to!(element => content));
            }
            lower_elements(result, body, content, &current, ChildKind::Content, block_index, register_name_id_map,
                cfe_root, register_type);
            result.push(WasmInstruction::End);
        },
        ControlFlowElement::BasicBlock { id } => {
            lower_basic_block(result, *id, &body[*id], current, block_index, register_name_id_map, cfe_root,
                register_type, Ghost(env));
        },
    }
    assert(result@ =~= old(result)@ + element_instructions(element@, env));
}

/// The type of each local, by name; a later local of a name counts.
pub open spec fn local_types(locals: Seq<(RegisterName, DataType)>) -> Map<Seq<char>, DataType>
    decreases locals.len(),
{
    if locals.len() == 0 {
        Map::empty()
    } else {
        local_types(locals.drop_last()).insert(locals.last().0.0@, locals.last().1)
    }
}

/// The index of each local, by name: its position; a later local of a name counts.
pub open spec fn local_ids(locals: Seq<(RegisterName, DataType)>) -> Map<Seq<char>, u32>
    decreases locals.len(),
{
    if locals.len() == 0 {
        Map::empty()
    } else {
        local_ids(locals.drop_last()).insert(locals.last().0.0@, (locals.len() - 1) as u32)
    }
}

/// The environment of a function body whose locals are `locals`.
pub open spec fn body_env(body: Seq<Vec<WasmStatement>>, root: CFTree, locals: Seq<(RegisterName, DataType)>,
    blocks: Map<Seq<char>, usize>) -> LowerEnv {
    LowerEnv { body, root, types: local_types(locals), ids: local_ids(locals), blocks }
}

/// Lowers a function body: the value type of each local, in order, with the local's index its
/// position, and the instructions of each element of the outermost block of the control flow.
pub fn lower_function_body(body: &[Vec<WasmStatement>], control_flow_root: &ControlFlowElement,
    block_index: &NameMap<usize>, locals: &Vec<(RegisterName, DataType)>) -> (res: (Vec<ValType>, Vec<WasmInstruction>))
    requires
        block_index.wf(),
        locals@.len() <= u32::MAX + 1,
        forall|k: int| 0 <= k < locals@.len() ==> lowered_type((#[trigger] locals@[k]).1) is Some,
        control_flow_root@ matches CFTree::Block(content)
            && list_lowerable(content, body_env(body@, control_flow_root@, locals@, block_index@)),
    ensures
        res.0@.len() == locals@.len(),
        forall|k: int| 0 <= k < locals@.len() ==> Some(#[trigger] res.0@[k]) == lowered_type(locals@[k].1),
        res.1@ == list_instructions(control_flow_root@->Block_0, body_env(body@, control_flow_root@, locals@, block_index@)),
{
    let mut register_type: NameMap<DataType> = NameMap::new();
    let mut register_name_id_map: NameMap<u32> = NameMap::new();
    let mut local_types_list: Vec<ValType> = Vec::new();
    let mut k: usize = 0;
    while k < locals.len()
        invariant
            k <= locals@.len(),
            locals@.len() <= u32::MAX + 1,
            forall|j: int| 0 <= j < locals@.len() ==> lowered_type((#[trigger] locals@[j]).1) is Some,
            register_type.wf(),
            register_name_id_map.wf(),
            register_type@ == local_types(locals@.take(k as int)),
            register_name_id_map@ == local_ids(locals@.take(k as int)),
            local_types_list@.len() == k,
            forall|j: int| 0 <= j < k ==> Some(#[trigger] local_types_list@[j]) == lowered_type(locals@[j].1),
        decreases locals@.len() - k,
    {
        let (name, data_type) = &locals[k];
        let t = data_type.duplicate();
        local_types_list.push(lower_type(&t));
        register_type.insert(name.0.clone(), t);
        register_name_id_map.insert(name.0.clone(), k as u32);
        proof {
            let next = locals@.take(k + 1);
            assert(next.drop_last() =~= locals@.take(k as int));
            assert(next.last() == locals@[k as int]);
        }
        k = k + 1;
    }
    assert(locals@.take(locals@.len() as int) =~= locals@);
    let mut function: Vec<WasmInstruction> = Vec::new();
    match control_flow_root.block_content() {
        Some(content) => {
            let root_selector = CFSelector::new_empty();
            lower_elements(&mut function, body, content, &root_selector, ChildKind::Content, block_index,
                &register_name_id_map, control_flow_root, &register_type);
        },
        None => {
            assert(false);
        },
    }
    (local_types_list, function)
}

} // verus!
