//! The parts of the intermediate representation that register assignment and control flow
//! structuring read: basic blocks of statements, their phi nodes and their terminators.
use vstd::prelude::*;

verus! {

/// The name of a logical register.
#[derive(Debug, Clone, PartialEq, Eq, Hash)]
pub struct RegisterName(pub String);

impl RegisterName {
    /// A copy of this name.
    pub fn duplicate(&self) -> (res: Self)
        ensures
            res.0@ == self.0@,
    {
        RegisterName(self.0.clone())
    }
}

/// A parameter of a function: its register and the size of its type in bits.
#[derive(Debug, Clone, PartialEq, Eq)]
pub struct Parameter {
    pub name: RegisterName,
    pub size_bits: usize,
}

/// An integer type: whether it is signed, and its width in bits.
#[derive(Debug, Clone, Copy, PartialEq, Eq, Structural)]
pub struct Integer {
    pub signed: bool,
    pub width: usize,
}

/// The type of a value.
#[derive(Debug, Clone, PartialEq, Eq)]
pub enum DataType {
    Integer(Integer),
    StructRef(String),
    /// The type of no value.
    Unit,
}

impl DataType {
    /// A copy of this type.
    pub fn duplicate(&self) -> (res: Self)
        ensures
            res == *self,
    {
        match self {
            DataType::Integer(i) => DataType::Integer(*i),
            DataType::StructRef(name) => DataType::StructRef(name.clone()),
            DataType::Unit => DataType::Unit,
        }
    }
}

/// A value an IR statement reads.
#[derive(Debug, Clone, PartialEq, Eq)]
pub enum Quantity {
    RegisterName(RegisterName),
    LocalVariableName(String),
    GlobalVariableName(String),
    NumberLiteral(i64),
}

/// One incoming value of a phi node: `value` when control comes from `block`.
#[derive(Debug, Clone, PartialEq, Eq)]
pub struct PhiSource {
    pub value: Quantity,
    pub block: String,
}

/// A phi node: `to` takes the value of the source of the block control came from.
#[derive(Debug, Clone, PartialEq, Eq)]
pub struct Phi {
    pub to: RegisterName,
    pub from: Vec<PhiSource>,
}

/// A statement of the intermediate representation, as far as the backend's analyses read it.
#[derive(Debug, Clone, PartialEq, Eq)]
pub enum IRStatement {
    /// Computes a value into a register.
    Compute { to: RegisterName, operands: Vec<Quantity> },
    Phi(Phi),
    /// Continues at the block named `label`.
    Jump { label: String },
    /// Continues at `success_label` when `condition` holds, else at `failure_label`.
    Branch { condition: Quantity, success_label: String, failure_label: String },
    /// Returns from the function.
    Ret(Ret),
}

/// Returns from the function, with the value of `value` where there is one.
#[derive(Debug, Clone, PartialEq, Eq)]
pub struct Ret {
    pub value: Option<Quantity>,
}

/// The operations of a binary calculation.
#[derive(Debug, Clone, Copy, PartialEq, Eq, Structural)]
pub enum BinaryOperation {
    Add,
    LessThan,
    LessOrEqualThan,
    GreaterThan,
    GreaterOrEqualThan,
    Equal,
    NotEqual,
    Sub,
    Or,
    Xor,
    And,
    LogicalShiftLeft,
    LogicalShiftRight,
    AthematicShiftRight,
}

/// Computes `operand1` `operation` `operand2` into `to`.
#[derive(Debug, Clone, PartialEq, Eq)]
pub struct BinaryCalculate {
    pub operation: BinaryOperation,
    pub operand1: Quantity,
    pub operand2: Quantity,
    pub to: RegisterName,
    pub data_type: DataType,
}

/// Loads into `to` the value kept in the stack space that `from` stands for.
#[derive(Debug, Clone, PartialEq, Eq)]
pub struct Load {
    pub to: RegisterName,
    pub from: Quantity,
}

/// Stores `source` into the stack space that `target` stands for.
#[derive(Debug, Clone, PartialEq, Eq)]
pub struct Store {
    pub source: Quantity,
    pub target: Quantity,
}

/// The operations of a unary calculation.
#[derive(Debug, Clone, Copy, PartialEq, Eq, Structural)]
pub enum UnaryOperation {
    Neg,
    Not,
}

/// One step down a chain of fields: the size in bits of the value stepped from, the sizes in
/// bits of its fields where it is a struct (`None` where it is not), and the index of the field
/// taken.
#[derive(Debug, Clone, PartialEq, Eq)]
pub struct FieldStep {
    pub parent_bits: usize,
    pub field_bits: Option<Vec<usize>>,
    pub index: usize,
}

/// Sets a field of a struct value: `target` becomes `origin_root` with the field that
/// `field_chain` leads to set to `source`, a value of `final_type_bits` bits.
#[derive(Debug, Clone, PartialEq, Eq)]
pub struct SetField {
    pub target: RegisterName,
    pub source: Quantity,
    pub origin_root: RegisterName,
    pub field_chain: Vec<FieldStep>,
    pub final_type_bits: usize,
}

/// Reads a field of a struct value: `target` becomes the field of `source` that `field_chain`
/// leads to, a value of `leaf_type_bits` bits.
#[derive(Debug, Clone, PartialEq, Eq)]
pub struct LoadField {
    pub target: RegisterName,
    pub source: RegisterName,
    pub field_chain: Vec<FieldStep>,
    pub leaf_type_bits: usize,
}

/// Computes `operation` of `operand` into `to`.
#[derive(Debug, Clone, PartialEq, Eq)]
pub struct UnaryCalculate {
    pub operation: UnaryOperation,
    pub operand: Quantity,
    pub to: RegisterName,
    pub data_type: DataType,
}

/// How a branch compares its operands.
#[derive(Debug, Clone, Copy, PartialEq, Eq, Structural)]
pub enum BranchType {
    EQ,
    GE,
    LT,
    NE,
}

/// Continues at `success_label` when the comparison of the operands holds, else at
/// `failure_label`.
#[derive(Debug, Clone, PartialEq, Eq)]
pub struct Branch {
    pub branch_type: BranchType,
    pub operand1: Quantity,
    pub operand2: Quantity,
    pub success_label: String,
    pub failure_label: String,
}

/// Continues at the block named `label`.
#[derive(Debug, Clone, PartialEq, Eq)]
pub struct Jump {
    pub label: String,
}

/// The statement that ends a basic block.
#[derive(Debug, Clone, PartialEq, Eq)]
pub enum Terminator {
    Branch(Branch),
    Jump(Jump),
    Ret(Ret),
}

/// Calls the function `name` with `params`, its result, if any, going to `to`.
#[derive(Debug, Clone, PartialEq, Eq)]
pub struct Call {
    pub to: Option<RegisterName>,
    pub name: String,
    pub params: Vec<Quantity>,
}

/// A basic block: a list of statements, ended by a terminator.
#[derive(Debug, Clone, PartialEq, Eq)]
pub struct BasicBlock {
    pub name: Option<String>,
    pub content: Vec<IRStatement>,
}

/// A function: its name and its basic blocks, the first being the entry.
#[derive(Debug, Clone, PartialEq, Eq)]
pub struct FunctionDefinition {
    pub name: String,
    pub content: Vec<BasicBlock>,
}

/// The statements of `blocks`, block after block.
pub open spec fn all_statements(blocks: Seq<BasicBlock>) -> Seq<IRStatement>
    decreases blocks.len(),
{
    if blocks.len() == 0 {
        Seq::empty()
    } else {
        all_statements(blocks.drop_last()) + blocks.last().content@
    }
}

impl FunctionDefinition {
    /// The statements of the function, block after block.
    pub open spec fn statements(self) -> Seq<IRStatement> {
        all_statements(self.content@)
    }
}

/// The statements of the first `i + 1` blocks are those of the first `i` and then those of
/// block `i`.
pub proof fn lemma_all_statements_step(blocks: Seq<BasicBlock>, i: int)
    requires
        0 <= i < blocks.len(),
    ensures
        all_statements(blocks.take(i + 1)) == all_statements(blocks.take(i)) + blocks[i].content@,
{
    assert(blocks.take(i + 1).drop_last() =~= blocks.take(i));
}

} // verus!
