//! Parameters of instructions: as parsed from assembly text, and as held by an instruction
//! whose symbols may still wait to be resolved.
use vstd::prelude::*;

use crate::clef::Symbol;
use crate::number_text::{hex, push_decimal_u64, push_hex_padded, push_signed_decimal, push_text, signed_decimal, zero_padded};
use crate::text::decimal;

verus! {

/// A parameter of an instruction, as parsed from assembly text.
#[derive(Debug, PartialEq, Eq, Clone)]
pub enum ParsedParam {
    Symbol(String),
    Register(u8),
    Csr(u16),
    Immediate(i32),
}

impl ParsedParam {
    /// A copy of this parameter.
    pub fn duplicate(&self) -> (res: Self)
        ensures
            res == *self,
    {
        match self {
            ParsedParam::Symbol(s) => ParsedParam::Symbol(s.clone()),
            ParsedParam::Register(r) => ParsedParam::Register(*r),
            ParsedParam::Csr(c) => ParsedParam::Csr(*c),
            ParsedParam::Immediate(i) => ParsedParam::Immediate(*i),
        }
    }

    /// The immediate value held by this parameter.
    pub fn unwrap_immediate(&self) -> (res: i32)
        requires
            self is Immediate,
        ensures
            res == self->Immediate_0,
    {
        match self {
            ParsedParam::Immediate(i) => *i,
            _ => 0,
        }
    }

    /// The register index held by this parameter.
    pub fn unwrap_register(&self) -> (res: u8)
        requires
            self is Register,
        ensures
            res == self->Register_0,
    {
        match self {
            ParsedParam::Register(r) => *r,
            _ => 0,
        }
    }

    /// The CSR address held by this parameter.
    pub fn unwrap_csr(&self) -> (res: u16)
        requires
            self is Csr,
        ensures
            res == self->Csr_0,
    {
        match self {
            ParsedParam::Csr(c) => *c,
            _ => 0,
        }
    }
}

/// A value of a parameter that is known.
#[derive(Debug, PartialEq, Eq, Clone, Copy, Structural)]
pub enum Decided {
    /// An immediate value.
    Immediate(i32),
    /// A register.
    Register(u8),
    /// A csr.
    Csr(u16),
}

/// Parameter of an instruction.
#[derive(Debug, PartialEq, Eq, Clone)]
pub enum Param {
    Decided(Decided),
    /// An unresolved symbol.
    Unresolved(String),
    /// A resolved symbol.
    Resolved(String, Decided),
}

/// The distance in bytes from an instruction to a symbol, as the `i32` it is stored in: the
/// low 32 bits of the difference.
pub open spec fn distance_to(symbol_offset_bytes: u32, instruction_offset_bytes: u32) -> i32 {
    (symbol_offset_bytes - instruction_offset_bytes) as i32
}

impl Param {
    /// The immediate value of this parameter; an unresolved symbol counts as 0.
    pub fn unwrap_immediate(&self) -> (res: i32)
        requires
            self matches Param::Decided(Decided::Immediate(_))
                || self matches Param::Resolved(_, Decided::Immediate(_))
                || self is Unresolved,
        ensures
            self matches Param::Decided(Decided::Immediate(i)) ==> res == i,
            self matches Param::Resolved(_, Decided::Immediate(i)) ==> res == i,
            self is Unresolved ==> res == 0,
    {
        match self {
            Param::Decided(Decided::Immediate(i)) => *i,
            Param::Resolved(_, Decided::Immediate(i)) => *i,
            _ => 0,
        }
    }

    /// The register index of this parameter.
    pub fn unwrap_register(&self) -> (res: u8)
        requires
            self matches Param::Decided(Decided::Register(_)),
        ensures
            self matches Param::Decided(Decided::Register(r)) && res == r,
    {
        match self {
            Param::Decided(Decided::Register(r)) => *r,
            _ => 0,
        }
    }

    /// The CSR address of this parameter.
    pub fn unwrap_csr(&self) -> (res: u16)
        requires
            self matches Param::Decided(Decided::Csr(_)),
        ensures
            self matches Param::Decided(Decided::Csr(c)) && res == c,
    {
        match self {
            Param::Decided(Decided::Csr(c)) => *c,
            _ => 0,
        }
    }

    /// The name of the symbol of this parameter.
    pub fn unwrap_symbol(&self) -> (res: &str)
        requires
            self is Unresolved || self is Resolved,
        ensures
            self matches Param::Unresolved(s) ==> res@ == s@,
            self matches Param::Resolved(s, _) ==> res@ == s@,
    {
        match self {
            Param::Unresolved(s) => s.as_str(),
            Param::Resolved(s, _) => s.as_str(),
            Param::Decided(_) => "",
        }
    }

    /// Resolves this parameter to `symbol`: it becomes the distance from the instruction at
    /// `instruction_offset_bytes` to the symbol.
    pub fn fill_symbol(&mut self, symbol: &Symbol, instruction_offset_bytes: u32)
        requires
            *old(self) matches Param::Unresolved(s) ==> s@ == symbol.name@,
            *old(self) matches Param::Resolved(s, _) ==> s@ == symbol.name@,
            *old(self) is Unresolved || *old(self) is Resolved,
        ensures
            *final(self) matches Param::Resolved(s, Decided::Immediate(d))
                && s@ == symbol.name@
                && d == distance_to(symbol.offset_bytes, instruction_offset_bytes),
    {
        let symbol_offset_bytes = symbol.offset_bytes as i64;
        let instruction_offset_bytes_wide = instruction_offset_bytes as i64;
        let distance_from_instruction_to_symbol = symbol_offset_bytes - instruction_offset_bytes_wide;
        let distance = distance_from_instruction_to_symbol as i32;
        *self = Param::Resolved(symbol.name.clone(), Decided::Immediate(distance));
    }
}

/// Values that can stand as a parameter of an instruction.
pub trait AsParam {
    fn as_param(&self) -> Param;
}

impl AsParam for i32 {
    fn as_param(&self) -> (res: Param)
        ensures
            res == Param::Decided(Decided::Immediate(*self)),
    {
        Param::Decided(Decided::Immediate(*self))
    }
}

/// How a register index is shown: `x` and its number.
pub open spec fn register_text(r: u8) -> Seq<char> {
    "x"@ + decimal(r as nat)
}

/// How a CSR address is shown: `0x` and at least four hexadecimal digits.
pub open spec fn csr_text(c: u16) -> Seq<char> {
    "0x"@ + zero_padded(hex(c as nat), 4)
}

/// How a known value is shown.
pub open spec fn decided_text(d: Decided) -> Seq<char> {
    match d {
        Decided::Register(r) => register_text(r),
        Decided::Csr(c) => csr_text(c),
        Decided::Immediate(i) => signed_decimal(i as int),
    }
}

/// How a parsed parameter is shown.
pub open spec fn parsed_param_text(p: ParsedParam) -> Seq<char> {
    match p {
        ParsedParam::Symbol(s) => s@,
        ParsedParam::Register(r) => register_text(r),
        ParsedParam::Csr(c) => csr_text(c),
        ParsedParam::Immediate(i) => signed_decimal(i as int),
    }
}

/// How a parameter is shown: a resolved symbol with its value in angle brackets.
pub open spec fn param_text(p: Param) -> Seq<char> {
    match p {
        Param::Unresolved(s) => s@,
        Param::Resolved(s, d) => s@ + " <"@ + decided_text(d) + ">"@,
        Param::Decided(d) => decided_text(d),
    }
}

fn push_register(s: &mut String, r: u8)
    ensures
        final(s)@ == old(s)@ + register_text(r),
{
    push_text(s, "x");
    push_decimal_u64(s, r as u64);
    assert(s@ =~= old(s)@ + register_text(r));
}

fn push_csr(s: &mut String, c: u16)
    ensures
        final(s)@ == old(s)@ + csr_text(c),
{
    push_text(s, "0x");
    push_hex_padded(s, c as u64, 4);
    assert(s@ =~= old(s)@ + csr_text(c));
}

fn push_decided(s: &mut String, d: Decided)
    ensures
        final(s)@ == old(s)@ + decided_text(d),
{
    match d {
        Decided::Register(r) => push_register(s, r),
        Decided::Csr(c) => push_csr(s, c),
        Decided::Immediate(i) => push_signed_decimal(s, i as i64),
    }
}

impl Decided {
    /// The value as it is shown: `x` and the number of a register, a CSR address in
    /// hexadecimal, or the immediate in decimal.
    pub fn to_string(&self) -> (res: String)
        ensures
            res@ == decided_text(*self),
    {
        let mut res = String::new();
        push_decided(&mut res, *self);
        assert(res@ =~= decided_text(*self));
        res
    }
}

impl ParsedParam {
    /// The parameter as it is shown: a symbol by its name, the rest as a known value is.
    pub fn to_string(&self) -> (res: String)
        ensures
            res@ == parsed_param_text(*self),
    {
        let mut res = String::new();
        match self {
            ParsedParam::Symbol(name) => push_text(&mut res, name.as_str()),
            ParsedParam::Register(r) => push_register(&mut res, *r),
            ParsedParam::Csr(c) => push_csr(&mut res, *c),
            ParsedParam::Immediate(i) => push_signed_decimal(&mut res, *i as i64),
        }
        assert(res@ =~= parsed_param_text(*self));
        res
    }
}

impl Param {
    /// The parameter as it is shown: a symbol by its name, followed by its value in angle
    /// brackets once resolved.
    pub fn to_string(&self) -> (res: String)
        ensures
            res@ == param_text(*self),
    {
        let mut res = String::new();
        match self {
            Param::Unresolved(name) => push_text(&mut res, name.as_str()),
            Param::Resolved(name, d) => {
                push_text(&mut res, name.as_str());
                push_text(&mut res, " <");
                push_decided(&mut res, *d);
                push_text(&mut res, ">");
            },
            Param::Decided(d) => push_decided(&mut res, *d),
        }
        assert(res@ =~= param_text(*self));
        res
    }
}

} // verus!
