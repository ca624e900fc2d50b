//! The clef object format: the symbols a section defines and uses, and how they are shown.
use vstd::prelude::*;
use crate::name_map::NameMap;
use crate::number_text::{hex, push_hex, push_hex_padded, push_text, zero_padded};

verus! {

/// `0x` and at least eight lower-case hexadecimal digits of `n`.
pub open spec fn hex8(n: u32) -> Seq<char> {
    "0x"@ + zero_padded(hex(n as nat), 8)
}

/// Appends `0x` and at least eight lower-case hexadecimal digits of `n` to `s`.
fn push_hex8(s: &mut String, n: u32)
    ensures
        final(s)@ == old(s)@ + hex8(n),
{
    push_text(s, "0x");
    push_hex_padded(s, n as u64, 8);
    assert(s@ =~= old(s)@ + hex8(n));
}

/// A symbol in a clef file.
#[derive(Debug, Clone)]
pub struct Symbol {
    /// Name of the symbol.
    pub name: String,
    /// Offset of the definition of the symbol in the content part of clef.
    pub offset_bytes: u32,
}

impl Symbol {
    /// The symbol as it is shown: its name, `: ` and its offset in eight hexadecimal digits.
    pub fn to_string(&self) -> (res: String)
        ensures
            res@ == self.name@ + ": "@ + hex8(self.offset_bytes),
    {
        let mut res = self.name.clone();
        push_text(&mut res, ": ");
        push_hex8(&mut res, self.offset_bytes);
        res
    }
}

/// An unknown symbol in compile time, which address/offset is waiting to be determined for linking.
#[derive(Debug, Clone)]
pub struct PendingSymbol {
    /// Name of the symbol.
    pub name: String,
    /// These instructions' nth param are waiting for the address of this symbol.
    pub pending_instructions_offset_bytes: Vec<u32>,
}

/// What comes before the `i`th offset when offsets are shown four to a line, each line
/// indented by four spaces.
pub open spec fn offset_separator(i: int) -> Seq<char> {
    if i == 0 {
        "    "@
    } else if i % 4 == 0 {
        "\n    "@
    } else {
        ", "@
    }
}

/// Offsets shown four to a line, separated by `, `, each line indented by four spaces.
pub open spec fn offsets_text(s: Seq<u32>) -> Seq<char>
    decreases s.len(),
{
    if s.len() == 0 {
        Seq::<char>::empty()
    } else {
        offsets_text(s.drop_last()) + offset_separator(s.len() - 1) + hex8(s.last())
    }
}

impl PendingSymbol {
    /// Whether the instruction at `offset_bytes` waits for this symbol.
    pub fn used_by_instruction_at_offset(&self, offset_bytes: u32) -> (res: bool)
        ensures
            res == self.pending_instructions_offset_bytes@.contains(offset_bytes),
    {
        let offsets = &self.pending_instructions_offset_bytes;
        let mut i: usize = 0;
        while i < offsets.len()
            invariant
                i <= offsets@.len(),
                offsets@ == self.pending_instructions_offset_bytes@,
                forall|k: int| 0 <= k < i ==> offsets@[k] != offset_bytes,
            decreases offsets@.len() - i,
        {
            if offsets[i] == offset_bytes {
                assert(offsets@[i as int] == offset_bytes);
                return true;
            }
            i = i + 1;
        }
        false
    }

    /// The pending symbol as it is shown: its name on a line of its own, then the offsets of the
    /// instructions that wait for it, four to a line.
    pub fn to_string(&self) -> (res: String)
        ensures
            res@ == "  "@ + self.name@ + ":\n"@ + offsets_text(self.pending_instructions_offset_bytes@) + "\n"@,
    {
        let mut res = "  ".to_owned();
        push_text(&mut res, self.name.as_str());
        push_text(&mut res, ":\n");
        let ghost head = res@;
        let offsets = &self.pending_instructions_offset_bytes;
        let mut i: usize = 0;
        while i < offsets.len()
            invariant
                i <= offsets@.len(),
                res@ == head + offsets_text(offsets@.take(i as int)),
            decreases offsets@.len() - i,
        {
            if i == 0 {
                push_text(&mut res, "    ");
            } else if i % 4 == 0 {
                push_text(&mut res, "\n    ");
            } else {
                push_text(&mut res, ", ");
            }
            push_hex8(&mut res, offsets[i]);
            let ghost t = offsets@.take(i + 1);
            assert(t.drop_last() =~= offsets@.take(i as int));
            assert(res@ =~= head + offsets_text(t));
            i = i + 1;
        }
        assert(offsets@.take(offsets@.len() as int) =~= offsets@);
        push_text(&mut res, "\n");
        res
    }
}

/// Metadata of a section.
#[derive(Debug, Clone)]
pub struct SectionMeta {
    /// Name of the section.
    pub name: String,
    /// Whether this section is linkable.
    pub linkable: bool,
    /// Target load address of this section.
    pub loadable: Option<u32>,
    /// Symbols defined in this section.
    pub symbols: Vec<Symbol>,
    /// Symbols used in this section, but not defined in this section.
    pub pending_symbols: Vec<PendingSymbol>,
}

/// The offset of each symbol by its name; where a name occurs twice, the later symbol counts.
pub open spec fn symbol_offset_map(symbols: Seq<Symbol>) -> Map<Seq<char>, u32>
    decreases symbols.len(),
{
    if symbols.len() == 0 {
        Map::empty()
    } else {
        symbol_offset_map(symbols.drop_last()).insert(symbols.last().name@, symbols.last().offset_bytes)
    }
}

impl SectionMeta {
    /// The offset of each symbol defined in the section, by name.
    pub fn symbol_offsets(&self) -> (res: NameMap<u32>)
        ensures
            res.wf(),
            res@ == symbol_offset_map(self.symbols@),
    {
        let mut res = NameMap::new();
        let mut i: usize = 0;
        while i < self.symbols.len()
            invariant
                i <= self.symbols@.len(),
                res.wf(),
                res@ == symbol_offset_map(self.symbols@.take(i as int)),
            decreases self.symbols@.len() - i,
        {
            let symbol = &self.symbols[i];
            res.insert(symbol.name.clone(), symbol.offset_bytes);
            assert(self.symbols@.take(i + 1).drop_last() =~= self.symbols@.take(i as int));
            i = i + 1;
        }
        assert(self.symbols@.take(self.symbols@.len() as int) =~= self.symbols@);
        res
    }
}

/// Whether a section is linked with others, or loaded at an address.
#[derive(Debug, Clone, Copy, PartialEq, Eq, Structural)]
pub enum LinkableOrLoadable {
    Linkable,
    Loadable(u32),
}

/// How a section's placement is shown.
pub open spec fn placement_text(p: LinkableOrLoadable) -> Seq<char> {
    match p {
        LinkableOrLoadable::Linkable => "linkable"@,
        LinkableOrLoadable::Loadable(address) => "should be loaded into address 0x"@ + hex(address as nat),
    }
}

impl LinkableOrLoadable {
    /// How the placement is shown: `linkable`, or the address to load at in hexadecimal.
    pub fn to_string(&self) -> (res: String)
        ensures
            res@ == placement_text(*self),
    {
        match self {
            LinkableOrLoadable::Linkable => "linkable".to_owned(),
            LinkableOrLoadable::Loadable(address) => {
                let mut res = "should be loaded into address 0x".to_owned();
                push_hex(&mut res, *address as u64);
                res
            },
        }
    }
}

/// Target architecture of the binary.
#[derive(Debug, PartialEq, Eq, Clone, Copy, Structural)]
pub enum Architecture {
    RiscV,
    Arm,
    X86,
}

/// How an architecture is named.
pub open spec fn architecture_text(a: Architecture) -> Seq<char> {
    match a {
        Architecture::RiscV => "riscv"@,
        Architecture::Arm => "arm"@,
        Architecture::X86 => "x86"@,
    }
}

impl Architecture {
    /// The architecture's name: `riscv`, `arm` or `x86`.
    pub fn to_string(&self) -> (res: String)
        ensures
            res@ == architecture_text(*self),
    {
        match self {
            Architecture::RiscV => "riscv".to_owned(),
            Architecture::Arm => "arm".to_owned(),
            Architecture::X86 => "x86".to_owned(),
        }
    }
}

/// Target operating system of the binary.
#[derive(Debug, PartialEq, Eq, Structural)]
pub enum Os {
    BareMetal,
}

impl Os {
    /// The operating system's name.
    pub fn to_string(&self) -> (res: String)
        ensures
            res@ == "bare metal"@,
    {
        "bare metal".to_owned()
    }
}

/// The bits of a section, held in a `bitvec` bit vector of `u32` words, least significant bit
/// first.
#[verifier::external_body]
#[derive(Debug, PartialEq, Eq)]
pub struct Bits {
    inner: bitvec::vec::BitVec<u32>,
}

/// The bits a bit vector holds, in order.
pub uninterp spec fn bits_held(b: Bits) -> Seq<bool>;

impl View for Bits {
    type V = Seq<bool>;

    open spec fn view(&self) -> Seq<bool> {
        bits_held(*self)
    }
}

impl Clone for Bits {
    /// A copy of the bits: `bitvec`'s `clone` copies each bit in order.
    #[verifier::external_body]
    fn clone(&self) -> (res: Self)
        ensures
            bits_held(res) == bits_held(*self),
    {
        Bits { inner: self.inner.clone() }
    }
}

impl Bits {
    /// A bit vector holding `bits` in order: `bitvec`'s `FromIterator` pushes each in turn.
    #[verifier::external_body]
    pub fn from_bools(bits: Vec<bool>) -> (res: Bits)
        ensures
            bits_held(res) == bits@,
    {
        Bits { inner: bits.into_iter().collect() }
    }

    /// The bits held, in order, read one by one through `bitvec`'s iterator.
    #[verifier::external_body]
    pub fn to_bools(&self) -> (res: Vec<bool>)
        ensures
            res@ == bits_held(*self),
    {
        self.inner.iter().map(|b| *b).collect()
    }

    /// How many bits are held: `bitvec`'s `len`.
    #[verifier::external_body]
    pub fn len(&self) -> (res: usize)
        ensures
            res == bits_held(*self).len(),
    {
        self.inner.len()
    }

    /// Moves the bits of `other` to the end of these: `bitvec`'s `append`, which leaves `other`
    /// empty.
    #[verifier::external_body]
    pub fn append(&mut self, other: &mut Bits)
        ensures
            bits_held(*final(self)) == bits_held(*old(self)) + bits_held(*old(other)),
            bits_held(*final(other)) == Seq::<bool>::empty(),
    {
        self.inner.append(&mut other.inner);
    }
}

/// A section in a clef file.
#[derive(Debug)]
pub struct Section {
    /// Metadata of this section.
    pub meta: SectionMeta,
    /// Content of this section, bit by bit, the least significant bit of each instruction first.
    pub content: Bits,
}

/// A clef file.
#[derive(Debug)]
pub struct Clef {
    /// Target architecture of the binary.
    pub architecture: Architecture,
    /// Target operating system of the binary.
    pub os: Os,
    /// Sections in the binary.
    pub sections: Vec<Section>,
}

impl Clef {
    /// A clef file for `architecture` and `os`, with no section.
    pub fn new(architecture: Architecture, os: Os) -> (res: Self)
        ensures
            res.architecture == architecture,
            res.os == os,
            res.sections@.len() == 0,
    {
        Clef { architecture, os, sections: Vec::new() }
    }
}

} // verus!
