//! Transformers between a parameter of an instruction and the bits that encode it inside the
//! instruction: each one picks some bit positions of the parameter's value, in a fixed order.
use vstd::prelude::*;

use crate::param::ParsedParam;

verus! {

/// Bit `i` of `v`.
pub open spec fn bit_of(v: u32, i: u32) -> bool {
    ((v >> i) & 1u32) == 1u32
}

/// The bits of `v` at `positions`, in order.
pub open spec fn bits_at(v: u32, positions: Seq<u32>) -> Seq<bool> {
    Seq::new(positions.len(), |k: int| bit_of(v, positions[k]))
}

/// The positions `start`, `start + 1`, ..., `end - 1`.
pub open spec fn positions_range(start: u32, end: u32) -> Seq<u32> {
    Seq::new((end - start) as nat, |k: int| (start + k) as u32)
}

/// `v` with bit `p` set when `b` holds.
pub open spec fn or_bit(v: u32, p: u32, b: bool) -> u32 {
    if b { v | (1u32 << p) } else { v }
}

/// `v` with bit `p` made equal to `b`.
pub open spec fn put_bit(v: u32, p: u32, b: bool) -> u32 {
    if b { v | (1u32 << p) } else { v & !(1u32 << p) }
}

/// `v` with the first `k` bits of `part` or-ed in at the matching positions.
pub open spec fn or_bits(v: u32, positions: Seq<u32>, part: Seq<bool>, k: nat) -> u32
    decreases k,
{
    if k == 0 {
        v
    } else {
        or_bit(or_bits(v, positions, part, (k - 1) as nat), positions[k - 1], part[k - 1])
    }
}

/// `v` with the first `k` bits of `part` written at the matching positions.
pub open spec fn put_bits(v: u32, positions: Seq<u32>, part: Seq<bool>, k: nat) -> u32
    decreases k,
{
    if k == 0 {
        v
    } else {
        put_bit(put_bits(v, positions, part, (k - 1) as nat), positions[k - 1], part[k - 1])
    }
}

/// The smaller of two lengths.
pub open spec fn min_len(a: nat, b: nat) -> nat {
    if a <= b { a } else { b }
}

/// Every position is a bit of a `u32`.
pub open spec fn positions_fit(positions: Seq<u32>) -> bool {
    forall|k: int| 0 <= k < positions.len() ==> #[trigger] positions[k] < 32
}

/// The bits of `v` at `positions`.
fn collect_bits(v: u32, positions: &Vec<u32>) -> (res: Vec<bool>)
    requires
        positions_fit(positions@),
    ensures
        res@ == bits_at(v, positions@),
{
    let mut result: Vec<bool> = Vec::new();
    let mut i: usize = 0;
    while i < positions.len()
        invariant
            i <= positions@.len(),
            positions_fit(positions@),
            result@ =~= bits_at(v, positions@).take(i as int),
        decreases positions@.len() - i,
    {
        let p = positions[i];
        assert(p < 32);
        result.push(((v >> p) & 1u32) == 1u32);
        i = i + 1;
    }
    assert(bits_at(v, positions@).take(i as int) =~= bits_at(v, positions@));
    result
}

/// `v` with the bits of `part` or-ed in at `positions`, as far as both go.
fn or_into(v: u32, positions: &Vec<u32>, part: &[bool]) -> (res: u32)
    requires
        positions_fit(positions@),
    ensures
        res == or_bits(v, positions@, part@, min_len(positions@.len(), part@.len())),
{
    let mut result = v;
    let mut i: usize = 0;
    while i < positions.len() && i < part.len()
        invariant
            i <= positions@.len(),
            i <= part@.len(),
            positions_fit(positions@),
            result == or_bits(v, positions@, part@, i as nat),
        decreases positions@.len() - i,
    {
        let p = positions[i];
        assert(p < 32);
        if part[i] {
            result = result | (1u32 << p);
        }
        i = i + 1;
    }
    result
}

/// `v` with the bits of `part` written at `positions`, as far as both go.
fn put_into(v: u32, positions: &Vec<u32>, part: &[bool]) -> (res: u32)
    requires
        positions_fit(positions@),
    ensures
        res == put_bits(v, positions@, part@, min_len(positions@.len(), part@.len())),
{
    let mut result = v;
    let mut i: usize = 0;
    while i < positions.len() && i < part.len()
        invariant
            i <= positions@.len(),
            i <= part@.len(),
            positions_fit(positions@),
            result == put_bits(v, positions@, part@, i as nat),
        decreases positions@.len() - i,
    {
        let p = positions[i];
        assert(p < 32);
        if part[i] {
            result = result | (1u32 << p);
        } else {
            result = result & !(1u32 << p);
        }
        i = i + 1;
    }
    result
}

/// Appends `start`, ..., `end - 1` to `positions`.
fn push_range(positions: &mut Vec<u32>, start: u32, end: u32)
    requires
        start <= end,
    ensures
        final(positions)@ == old(positions)@ + positions_range(start, end),
{
    let mut p = start;
    while p < end
        invariant
            start <= p <= end,
            positions@ == old(positions)@ + positions_range(start, p),
        decreases end - p,
    {
        positions.push(p);
        p = p + 1;
        assert(positions@ =~= old(positions)@ + positions_range(start, p));
    }
}

/// The positions a jump encodes its offset with: bits 12 to 19, 11, 1 to 10, then 20.
pub open spec fn jal_positions() -> Seq<u32> {
    positions_range(12, 20) + seq![11u32] + positions_range(1, 11) + seq![20u32]
}

/// The positions the high part of a branch offset is encoded with: bits 5 to 10, then 12.
pub open spec fn branch_high_positions() -> Seq<u32> {
    positions_range(5, 11) + seq![12u32]
}

/// The positions the low part of a branch offset is encoded with: bit 11, then 1 to 4.
pub open spec fn branch_low_positions() -> Seq<u32> {
    seq![11u32] + positions_range(1, 5)
}

/// The offset from `address` to `target`, as the low 32 bits of the difference.
pub open spec fn branch_offset(target: i32, address: u64) -> u32 {
    (target - (address as i64)) as u32
}

/// The difference of `target` and `address` fits in an `i64`.
pub open spec fn offset_fits(target: i32, address: u64) -> bool {
    i64::MIN <= target - (address as i64) <= i64::MAX
}

fn jal_position_list() -> (res: Vec<u32>)
    ensures
        res@ == jal_positions(),
{
    let mut positions: Vec<u32> = Vec::new();
    push_range(&mut positions, 12, 20);
    positions.push(11);
    push_range(&mut positions, 1, 11);
    positions.push(20);
    assert(positions@ =~= jal_positions());
    positions
}

fn branch_high_position_list() -> (res: Vec<u32>)
    ensures
        res@ == branch_high_positions(),
{
    let mut positions: Vec<u32> = Vec::new();
    push_range(&mut positions, 5, 11);
    positions.push(12);
    assert(positions@ =~= branch_high_positions());
    positions
}

fn branch_low_position_list() -> (res: Vec<u32>)
    ensures
        res@ == branch_low_positions(),
{
    let mut positions: Vec<u32> = Vec::new();
    positions.push(11);
    push_range(&mut positions, 1, 5);
    assert(positions@ =~= branch_low_positions());
    positions
}

fn range_list(start: u32, end: u32) -> (res: Vec<u32>)
    requires
        start <= end,
    ensures
        res@ == positions_range(start, end),
{
    let mut positions: Vec<u32> = Vec::new();
    push_range(&mut positions, start, end);
    assert(positions@ =~= positions_range(start, end));
    positions
}

/// Takes one bit of an immediate.
#[derive(Debug, Eq, PartialEq, Copy, Clone)]
pub struct BitAt(pub u8);

/// Takes the bits `start..end` of an immediate.
#[derive(Debug, Clone, PartialEq, Eq)]
pub struct BitsAt {
    pub start: u8,
    pub end: u8,
}

/// Takes the 5 bits of a register index.
#[derive(Debug, Eq, PartialEq, Clone, Copy)]
pub struct Register;

/// Takes the 12 bits of a CSR address.
#[derive(Debug, Eq, PartialEq, Clone, Copy)]
pub struct Csr;

/// Takes the 20 bits of a jump offset, in the order a `jal` instruction holds them.
#[derive(Debug, Eq, PartialEq, Clone, Copy)]
pub struct JalForm;

/// Takes the high 7 bits of a branch offset, relative to the instruction's address.
#[derive(Debug, Eq, PartialEq, Clone, Copy)]
pub struct BranchHigh;

/// Takes the low 5 bits of a branch offset, relative to the instruction's address.
#[derive(Debug, Eq, PartialEq, Clone, Copy)]
pub struct BranchLow;

impl BitAt {
    /// The transformer for bit `index`.
    pub fn new(index: u8) -> (res: Self)
        ensures
            res.0 == index,
    {
        Self(index)
    }

    /// How many bits the transformer takes.
    pub fn bit_count(&self) -> (res: usize)
        ensures
            res == 1,
    {
        1
    }

    /// The bit of the immediate `argument` at this index.
    pub fn argument_to_bits(&self, _address: u64, argument: &ParsedParam) -> (res: Vec<bool>)
        requires
            self.0 < 32,
            argument is Immediate,
        ensures
            res@ == bits_at(argument->Immediate_0 as u32, seq![self.0 as u32]),
    {
        let positions = vec![self.0 as u32];
        assert(positions@ =~= seq![self.0 as u32]);
        collect_bits(argument.unwrap_immediate() as u32, &positions)
    }

    /// Or-s the first bit of `instruction_part` into an immediate `param` at this index.
    pub fn update_argument(&self, instruction_part: &[bool], param: &mut ParsedParam)
        requires
            self.0 < 32,
            instruction_part@.len() >= 1,
        ensures
            *old(param) matches ParsedParam::Immediate(v) ==> *final(param) == ParsedParam::Immediate(
                or_bits(v as u32, seq![self.0 as u32], instruction_part@, 1) as i32),
            !(*old(param) is Immediate) ==> *final(param) == *old(param),
    {
        if let ParsedParam::Immediate(value) = param {
            let positions = vec![self.0 as u32];
            assert(positions@ =~= seq![self.0 as u32]);
            assert(min_len(1, instruction_part@.len()) == 1);
            *value = or_into(*value as u32, &positions, instruction_part) as i32;
        }
    }

    /// The parameter decoding starts from.
    pub fn default_argument(&self) -> (res: ParsedParam)
        ensures
            res == ParsedParam::Immediate(0),
    {
        ParsedParam::Immediate(0)
    }
}

impl BitsAt {
    /// The transformer for the bits `start..end`.
    pub fn new(start: u8, end: u8) -> (res: Self)
        ensures
            res.start == start,
            res.end == end,
    {
        Self { start, end }
    }

    /// How many bits the transformer takes.
    pub fn bit_count(&self) -> (res: usize)
        requires
            self.start <= self.end,
        ensures
            res == self.end - self.start,
    {
        (self.end - self.start) as usize
    }

    /// The bits `start..end` of the immediate `argument`.
    pub fn argument_to_bits(&self, _address: u64, argument: &ParsedParam) -> (res: Vec<bool>)
        requires
            self.start <= self.end <= 32,
            argument is Immediate,
        ensures
            res@ == bits_at(argument->Immediate_0 as u32, positions_range(self.start as u32, self.end as u32)),
    {
        let positions = range_list(self.start as u32, self.end as u32);
        collect_bits(argument.unwrap_immediate() as u32, &positions)
    }

    /// Or-s `instruction_part` into an immediate `param` at `start..end`.
    pub fn update_argument(&self, instruction_part: &[bool], param: &mut ParsedParam)
        requires
            self.start <= self.end <= 32,
        ensures
            *old(param) matches ParsedParam::Immediate(v) ==> *final(param) == ParsedParam::Immediate(
                or_bits(v as u32, positions_range(self.start as u32, self.end as u32), instruction_part@,
                    min_len((self.end - self.start) as nat, instruction_part@.len())) as i32),
            !(*old(param) is Immediate) ==> *final(param) == *old(param),
    {
        if let ParsedParam::Immediate(value) = param {
            let positions = range_list(self.start as u32, self.end as u32);
            *value = or_into(*value as u32, &positions, instruction_part) as i32;
        }
    }

    /// The parameter decoding starts from.
    pub fn default_argument(&self) -> (res: ParsedParam)
        ensures
            res == ParsedParam::Immediate(0),
    {
        ParsedParam::Immediate(0)
    }
}

impl Register {
    /// The register transformer.
    pub fn new() -> (res: Self) {
        Self
    }

    /// How many bits the transformer takes.
    pub fn bit_count(&self) -> (res: usize)
        ensures
            res == 5,
    {
        5
    }

    /// The 5 low bits of the register index `argument`.
    pub fn argument_to_bits(&self, _address: u64, argument: &ParsedParam) -> (res: Vec<bool>)
        requires
            argument is Register,
        ensures
            res@ == bits_at(argument->Register_0 as u32, positions_range(0, 5)),
    {
        let positions = range_list(0, 5);
        collect_bits(argument.unwrap_register() as u32, &positions)
    }

    /// Writes `instruction_part` into the 5 low bits of a register `param`.
    pub fn update_argument(&self, instruction_part: &[bool], param: &mut ParsedParam)
        ensures
            *old(param) matches ParsedParam::Register(v) ==> *final(param) == ParsedParam::Register(
                put_bits(v as u32, positions_range(0, 5), instruction_part@,
                    min_len(5, instruction_part@.len())) as u8),
            !(*old(param) is Register) ==> *final(param) == *old(param),
    {
        if let ParsedParam::Register(value) = param {
            let positions = range_list(0, 5);
            *value = put_into(*value as u32, &positions, instruction_part) as u8;
        }
    }

    /// The parameter decoding starts from.
    pub fn default_argument(&self) -> (res: ParsedParam)
        ensures
            res == ParsedParam::Register(0),
    {
        ParsedParam::Register(0)
    }
}

impl Csr {
    /// The CSR transformer.
    pub fn new() -> (res: Self) {
        Self
    }

    /// How many bits the transformer takes.
    pub fn bit_count(&self) -> (res: usize)
        ensures
            res == 12,
    {
        12
    }

    /// The 12 bits of the CSR address `argument`.
    pub fn argument_to_bits(&self, _address: u64, argument: &ParsedParam) -> (res: Vec<bool>)
        requires
            argument is Csr,
        ensures
            res@ == bits_at(argument->Csr_0 as u32, positions_range(0, 12)),
    {
        let positions = range_list(0, 12);
        collect_bits(argument.unwrap_csr() as u32, &positions)
    }

    /// Or-s `instruction_part` into the 12 low bits of a CSR `param`.
    pub fn update_argument(&self, instruction_part: &[bool], param: &mut ParsedParam)
        ensures
            *old(param) matches ParsedParam::Csr(v) ==> *final(param) == ParsedParam::Csr(
                or_bits(v as u32, positions_range(0, 12), instruction_part@,
                    min_len(12, instruction_part@.len())) as u16),
            !(*old(param) is Csr) ==> *final(param) == *old(param),
    {
        if let ParsedParam::Csr(value) = param {
            let positions = range_list(0, 12);
            *value = or_into(*value as u32, &positions, instruction_part) as u16;
        }
    }

    /// The parameter decoding starts from.
    pub fn default_argument(&self) -> (res: ParsedParam)
        ensures
            res == ParsedParam::Csr(0),
    {
        ParsedParam::Csr(0)
    }
}

impl JalForm {
    /// The `jal` immediate transformer.
    pub fn new() -> (res: Self) {
        Self
    }

    /// How many bits the transformer takes.
    pub fn bit_count(&self) -> (res: usize)
        ensures
            res == 20,
    {
        20
    }

    /// The 20 bits of the immediate `argument` that a `jal` holds, in its order.
    pub fn argument_to_bits(&self, _address: u64, argument: &ParsedParam) -> (res: Vec<bool>)
        requires
            argument is Immediate,
        ensures
            res@ == bits_at(argument->Immediate_0 as u32, jal_positions()),
    {
        let positions = jal_position_list();
        let immediate = argument.unwrap_immediate();
        let n = immediate as u64;
        assert((n as u32) == (immediate as u32)) by (bit_vector)
            requires
                n == immediate as u64,
        ;
        collect_bits(n as u32, &positions)
    }

    /// Or-s `instruction_part`, in the order a `jal` holds the bits, into an immediate `param`.
    pub fn update_argument(&self, instruction_part: &[bool], param: &mut ParsedParam)
        ensures
            *old(param) matches ParsedParam::Immediate(v) ==> *final(param) == ParsedParam::Immediate(
                or_bits(v as u32, jal_positions(), instruction_part@,
                    min_len(20, instruction_part@.len())) as i32),
            !(*old(param) is Immediate) ==> *final(param) == *old(param),
    {
        if let ParsedParam::Immediate(value) = param {
            let positions = jal_position_list();
            *value = or_into(*value as u32, &positions, instruction_part) as i32;
        }
    }

    /// The parameter decoding starts from.
    pub fn default_argument(&self) -> (res: ParsedParam)
        ensures
            res == ParsedParam::Immediate(0),
    {
        ParsedParam::Immediate(0)
    }
}

impl BranchHigh {
    /// The high branch offset transformer.
    pub fn new() -> (res: Self) {
        Self
    }

    /// How many bits the transformer takes.
    pub fn bit_count(&self) -> (res: usize)
        ensures
            res == 7,
    {
        7
    }

    /// The high 7 bits of the offset from `address` to the immediate `argument`.
    pub fn argument_to_bits(&self, address: u64, argument: &ParsedParam) -> (res: Vec<bool>)
        requires
            argument is Immediate,
            offset_fits(argument->Immediate_0, address),
        ensures
            res@ == bits_at(branch_offset(argument->Immediate_0, address), branch_high_positions()),
    {
        let positions = branch_high_position_list();
        let offset = (argument.unwrap_immediate() as i64 - address as i64) as u32;
        collect_bits(offset, &positions)
    }

    /// Writes `instruction_part` into the high bits of an immediate `param`.
    pub fn update_argument(&self, instruction_part: &[bool], param: &mut ParsedParam)
        ensures
            *old(param) matches ParsedParam::Immediate(v) ==> *final(param) == ParsedParam::Immediate(
                put_bits(v as u32, branch_high_positions(), instruction_part@,
                    min_len(7, instruction_part@.len())) as i32),
            !(*old(param) is Immediate) ==> *final(param) == *old(param),
    {
        if let ParsedParam::Immediate(value) = param {
            let positions = branch_high_position_list();
            *value = put_into(*value as u32, &positions, instruction_part) as i32;
        }
    }

    /// The parameter decoding starts from.
    pub fn default_argument(&self) -> (res: ParsedParam)
        ensures
            res == ParsedParam::Immediate(0),
    {
        ParsedParam::Immediate(0)
    }
}

impl BranchLow {
    /// The low branch offset transformer.
    pub fn new() -> (res: Self) {
        Self
    }

    /// How many bits the transformer takes.
    pub fn bit_count(&self) -> (res: usize)
        ensures
            res == 5,
    {
        5
    }

    /// The low 5 bits of the offset from `address` to the immediate `argument`.
    pub fn argument_to_bits(&self, address: u64, argument: &ParsedParam) -> (res: Vec<bool>)
        requires
            argument is Immediate,
            offset_fits(argument->Immediate_0, address),
        ensures
            res@ == bits_at(branch_offset(argument->Immediate_0, address), branch_low_positions()),
    {
        let positions = branch_low_position_list();
        let offset = (argument.unwrap_immediate() as i64 - address as i64) as u32;
        collect_bits(offset, &positions)
    }

    /// Writes `instruction_part` into the low bits of an immediate `param`.
    pub fn update_argument(&self, instruction_part: &[bool], param: &mut ParsedParam)
        ensures
            *old(param) matches ParsedParam::Immediate(v) ==> *final(param) == ParsedParam::Immediate(
                put_bits(v as u32, branch_low_positions(), instruction_part@,
                    min_len(5, instruction_part@.len())) as i32),
            !(*old(param) is Immediate) ==> *final(param) == *old(param),
    {
        if let ParsedParam::Immediate(value) = param {
            let positions = branch_low_position_list();
            *value = put_into(*value as u32, &positions, instruction_part) as i32;
        }
    }

    /// The parameter decoding starts from.
    pub fn default_argument(&self) -> (res: ParsedParam)
        ensures
            res == ParsedParam::Immediate(0),
    {
        ParsedParam::Immediate(0)
    }
}

/// Setting bit `p` changes bit `q` only where `q` is `p`.
proof fn lemma_bit_set(v: u32, p: u32, q: u32)
    requires
        p < 32,
        q < 32,
    ensures
        bit_of(v | (1u32 << p), q) == (bit_of(v, q) || p == q),
{
    assert((((v | (1u32 << p)) >> q) & 1u32 == 1u32) == ((((v >> q) & 1u32) == 1u32) || p == q)) by (bit_vector)
        requires
            p < 32,
            q < 32,
    ;
}

/// Clearing bit `p` changes bit `q` only where `q` is `p`.
proof fn lemma_bit_clear(v: u32, p: u32, q: u32)
    requires
        p < 32,
        q < 32,
    ensures
        bit_of(v & !(1u32 << p), q) == (bit_of(v, q) && p != q),
{
    assert((((v & !(1u32 << p)) >> q) & 1u32 == 1u32) == ((((v >> q) & 1u32) == 1u32) && p != q)) by (bit_vector)
        requires
            p < 32,
            q < 32,
    ;
}

/// Zero has no bit set.
proof fn lemma_bit_zero(q: u32)
    requires
        q < 32,
    ensures
        !bit_of(0, q),
{
    assert(((0u32 >> q) & 1u32) != 1u32) by (bit_vector);
}

/// No position occurs twice.
pub open spec fn distinct(positions: Seq<u32>) -> bool {
    forall|i: int, j: int| 0 <= i < j < positions.len() ==> positions[i] != positions[j]
}

/// Bit `q` after or-ing in the first `n` bits of `part`: set before, or set by one of them.
pub proof fn lemma_or_bits(v: u32, positions: Seq<u32>, part: Seq<bool>, n: nat, q: u32)
    requires
        positions_fit(positions),
        n <= positions.len(),
        n <= part.len(),
        q < 32,
    ensures
        bit_of(or_bits(v, positions, part, n), q) == (bit_of(v, q)
            || exists|k: int| 0 <= k < n && positions[k] == q && #[trigger] part[k]),
    decreases n,
{
    if n > 0 {
        lemma_or_bits(v, positions, part, (n - 1) as nat, q);
        let prev = or_bits(v, positions, part, (n - 1) as nat);
        let p = positions[n - 1];
        assert(p < 32);
        if part[n - 1] {
            lemma_bit_set(prev, p, q);
        }
        if exists|k: int| 0 <= k < n && positions[k] == q && #[trigger] part[k] {
            let k = choose|k: int| 0 <= k < n && positions[k] == q && #[trigger] part[k];
            if k < n - 1 {
                assert(exists|k2: int| 0 <= k2 < n - 1 && positions[k2] == q && #[trigger] part[k2]);
            }
        }
    }
}

/// Bit `q` after writing the first `n` bits of `part`: the last written bit at `q`, or the old
/// bit where none was written there.
pub proof fn lemma_put_bits(v: u32, positions: Seq<u32>, part: Seq<bool>, n: nat, k: int)
    requires
        positions_fit(positions),
        distinct(positions),
        n <= positions.len(),
        n <= part.len(),
        0 <= k < n,
    ensures
        bit_of(put_bits(v, positions, part, n), positions[k]) == part[k],
    decreases n,
{
    let prev = put_bits(v, positions, part, (n - 1) as nat);
    let p = positions[n - 1];
    let q = positions[k];
    assert(p < 32 && q < 32);
    if k < n - 1 {
        lemma_put_bits(v, positions, part, (n - 1) as nat, k);
        assert(p != q);
    }
    if part[n - 1] {
        lemma_bit_set(prev, p, q);
    } else {
        lemma_bit_clear(prev, p, q);
    }
}

/// Taking the bits of `x` at `positions` and or-ing them into zero gives back the bits of `x`
/// at those positions, and leaves every other bit clear.
pub proof fn lemma_or_bits_roundtrip(x: u32, positions: Seq<u32>, q: u32)
    requires
        positions_fit(positions),
        q < 32,
    ensures
        bit_of(or_bits(0, positions, bits_at(x, positions), positions.len()), q)
            == exists|k: int| 0 <= k < positions.len() && positions[k] == q && bit_of(x, #[trigger] positions[k]),
{
    let part = bits_at(x, positions);
    lemma_or_bits(0, positions, part, positions.len(), q);
    lemma_bit_zero(q);
    if exists|k: int| 0 <= k < positions.len() && positions[k] == q && #[trigger] part[k] {
        let k = choose|k: int| 0 <= k < positions.len() && positions[k] == q && #[trigger] part[k];
        assert(bit_of(x, positions[k]));
    }
    if exists|k: int| 0 <= k < positions.len() && positions[k] == q && bit_of(x, #[trigger] positions[k]) {
        let k = choose|k: int| 0 <= k < positions.len() && positions[k] == q && bit_of(x, #[trigger] positions[k]);
        assert(part[k]);
    }
}

/// Taking the bits of `x` at distinct `positions` and writing them into any `v` makes those
/// bits of `v` equal to those of `x`.
pub proof fn lemma_put_bits_roundtrip(v: u32, x: u32, positions: Seq<u32>, k: int)
    requires
        positions_fit(positions),
        distinct(positions),
        0 <= k < positions.len(),
    ensures
        bit_of(put_bits(v, positions, bits_at(x, positions), positions.len()), positions[k]) == bit_of(x, positions[k]),
{
    lemma_put_bits(v, positions, bits_at(x, positions), positions.len(), k);
}

pub(crate) proof fn lemma_u32_i32(y: u32)
    ensures
        (y as i32) as u32 == y,
{
    assert((y as i32) as u32 == y) by (bit_vector);
}

pub(crate) proof fn lemma_range_fits(start: u32, end: u32)
    requires
        start <= end <= 32,
    ensures
        positions_fit(positions_range(start, end)),
        distinct(positions_range(start, end)),
{
}

/// Encoding an immediate with `BitsAt` and decoding the bits into a fresh immediate gives back
/// the bits `start..end` of the immediate, and no others.
pub proof fn lemma_bits_at_roundtrip(t: BitsAt, x: i32, q: u32)
    requires
        t.start <= t.end <= 32,
        q < 32,
    ensures
        bit_of((or_bits(0, positions_range(t.start as u32, t.end as u32),
            bits_at(x as u32, positions_range(t.start as u32, t.end as u32)),
            min_len((t.end - t.start) as nat, (t.end - t.start) as nat)) as i32) as u32, q)
            == (t.start <= q < t.end && bit_of(x as u32, q)),
{
    let pr = positions_range(t.start as u32, t.end as u32);
    lemma_range_fits(t.start as u32, t.end as u32);
    lemma_or_bits_roundtrip(x as u32, pr, q);
    lemma_u32_i32(or_bits(0, pr, bits_at(x as u32, pr), pr.len()));
    if t.start <= q < t.end {
        assert(pr[q - t.start] == q);
    }
}

/// Encoding an immediate for a `jal` and decoding the bits into a fresh immediate gives back
/// bits 1 to 20 of the immediate and clears the others.
pub proof fn lemma_jal_form_roundtrip(x: i32, q: u32)
    requires
        q < 32,
    ensures
        bit_of((or_bits(0, jal_positions(), bits_at(x as u32, jal_positions()), min_len(20, 20)) as i32) as u32, q)
            == (1 <= q <= 20 && bit_of(x as u32, q)),
{
    let pos = jal_positions();
    assert(pos.len() == 20);
    assert(positions_fit(pos));
    lemma_or_bits_roundtrip(x as u32, pos, q);
    lemma_u32_i32(or_bits(0, pos, bits_at(x as u32, pos), pos.len()));
    if 12 <= q < 20 {
        assert(pos[q - 12] == q);
    } else if q == 11 {
        assert(pos[8] == q);
    } else if 1 <= q < 11 {
        assert(pos[q + 8] == q);
    } else if q == 20 {
        assert(pos[19] == q);
    }
}

/// Encoding a register index and decoding the bits into any register index makes its 5 low
/// bits those of the first.
pub proof fn lemma_register_roundtrip(v: u8, x: u8, q: u32)
    requires
        q < 5,
    ensures
        bit_of(put_bits(v as u32, positions_range(0, 5), bits_at(x as u32, positions_range(0, 5)), min_len(5, 5)), q)
            == bit_of(x as u32, q),
{
    let pr = positions_range(0, 5);
    lemma_range_fits(0, 5);
    assert(pr[q as int] == q);
    lemma_put_bits_roundtrip(v as u32, x as u32, pr, q as int);
}

/// Encoding the offset of a branch in its high and low parts and decoding both into any
/// immediate makes bits 1 to 12 of the immediate those of the offset.
pub proof fn lemma_branch_roundtrip(v: i32, offset: u32, q: u32)
    requires
        1 <= q <= 12,
    ensures
        bit_of(put_bits(
            (put_bits(v as u32, branch_high_positions(), bits_at(offset, branch_high_positions()), min_len(7, 7)) as i32) as u32,
            branch_low_positions(), bits_at(offset, branch_low_positions()), min_len(5, 5)), q)
            == bit_of(offset, q),
{
    let high = branch_high_positions();
    let low = branch_low_positions();
    assert(high.len() == 7 && low.len() == 5);
    assert(positions_fit(high) && distinct(high));
    assert(positions_fit(low) && distinct(low));
    let mid = put_bits(v as u32, high, bits_at(offset, high), 7);
    lemma_u32_i32(mid);
    if q == 11 || q < 5 {
        let k: int = if q == 11 { 0 } else { q as int };
        assert(low[k] == q);
        lemma_put_bits_roundtrip(mid, offset, low, k);
    } else {
        let k: int = if q == 12 { 6 } else { q - 5 };
        assert(high[k] == q);
        lemma_put_bits_roundtrip(v as u32, offset, high, k);
        assert forall|j: int| 0 <= j < 5 implies low[j] != q by {}
        lemma_put_bits_unwritten(mid, low, bits_at(offset, low), 5, q);
    }
}

/// Writing bits at positions other than `q` leaves bit `q` as it was.
pub proof fn lemma_put_bits_unwritten(v: u32, positions: Seq<u32>, part: Seq<bool>, n: nat, q: u32)
    requires
        positions_fit(positions),
        n <= positions.len(),
        n <= part.len(),
        q < 32,
        forall|j: int| 0 <= j < n ==> positions[j] != q,
    ensures
        bit_of(put_bits(v, positions, part, n), q) == bit_of(v, q),
    decreases n,
{
    if n > 0 {
        lemma_put_bits_unwritten(v, positions, part, (n - 1) as nat, q);
        let prev = put_bits(v, positions, part, (n - 1) as nat);
        let p = positions[n - 1];
        assert(p < 32);
        if part[n - 1] {
            lemma_bit_set(prev, p, q);
        } else {
            lemma_bit_clear(prev, p, q);
        }
    }
}

/// Any of the transformers.
#[derive(Debug, Eq, PartialEq, Clone)]
pub enum ParamTransformer {
    BitAt(BitAt),
    BitsAt(BitsAt),
    Register(Register),
    Csr(Csr),
    JalForm(JalForm),
    BranchHigh(BranchHigh),
    BranchLow(BranchLow),
}

impl ParamTransformer {
    /// The transformer names bits of a `u32`.
    pub open spec fn well_formed(self) -> bool {
        match self {
            ParamTransformer::BitAt(t) => t.0 < 32,
            ParamTransformer::BitsAt(t) => t.start <= t.end <= 32,
            _ => true,
        }
    }

    /// The positions of the parameter's value that the transformer takes, in order.
    pub open spec fn positions(self) -> Seq<u32> {
        match self {
            ParamTransformer::BitAt(t) => seq![t.0 as u32],
            ParamTransformer::BitsAt(t) => positions_range(t.start as u32, t.end as u32),
            ParamTransformer::Register(_) => positions_range(0, 5),
            ParamTransformer::Csr(_) => positions_range(0, 12),
            ParamTransformer::JalForm(_) => jal_positions(),
            ParamTransformer::BranchHigh(_) => branch_high_positions(),
            ParamTransformer::BranchLow(_) => branch_low_positions(),
        }
    }

    /// The parameter is of the kind the transformer reads.
    pub open spec fn accepts(self, address: u64, argument: ParsedParam) -> bool {
        match self {
            ParamTransformer::Register(_) => argument is Register,
            ParamTransformer::Csr(_) => argument is Csr,
            ParamTransformer::BranchHigh(_) => argument is Immediate && offset_fits(argument->Immediate_0, address),
            ParamTransformer::BranchLow(_) => argument is Immediate && offset_fits(argument->Immediate_0, address),
            _ => argument is Immediate,
        }
    }

    /// The value the transformer takes its bits from.
    pub open spec fn source(self, address: u64, argument: ParsedParam) -> u32 {
        match (self, argument) {
            (ParamTransformer::Register(_), ParsedParam::Register(r)) => r as u32,
            (ParamTransformer::Csr(_), ParsedParam::Csr(c)) => c as u32,
            (ParamTransformer::BranchHigh(_), ParsedParam::Immediate(i)) => branch_offset(i, address),
            (ParamTransformer::BranchLow(_), ParsedParam::Immediate(i)) => branch_offset(i, address),
            (_, ParsedParam::Immediate(i)) => i as u32,
            _ => 0,
        }
    }

    /// How many bits the transformer takes.
    pub fn bit_count(&self) -> (res: usize)
        requires
            self.well_formed(),
        ensures
            res == self.positions().len(),
    {
        match self {
            ParamTransformer::BitAt(x) => x.bit_count(),
            ParamTransformer::BitsAt(x) => x.bit_count(),
            ParamTransformer::Register(x) => x.bit_count(),
            ParamTransformer::Csr(x) => x.bit_count(),
            ParamTransformer::JalForm(x) => x.bit_count(),
            ParamTransformer::BranchHigh(x) => x.bit_count(),
            ParamTransformer::BranchLow(x) => x.bit_count(),
        }
    }

    /// The bits the transformer takes from `argument`, for an instruction at `address`.
    pub fn argument_to_bits(&self, address: u64, argument: &ParsedParam) -> (res: Vec<bool>)
        requires
            self.well_formed(),
            self.accepts(address, *argument),
        ensures
            res@ == bits_at(self.source(address, *argument), self.positions()),
    {
        match self {
            ParamTransformer::BitAt(x) => x.argument_to_bits(address, argument),
            ParamTransformer::BitsAt(x) => x.argument_to_bits(address, argument),
            ParamTransformer::Register(x) => x.argument_to_bits(address, argument),
            ParamTransformer::Csr(x) => x.argument_to_bits(address, argument),
            ParamTransformer::JalForm(x) => x.argument_to_bits(address, argument),
            ParamTransformer::BranchHigh(x) => x.argument_to_bits(address, argument),
            ParamTransformer::BranchLow(x) => x.argument_to_bits(address, argument),
        }
    }

    /// The parameter an instruction starts from before its bits are decoded into it.
    pub fn default_argument(&self) -> (res: ParsedParam)
        ensures
            self is Register ==> res == ParsedParam::Register(0),
            self is Csr ==> res == ParsedParam::Csr(0),
            !(self is Register || self is Csr) ==> res == ParsedParam::Immediate(0),
    {
        match self {
            ParamTransformer::BitAt(x) => x.default_argument(),
            ParamTransformer::BitsAt(x) => x.default_argument(),
            ParamTransformer::Register(x) => x.default_argument(),
            ParamTransformer::Csr(x) => x.default_argument(),
            ParamTransformer::JalForm(x) => x.default_argument(),
            ParamTransformer::BranchHigh(x) => x.default_argument(),
            ParamTransformer::BranchLow(x) => x.default_argument(),
        }
    }
}

impl ParamTransformer {
    /// Whether the transformer writes its bits into the parameter, rather than or-ing them in.
    pub open spec fn writes_bits(self) -> bool {
        self is Register || self is BranchHigh || self is BranchLow
    }

    /// The kind of parameter the transformer decodes into.
    pub open spec fn decodes(self, p: ParsedParam) -> bool {
        match self {
            ParamTransformer::Register(_) => p is Register,
            ParamTransformer::Csr(_) => p is Csr,
            _ => p is Immediate,
        }
    }

    /// `p` after the bits `part` are decoded into it.
    pub open spec fn update_spec(self, part: Seq<bool>, p: ParsedParam) -> ParsedParam {
        let count = min_len(self.positions().len(), part.len());
        match p {
            ParsedParam::Immediate(v) => if self.decodes(p) {
                ParsedParam::Immediate((if self.writes_bits() {
                    put_bits(v as u32, self.positions(), part, count)
                } else {
                    or_bits(v as u32, self.positions(), part, count)
                }) as i32)
            } else {
                p
            },
            ParsedParam::Register(v) => if self.decodes(p) {
                ParsedParam::Register(put_bits(v as u32, self.positions(), part, count) as u8)
            } else {
                p
            },
            ParsedParam::Csr(v) => if self.decodes(p) {
                ParsedParam::Csr(or_bits(v as u32, self.positions(), part, count) as u16)
            } else {
                p
            },
            _ => p,
        }
    }

    /// Decodes the bits `instruction_part` into `param`.
    pub fn update_argument(&self, instruction_part: &[bool], param: &mut ParsedParam)
        requires
            self.well_formed(),
            self is BitAt ==> instruction_part@.len() >= 1,
        ensures
            *final(param) == self.update_spec(instruction_part@, *old(param)),
    {
        match self {
            ParamTransformer::BitAt(x) => {
                proof {
                    assert(min_len(1, instruction_part@.len()) == 1);
                }
                x.update_argument(instruction_part, param)
            },
            ParamTransformer::BitsAt(x) => x.update_argument(instruction_part, param),
            ParamTransformer::Register(x) => x.update_argument(instruction_part, param),
            ParamTransformer::Csr(x) => x.update_argument(instruction_part, param),
            ParamTransformer::JalForm(x) => x.update_argument(instruction_part, param),
            ParamTransformer::BranchHigh(x) => x.update_argument(instruction_part, param),
            ParamTransformer::BranchLow(x) => x.update_argument(instruction_part, param),
        }
    }
}

/// What every parameter transformer does: take the bits of a parameter it is placed at in an
/// instruction, decode bits of an instruction back into a parameter, give the parameter
/// decoding starts from, and count its bits. Each is what the transformer does as one of
/// [`ParamTransformer`].
pub trait IsParamTransformer {
    /// The transformer as one of all the transformers.
    spec fn transformer(&self) -> ParamTransformer;

    /// The bits the transformer takes from `param`, for an instruction at `address`.
    fn param_to_instruction_part(&self, address: u64, param: &ParsedParam) -> (res: Vec<bool>)
        requires
            self.transformer().well_formed(),
            self.transformer().accepts(address, *param),
        ensures
            res@ == bits_at(self.transformer().source(address, *param), self.transformer().positions()),
    ;

    /// Decodes the bits `instruction_part` into `param`.
    fn update_param(&self, instruction_part: &[bool], param: &mut ParsedParam)
        requires
            self.transformer().well_formed(),
            self.transformer() is BitAt ==> instruction_part@.len() >= 1,
        ensures
            *final(param) == self.transformer().update_spec(instruction_part@, *old(param)),
    ;

    /// The parameter decoding starts from.
    fn default_param(&self) -> (res: ParsedParam)
        ensures
            self.transformer() is Register ==> res == ParsedParam::Register(0),
            self.transformer() is Csr ==> res == ParsedParam::Csr(0),
            !(self.transformer() is Register || self.transformer() is Csr) ==> res == ParsedParam::Immediate(0),
    ;

    /// How many bits the transformer takes.
    fn bit_count(&self) -> (res: usize)
        requires
            self.transformer().well_formed(),
        ensures
            res == self.transformer().positions().len(),
    ;
}

impl IsParamTransformer for ParamTransformer {
    open spec fn transformer(&self) -> ParamTransformer {
        *self
    }

    fn param_to_instruction_part(&self, address: u64, param: &ParsedParam) -> (res: Vec<bool>) {
        self.argument_to_bits(address, param)
    }

    fn update_param(&self, instruction_part: &[bool], param: &mut ParsedParam) {
        self.update_argument(instruction_part, param)
    }

    fn default_param(&self) -> (res: ParsedParam) {
        self.default_argument()
    }

    fn bit_count(&self) -> (res: usize) {
        ParamTransformer::bit_count(self)
    }
}

impl IsParamTransformer for BitAt {
    open spec fn transformer(&self) -> ParamTransformer {
        ParamTransformer::BitAt(*self)
    }

    fn param_to_instruction_part(&self, address: u64, param: &ParsedParam) -> (res: Vec<bool>) {
        let t = ParamTransformer::BitAt(BitAt(self.0));
        t.argument_to_bits(address, param)
    }

    fn update_param(&self, instruction_part: &[bool], param: &mut ParsedParam) {
        let t = ParamTransformer::BitAt(BitAt(self.0));
        t.update_argument(instruction_part, param)
    }

    fn default_param(&self) -> (res: ParsedParam) {
        let t = ParamTransformer::BitAt(BitAt(self.0));
        t.default_argument()
    }

    fn bit_count(&self) -> (res: usize) {
        let t = ParamTransformer::BitAt(BitAt(self.0));
        ParamTransformer::bit_count(&t)
    }
}

impl IsParamTransformer for BitsAt {
    open spec fn transformer(&self) -> ParamTransformer {
        ParamTransformer::BitsAt(*self)
    }

    fn param_to_instruction_part(&self, address: u64, param: &ParsedParam) -> (res: Vec<bool>) {
        let t = ParamTransformer::BitsAt(BitsAt { start: self.start, end: self.end });
        t.argument_to_bits(address, param)
    }

    fn update_param(&self, instruction_part: &[bool], param: &mut ParsedParam) {
        let t = ParamTransformer::BitsAt(BitsAt { start: self.start, end: self.end });
        t.update_argument(instruction_part, param)
    }

    fn default_param(&self) -> (res: ParsedParam) {
        let t = ParamTransformer::BitsAt(BitsAt { start: self.start, end: self.end });
        t.default_argument()
    }

    fn bit_count(&self) -> (res: usize) {
        let t = ParamTransformer::BitsAt(BitsAt { start: self.start, end: self.end });
        ParamTransformer::bit_count(&t)
    }
}

impl IsParamTransformer for Register {
    open spec fn transformer(&self) -> ParamTransformer {
        ParamTransformer::Register(Register)
    }

    fn param_to_instruction_part(&self, address: u64, param: &ParsedParam) -> (res: Vec<bool>) {
        let t = ParamTransformer::Register(Register);
        t.argument_to_bits(address, param)
    }

    fn update_param(&self, instruction_part: &[bool], param: &mut ParsedParam) {
        let t = ParamTransformer::Register(Register);
        t.update_argument(instruction_part, param)
    }

    fn default_param(&self) -> (res: ParsedParam) {
        let t = ParamTransformer::Register(Register);
        t.default_argument()
    }

    fn bit_count(&self) -> (res: usize) {
        let t = ParamTransformer::Register(Register);
        ParamTransformer::bit_count(&t)
    }
}

impl IsParamTransformer for Csr {
    open spec fn transformer(&self) -> ParamTransformer {
        ParamTransformer::Csr(Csr)
    }

    fn param_to_instruction_part(&self, address: u64, param: &ParsedParam) -> (res: Vec<bool>) {
        let t = ParamTransformer::Csr(Csr);
        t.argument_to_bits(address, param)
    }

    fn update_param(&self, instruction_part: &[bool], param: &mut ParsedParam) {
        let t = ParamTransformer::Csr(Csr);
        t.update_argument(instruction_part, param)
    }

    fn default_param(&self) -> (res: ParsedParam) {
        let t = ParamTransformer::Csr(Csr);
        t.default_argument()
    }

    fn bit_count(&self) -> (res: usize) {
        let t = ParamTransformer::Csr(Csr);
        ParamTransformer::bit_count(&t)
    }
}

impl IsParamTransformer for JalForm {
    open spec fn transformer(&self) -> ParamTransformer {
        ParamTransformer::JalForm(JalForm)
    }

    fn param_to_instruction_part(&self, address: u64, param: &ParsedParam) -> (res: Vec<bool>) {
        let t = ParamTransformer::JalForm(JalForm);
        t.argument_to_bits(address, param)
    }

    fn update_param(&self, instruction_part: &[bool], param: &mut ParsedParam) {
        let t = ParamTransformer::JalForm(JalForm);
        t.update_argument(instruction_part, param)
    }

    fn default_param(&self) -> (res: ParsedParam) {
        let t = ParamTransformer::JalForm(JalForm);
        t.default_argument()
    }

    fn bit_count(&self) -> (res: usize) {
        let t = ParamTransformer::JalForm(JalForm);
        ParamTransformer::bit_count(&t)
    }
}

impl IsParamTransformer for BranchHigh {
    open spec fn transformer(&self) -> ParamTransformer {
        ParamTransformer::BranchHigh(BranchHigh)
    }

    fn param_to_instruction_part(&self, address: u64, param: &ParsedParam) -> (res: Vec<bool>) {
        let t = ParamTransformer::BranchHigh(BranchHigh);
        t.argument_to_bits(address, param)
    }

    fn update_param(&self, instruction_part: &[bool], param: &mut ParsedParam) {
        let t = ParamTransformer::BranchHigh(BranchHigh);
        t.update_argument(instruction_part, param)
    }

    fn default_param(&self) -> (res: ParsedParam) {
        let t = ParamTransformer::BranchHigh(BranchHigh);
        t.default_argument()
    }

    fn bit_count(&self) -> (res: usize) {
        let t = ParamTransformer::BranchHigh(BranchHigh);
        ParamTransformer::bit_count(&t)
    }
}

impl IsParamTransformer for BranchLow {
    open spec fn transformer(&self) -> ParamTransformer {
        ParamTransformer::BranchLow(BranchLow)
    }

    fn param_to_instruction_part(&self, address: u64, param: &ParsedParam) -> (res: Vec<bool>) {
        let t = ParamTransformer::BranchLow(BranchLow);
        t.argument_to_bits(address, param)
    }

    fn update_param(&self, instruction_part: &[bool], param: &mut ParsedParam) {
        let t = ParamTransformer::BranchLow(BranchLow);
        t.update_argument(instruction_part, param)
    }

    fn default_param(&self) -> (res: ParsedParam) {
        let t = ParamTransformer::BranchLow(BranchLow);
        t.default_argument()
    }

    fn bit_count(&self) -> (res: usize) {
        let t = ParamTransformer::BranchLow(BranchLow);
        ParamTransformer::bit_count(&t)
    }
}

} // verus!
