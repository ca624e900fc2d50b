//! Reading templates of instructions from their text: bit patterns written most significant bit
//! first, and parameter references such as `{{ params[0] | bits_at(0, 5) }}`.
use vstd::prelude::*;

use crate::clef::Bits;
use crate::template::{InstructionTemplate, TemplatePart};
use crate::text::{chars_of, digits_value, is_digit};
use crate::transform::{BitAt, BitsAt, BranchHigh, BranchLow, Csr, JalForm, ParamTransformer, Register};

verus! {

/// Whether `c` is white space.
pub open spec fn is_space(c: char) -> bool {
    c == ' ' || c == '\t' || c == '\n' || c == '\r'
}

/// The position of the first character at or after `i` that is not white space.
pub open spec fn skip_spaces(s: Seq<char>, i: nat) -> nat
    decreases s.len() - i,
{
    if i < s.len() && is_space(s[i as int]) {
        skip_spaces(s, i + 1)
    } else {
        i
    }
}

/// Whether `t` stands in `s` at `i`.
pub open spec fn has_tag(s: Seq<char>, i: nat, t: Seq<char>) -> bool {
    i + t.len() <= s.len() && s.subrange(i as int, (i + t.len()) as int) == t
}

/// The position after the digits that start at `i`.
pub open spec fn digits_end(s: Seq<char>, i: nat) -> nat
    decreases s.len() - i,
{
    if i < s.len() && is_digit(s[i as int]) {
        digits_end(s, i + 1)
    } else {
        i
    }
}

/// The decimal number that starts at `i`, and the position after it.
pub open spec fn number(s: Seq<char>, i: nat) -> Option<(nat, nat)> {
    let e = digits_end(s, i);
    if e == i {
        None
    } else {
        Some((digits_value(s.subrange(i as int, e as int)), e))
    }
}

/// A decimal number at `i` that fits in a `u8`, and the position after it.
pub open spec fn small_number(s: Seq<char>, i: nat) -> Option<(u8, nat)> {
    match number(s, i) {
        Some((v, e)) => if v <= 255 { Some((v as u8, e)) } else { None },
        None => None,
    }
}

/// The transformer written at `i`, and the position after it.
pub open spec fn transformer_text(s: Seq<char>, i: nat) -> Option<(ParamTransformer, nat)> {
    if has_tag(s, i, "bit_at("@) {
        match small_number(s, i + 7) {
            Some((v, e)) => if has_tag(s, e, ")"@) { Some((ParamTransformer::BitAt(BitAt(v)), e + 1)) } else { None },
            None => None,
        }
    } else if has_tag(s, i, "bits_at("@) {
        match small_number(s, i + 8) {
            Some((a, e1)) => {
                let c = skip_spaces(s, e1);
                if has_tag(s, c, ","@) {
                    match small_number(s, skip_spaces(s, c + 1)) {
                        Some((b, e2)) => if has_tag(s, e2, ")"@) {
                            Some((ParamTransformer::BitsAt(BitsAt { start: a, end: b }), e2 + 1))
                        } else {
                            None
                        },
                        None => None,
                    }
                } else {
                    None
                }
            },
            None => None,
        }
    } else if has_tag(s, i, "register"@) {
        Some((ParamTransformer::Register(Register), i + 8))
    } else if has_tag(s, i, "csr"@) {
        Some((ParamTransformer::Csr(Csr), i + 3))
    } else if has_tag(s, i, "jal_form"@) {
        Some((ParamTransformer::JalForm(JalForm), i + 8))
    } else if has_tag(s, i, "branch_high"@) {
        Some((ParamTransformer::BranchHigh(BranchHigh), i + 11))
    } else if has_tag(s, i, "branch_low"@) {
        Some((ParamTransformer::BranchLow(BranchLow), i + 10))
    } else {
        None
    }
}

/// The parameter reference `{{ params[n] | transformer }}` written at `i`, and the position
/// after it.
pub open spec fn param_reference(s: Seq<char>, i: nat) -> Option<(usize, ParamTransformer, nat)> {
    if !has_tag(s, i, "{{"@) {
        None
    } else {
        let j = skip_spaces(s, i + 2);
        if !has_tag(s, j, "params["@) {
            None
        } else {
            match number(s, j + 7) {
                Some((n, e)) => if n <= usize::MAX && has_tag(s, e, "]"@) {
                    let k = skip_spaces(s, e + 1);
                    if has_tag(s, k, "|"@) {
                        match transformer_text(s, skip_spaces(s, k + 1)) {
                            Some((t, m)) => {
                                let p = skip_spaces(s, m);
                                if has_tag(s, p, "}}"@) {
                                    Some((n as usize, t, p + 2))
                                } else {
                                    None
                                }
                            },
                            None => None,
                        }
                    } else {
                        None
                    }
                } else {
                    None
                },
                None => None,
            }
        }
    }
}

/// A part as read from text.
pub enum PartText {
    /// Fixed bits, the least significant first.
    Bits(Seq<bool>),
    /// A parameter reference.
    Param(usize, ParamTransformer),
}

/// Whether `c` is a binary digit.
pub open spec fn is_bit(c: char) -> bool {
    c == '0' || c == '1'
}

/// The position after the binary digits that start at `i`.
pub open spec fn bits_end(s: Seq<char>, i: nat) -> nat
    decreases s.len() - i,
{
    if i < s.len() && is_bit(s[i as int]) {
        bits_end(s, i + 1)
    } else {
        i
    }
}

/// The part written at `i`, and the position after it: binary digits, most significant first,
/// or a parameter reference.
pub open spec fn part_text(s: Seq<char>, i: nat) -> Option<(PartText, nat)> {
    let e = bits_end(s, i);
    if e > i {
        Some((PartText::Bits(Seq::new((e - i) as nat, |k: int| s[e - 1 - k] == '1')), e))
    } else {
        match param_reference(s, i) {
            Some((n, t, e2)) => Some((PartText::Param(n, t), e2)),
            None => None,
        }
    }
}

/// The parts written from `i` on, as many as there are, and the position after them.
pub open spec fn parts_text(s: Seq<char>, i: nat) -> (Seq<PartText>, nat)
    decreases s.len() - i,
{
    if i > s.len() {
        (Seq::empty(), i)
    } else {
        match part_text(s, i) {
            Some((p, e)) => if e > i && e <= s.len() {
                let rest = parts_text(s, e);
                (seq![p] + rest.0, rest.1)
            } else {
                (Seq::empty(), i)
            },
            None => (Seq::empty(), i),
        }
    }
}

/// How a template is read from text: at least one part; the parts are written most significant
/// first. Gives the parts, the least significant first, and the position after them.
pub open spec fn template_text(s: Seq<char>) -> Option<(Seq<PartText>, nat)> {
    let (parts, e) = parts_text(s, 0);
    if parts.len() == 0 {
        None
    } else {
        Some((parts.reverse(), e))
    }
}

/// The text form of a part.
pub open spec fn part_as_text(p: TemplatePart) -> PartText {
    match p {
        TemplatePart::BitPattern(bits) => PartText::Bits(bits@),
        TemplatePart::ParamTransformer(n, t) => PartText::Param(n, t),
    }
}

fn skip_spaces_at(s: &Vec<char>, i: usize) -> (res: usize)
    requires
        i <= s@.len(),
    ensures
        res == skip_spaces(s@, i as nat),
        i <= res <= s@.len(),
{
    let mut j = i;
    while j < s.len() && (s[j] == ' ' || s[j] == '\t' || s[j] == '\n' || s[j] == '\r')
        invariant
            i <= j <= s@.len(),
            skip_spaces(s@, j as nat) == skip_spaces(s@, i as nat),
        decreases s@.len() - j,
    {
        j = j + 1;
    }
    j
}

fn tag_at(s: &Vec<char>, i: usize, t: &str) -> (res: bool)
    requires
        i <= s@.len(),
    ensures
        res == has_tag(s@, i as nat, t@),
{
    let tv = chars_of(t);
    if tv.len() > s.len() - i {
        return false;
    }
    let mut k: usize = 0;
    while k < tv.len()
        invariant
            k <= tv@.len(),
            tv@ == t@,
            s@.len() == s.len(),
            i + tv@.len() <= s@.len(),
            forall|m: int| 0 <= m < k ==> s@[i + m] == tv@[m],
        decreases tv@.len() - k,
    {
        if s[i + k] != tv[k] {
            assert(s@.subrange(i as int, i + tv@.len())[k as int] != t@[k as int]);
            return false;
        }
        k = k + 1;
    }
    assert(s@.subrange(i as int, i + tv@.len()) =~= t@);
    true
}

/// The decimal number at `i` if it fits in a `usize`, and the position after it.
fn number_at(s: &Vec<char>, i: usize) -> (res: Option<(usize, usize)>)
    requires
        i <= s@.len(),
    ensures
        match res {
            Some((v, e)) => number(s@, i as nat) == Some((v as nat, e as nat)),
            None => number(s@, i as nat) matches Some((v, e)) ==> v > usize::MAX,
        },
{
    let mut j = i;
    let mut value: usize = 0;
    let mut overflow = false;
    while j < s.len() && '0' <= s[j] && s[j] <= '9'
        invariant
            i <= j <= s@.len(),
            digits_end(s@, j as nat) == digits_end(s@, i as nat),
            forall|k: int| i <= k < j ==> is_digit(#[trigger] s@[k]),
            !overflow ==> value == digits_value(s@.subrange(i as int, j as int)),
            overflow ==> digits_value(s@.subrange(i as int, j as int)) > usize::MAX,
        decreases s@.len() - j,
    {
        let d = (s[j] as u32 - '0' as u32) as usize;
        proof {
            assert(s@.subrange(i as int, j + 1).drop_last() =~= s@.subrange(i as int, j as int));
        }
        if !overflow {
            if value > (usize::MAX - d) / 10 {
                overflow = true;
            } else {
                value = value * 10 + d;
            }
        }
        j = j + 1;
    }
    if j == i || overflow {
        None
    } else {
        Some((value, j))
    }
}

fn small_number_at(s: &Vec<char>, i: usize) -> (res: Option<(u8, usize)>)
    requires
        i <= s@.len(),
    ensures
        match res {
            Some((v, e)) => small_number(s@, i as nat) == Some((v, e as nat)) && i < e <= s@.len(),
            None => small_number(s@, i as nat) is None,
        },
{
    proof {
        lemma_digits_end_bound(s@, i as nat);
    }
    match number_at(s, i) {
        Some((v, e)) => if v <= 255 { Some((v as u8, e)) } else { None },
        None => None,
    }
}

proof fn lemma_digits_end_bound(s: Seq<char>, i: nat)
    requires
        i <= s.len(),
    ensures
        i <= digits_end(s, i) <= s.len(),
    decreases s.len() - i,
{
    if i < s.len() && is_digit(s[i as int]) {
        lemma_digits_end_bound(s, i + 1);
    }
}

/// The transformer written at `i`.
fn transformer_at(s: &Vec<char>, i: usize) -> (res: Option<(ParamTransformer, usize)>)
    requires
        i <= s@.len(),
    ensures
        match res {
            Some((t, e)) => transformer_text(s@, i as nat) == Some((t, e as nat)) && i < e <= s@.len(),
            None => transformer_text(s@, i as nat) is None,
        },
{
    proof {
        reveal_strlit("bit_at(");
        reveal_strlit("bits_at(");
        reveal_strlit("register");
        reveal_strlit("csr");
        reveal_strlit("jal_form");
        reveal_strlit("branch_high");
        reveal_strlit("branch_low");
        reveal_strlit(")");
        reveal_strlit(",");
    }
    assert(s@.len() == s.len());
    if tag_at(s, i, "bit_at(") {
        match small_number_at(s, i + 7) {
            Some((v, e)) => if tag_at(s, e, ")") { Some((ParamTransformer::BitAt(BitAt(v)), e + 1)) } else { None },
            None => None,
        }
    } else if tag_at(s, i, "bits_at(") {
        match small_number_at(s, i + 8) {
            Some((a, e1)) => {
                let c = skip_spaces_at(s, e1);
                if tag_at(s, c, ",") {
                    let d = skip_spaces_at(s, c + 1);
                    match small_number_at(s, d) {
                        Some((b, e2)) => if tag_at(s, e2, ")") {
                            Some((ParamTransformer::BitsAt(BitsAt { start: a, end: b }), e2 + 1))
                        } else {
                            None
                        },
                        None => None,
                    }
                } else {
                    None
                }
            },
            None => None,
        }
    } else if tag_at(s, i, "register") {
        Some((ParamTransformer::Register(Register), i + 8))
    } else if tag_at(s, i, "csr") {
        Some((ParamTransformer::Csr(Csr), i + 3))
    } else if tag_at(s, i, "jal_form") {
        Some((ParamTransformer::JalForm(JalForm), i + 8))
    } else if tag_at(s, i, "branch_high") {
        Some((ParamTransformer::BranchHigh(BranchHigh), i + 11))
    } else if tag_at(s, i, "branch_low") {
        Some((ParamTransformer::BranchLow(BranchLow), i + 10))
    } else {
        None
    }
}

/// The parameter reference written at `i`.
fn param_reference_at(s: &Vec<char>, i: usize) -> (res: Option<(usize, ParamTransformer, usize)>)
    requires
        i <= s@.len(),
    ensures
        match res {
            Some((n, t, e)) => param_reference(s@, i as nat) == Some((n, t, e as nat)) && i < e <= s@.len(),
            None => param_reference(s@, i as nat) is None,
        },
{
    proof {
        reveal_strlit("{{");
        reveal_strlit("params[");
        reveal_strlit("]");
        reveal_strlit("|");
        reveal_strlit("}}");
    }
    assert(s@.len() == s.len());
    if !tag_at(s, i, "{{") {
        return None;
    }
    let j = skip_spaces_at(s, i + 2);
    if !tag_at(s, j, "params[") {
        return None;
    }
    proof {
        lemma_digits_end_bound(s@, (j + 7) as nat);
    }
    match number_at(s, j + 7) {
        Some((n, e)) => {
            if !tag_at(s, e, "]") {
                return None;
            }
            let k = skip_spaces_at(s, e + 1);
            if !tag_at(s, k, "|") {
                return None;
            }
            let l = skip_spaces_at(s, k + 1);
            match transformer_at(s, l) {
                Some((t, m)) => {
                    let p = skip_spaces_at(s, m);
                    if tag_at(s, p, "}}") {
                        Some((n, t, p + 2))
                    } else {
                        None
                    }
                },
                None => None,
            }
        },
        None => None,
    }
}

/// The part written at `i`.
fn part_at(s: &Vec<char>, i: usize) -> (res: Option<(TemplatePart, usize)>)
    requires
        i <= s@.len(),
    ensures
        match res {
            Some((p, e)) => part_text(s@, i as nat) == Some((part_as_text(p), e as nat)) && i < e <= s@.len(),
            None => part_text(s@, i as nat) is None,
        },
{
    let mut e = i;
    while e < s.len() && (s[e] == '0' || s[e] == '1')
        invariant
            i <= e <= s@.len(),
            bits_end(s@, e as nat) == bits_end(s@, i as nat),
        decreases s@.len() - e,
    {
        e = e + 1;
    }
    if e > i {
        let mut bits: Vec<bool> = Vec::new();
        let mut k: usize = 0;
        while k < e - i
            invariant
                i < e <= s@.len(),
                k <= e - i,
                bits@ =~= Seq::new((e - i) as nat, |m: int| s@[e - 1 - m] == '1').take(k as int),
            decreases e - i - k,
        {
            bits.push(s[e - 1 - k] == '1');
            k = k + 1;
        }
        assert(Seq::new((e - i) as nat, |m: int| s@[e - 1 - m] == '1').take(k as int)
            =~= Seq::new((e - i) as nat, |m: int| s@[e - 1 - m] == '1'));
        Some((TemplatePart::BitPattern(Bits::from_bools(bits)), e))
    } else {
        proof {
            reveal_strlit("{{");
        }
        match param_reference_at(s, i) {
            Some((n, t, e2)) => {
                assert(e2 > i);
                Some((TemplatePart::ParamTransformer(n, t), e2))
            },
            None => None,
        }
    }
}

/// Reads a template from its text: at least one part, the most significant written first.
/// Gives how many characters were read and the template, or `None` where no part can be read.
pub fn parse(code: &str) -> (res: Option<(usize, InstructionTemplate)>)
    ensures
        match res {
            Some((e, t)) => template_text(code@) == Some((t.parts@.map_values(|p: TemplatePart| part_as_text(p)), e as nat)),
            None => template_text(code@) is None,
        },
{
    let s = chars_of(code);
    let mut parts: Vec<TemplatePart> = Vec::new();
    let mut pos: usize = 0;
    let mut done = false;
    while !done
        invariant
            pos <= s@.len(),
            s@ == code@,
            parts_text(s@, 0) == ({
                let rest = parts_text(s@, pos as nat);
                (parts@.map_values(|p: TemplatePart| part_as_text(p)) + rest.0, rest.1)
            }),
            done ==> parts_text(s@, pos as nat) == (Seq::<PartText>::empty(), pos as nat),
        decreases s@.len() - pos, if done { 0int } else { 1int },
    {
        match part_at(&s, pos) {
            Some((p, e)) => {
                let ghost before = parts@;
                parts.push(p);
                proof {
                    assert(parts@.map_values(|q: TemplatePart| part_as_text(q))
                        =~= before.map_values(|q: TemplatePart| part_as_text(q)).push(part_as_text(p)));
                    let rest = parts_text(s@, e as nat);
                    assert(parts_text(s@, pos as nat) == (seq![part_as_text(p)] + rest.0, rest.1));
                    assert(before.map_values(|q: TemplatePart| part_as_text(q)) + (seq![part_as_text(p)] + rest.0)
                        =~= parts@.map_values(|q: TemplatePart| part_as_text(q)) + rest.0);
                }
                pos = e;
            },
            None => {
                done = true;
            },
        }
    }
    proof {
        assert(parts@.map_values(|p: TemplatePart| part_as_text(p)) + Seq::<PartText>::empty()
            =~= parts@.map_values(|p: TemplatePart| part_as_text(p)));
    }
    if parts.len() == 0 {
        return None;
    }
    let mut reversed: Vec<TemplatePart> = Vec::new();
    let ghost forward = parts@;
    let mut k: usize = parts.len();
    while k > 0
        invariant
            k <= forward.len(),
            parts@ == forward.take(k as int),
            reversed@ =~= forward.skip(k as int).reverse(),
        decreases k,
    {
        let p = parts.pop().unwrap();
        reversed.push(p);
        k = k - 1;
        assert(forward.skip(k as int) =~= seq![forward[k as int]] + forward.skip(k + 1));
        assert(parts@ =~= forward.take(k as int));
    }
    proof {
        assert(forward.skip(0) =~= forward);
        assert(reversed@.map_values(|p: TemplatePart| part_as_text(p))
            =~= forward.map_values(|p: TemplatePart| part_as_text(p)).reverse());
    }
    Some((pos, InstructionTemplate { parts: reversed }))
}

impl ParamTransformer {
    /// Reads the transformer written at the start of `code`: gives how many characters it
    /// takes and the transformer, or `None` where `code` begins with none.
    pub fn parse(code: &str) -> (res: Option<(usize, ParamTransformer)>)
        ensures
            match res {
                Some((e, t)) => transformer_text(code@, 0) == Some((t, e as nat)),
                None => transformer_text(code@, 0) is None,
            },
    {
        let s = chars_of(code);
        match transformer_at(&s, 0) {
            Some((t, e)) => Some((e, t)),
            None => None,
        }
    }
}

impl BitAt {
    /// Reads `bit_at(n)` at the start of `code`: gives how many characters it takes and the
    /// transformer, or `None` where `code` does not begin with it.
    pub fn parse(code: &str) -> (res: Option<(usize, BitAt)>)
        ensures
            match res {
                Some((e, t)) => transformer_text(code@, 0) == Some((ParamTransformer::BitAt(t), e as nat)),
                None => !(transformer_text(code@, 0) matches Some((ParamTransformer::BitAt(_), _))),
            },
    {
        match ParamTransformer::parse(code) {
            Some((e, ParamTransformer::BitAt(t))) => Some((e, t)),
            _ => None,
        }
    }
}

impl BitsAt {
    /// Reads `bits_at(start, end)` at the start of `code`: gives how many characters it takes
    /// and the transformer, or `None` where `code` does not begin with it.
    pub fn parse(code: &str) -> (res: Option<(usize, BitsAt)>)
        ensures
            match res {
                Some((e, t)) => transformer_text(code@, 0) == Some((ParamTransformer::BitsAt(t), e as nat)),
                None => !(transformer_text(code@, 0) matches Some((ParamTransformer::BitsAt(_), _))),
            },
    {
        match ParamTransformer::parse(code) {
            Some((e, ParamTransformer::BitsAt(t))) => Some((e, t)),
            _ => None,
        }
    }
}

impl Csr {
    /// Reads `csr` at the start of `code`: gives how many characters it takes and the
    /// transformer, or `None` where `code` does not begin with it.
    pub fn parse(code: &str) -> (res: Option<(usize, Csr)>)
        ensures
            match res {
                Some((e, t)) => transformer_text(code@, 0) == Some((ParamTransformer::Csr(t), e as nat)),
                None => !(transformer_text(code@, 0) matches Some((ParamTransformer::Csr(_), _))),
            },
    {
        match ParamTransformer::parse(code) {
            Some((e, ParamTransformer::Csr(t))) => Some((e, t)),
            _ => None,
        }
    }
}

impl JalForm {
    /// Reads `jal_form` at the start of `code`: gives how many characters it takes and the
    /// transformer, or `None` where `code` does not begin with it.
    pub fn parse(code: &str) -> (res: Option<(usize, JalForm)>)
        ensures
            match res {
                Some((e, t)) => transformer_text(code@, 0) == Some((ParamTransformer::JalForm(t), e as nat)),
                None => !(transformer_text(code@, 0) matches Some((ParamTransformer::JalForm(_), _))),
            },
    {
        match ParamTransformer::parse(code) {
            Some((e, ParamTransformer::JalForm(t))) => Some((e, t)),
            _ => None,
        }
    }
}

} // verus!
