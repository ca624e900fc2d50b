//! Small text utilities: decimal numbers and character sequences.
use vstd::prelude::*;

verus! {

broadcast use vstd::string::group_string_axioms;

/// Whether `c` is an ASCII decimal digit.
pub open spec fn is_digit(c: char) -> bool {
    '0' <= c && c <= '9'
}

/// The value of a decimal digit character.
pub open spec fn digit_value(c: char) -> nat {
    (c as int - '0' as int) as nat
}

/// The character of a decimal digit `d < 10`.
pub open spec fn digit_char(d: nat) -> char {
    (d + '0' as int) as char
}

/// The value of a sequence of decimal digits, most significant first.
pub open spec fn digits_value(s: Seq<char>) -> nat
    decreases s.len(),
{
    if s.len() == 0 {
        0
    } else {
        digits_value(s.drop_last()) * 10 + digit_value(s.last())
    }
}

/// Whether every character of `s` is a decimal digit.
pub open spec fn all_digits(s: Seq<char>) -> bool {
    forall|i: int| 0 <= i < s.len() ==> is_digit(#[trigger] s[i])
}

/// The shortest decimal representation of `n`.
pub open spec fn decimal(n: nat) -> Seq<char>
    decreases n,
{
    if n < 10 {
        seq![digit_char(n)]
    } else {
        decimal(n / 10).push(digit_char(n % 10))
    }
}

/// Appends a character to a string through std's `String::push`, whose documentation says it
/// appends the given `char` to the end of the `String`: the contract claims that the characters
/// of `s` afterwards are those before, followed by `c`.
#[verifier::external_body]
pub(crate) fn string_push(s: &mut String, c: char)
    ensures
        final(s)@ == old(s)@.push(c),
{
    s.push(c);
}

/// The characters of a string slice.
pub fn chars_of(s: &str) -> (res: Vec<char>)
    ensures
        res@ == s@,
{
    let mut res: Vec<char> = Vec::new();
    for c in it: s.chars()
        invariant
            res@ == it.seq().take(it.index() as int),
    {
        res.push(c);
    }
    res
}


/// Why a text could not be read as an unsigned integer.
#[derive(Debug, Clone, Copy, PartialEq, Eq, Structural)]
pub enum IntErrorKind {
    /// The text is empty.
    Empty,
    /// The text holds a character that is not a digit.
    InvalidDigit,
    /// The number does not fit in a `usize`.
    PosOverflow,
}

/// Reads the digits of `d` from left to right, stopping at the first problem.
pub open spec fn scan_digits(d: Seq<char>) -> Result<nat, IntErrorKind>
    decreases d.len(),
{
    if d.len() == 0 {
        Ok(0)
    } else {
        match scan_digits(d.drop_last()) {
            Err(e) => Err(e),
            Ok(v) => if !is_digit(d.last()) {
                Err(IntErrorKind::InvalidDigit)
            } else if v * 10 + digit_value(d.last()) > usize::MAX {
                Err(IntErrorKind::PosOverflow)
            } else {
                Ok(v * 10 + digit_value(d.last()))
            },
        }
    }
}

/// How a decimal `usize` is read from text: an optional `+`, then at least one digit.
pub open spec fn spec_parse_usize(s: Seq<char>) -> Result<usize, IntErrorKind> {
    if s.len() == 0 {
        Err(IntErrorKind::Empty)
    } else {
        let d = if s[0] == '+' { s.drop_first() } else { s };
        if d.len() == 0 {
            Err(IntErrorKind::InvalidDigit)
        } else {
            match scan_digits(d) {
                Ok(v) => Ok(v as usize),
                Err(e) => Err(e),
            }
        }
    }
}

/// Reads a decimal `usize` from `s[start..end]`.
pub fn parse_usize(s: &Vec<char>, start: usize, end: usize) -> (res: Result<usize, IntErrorKind>)
    requires
        start <= end <= s@.len(),
    ensures
        res == spec_parse_usize(s@.subrange(start as int, end as int)),
{
    let ghost t = s@.subrange(start as int, end as int);
    if start == end {
        return Err(IntErrorKind::Empty);
    }
    let mut i = start;
    if s[start] == '+' {
        i = start + 1;
        if i == end {
            return Err(IntErrorKind::InvalidDigit);
        }
    }
    let ghost d = s@.subrange(i as int, end as int);
    assert(d == (if t[0] == '+' { t.drop_first() } else { t }));
    assert(spec_parse_usize(t) == (match scan_digits(d) {
        Ok(v) => Ok(v as usize),
        Err(e) => Err(e),
    }));
    let first = i;
    let mut value: usize = 0;
    while i < end
        invariant
            first <= i <= end <= s@.len(),
            first < end,
            d == s@.subrange(first as int, end as int),
            scan_digits(d.take(i - first)) == Ok::<nat, IntErrorKind>(value as nat),
            spec_parse_usize(s@.subrange(start as int, end as int)) == (match scan_digits(d) {
                Ok(v) => Ok(v as usize),
                Err(e) => Err(e),
            }),
        decreases end - i,
    {
        let c = s[i];
        let ghost pre = d.take(i - first + 1);
        assert(pre.drop_last() == d.take(i - first));
        assert(pre.last() == c);
        if !('0' <= c && c <= '9') {
            proof { lemma_scan_err_extends(d, (i - first + 1) as nat); }
            return Err(IntErrorKind::InvalidDigit);
        }
        let digit = (c as u32 - '0' as u32) as usize;
        assert(digit == digit_value(c));
        if value > (usize::MAX - digit) / 10 {
            assert(value * 10 + digit > usize::MAX) by (nonlinear_arith)
                requires value > (usize::MAX - digit) / 10, digit <= 9;
            proof { lemma_scan_err_extends(d, (i - first + 1) as nat); }
            return Err(IntErrorKind::PosOverflow);
        }
        assert(value * 10 + digit <= usize::MAX) by (nonlinear_arith)
            requires value <= (usize::MAX - digit) / 10, digit <= 9;
        value = value * 10 + digit;
        i = i + 1;
    }
    assert(d.take(i - first) == d);
    Ok(value)
}

/// Once reading a prefix fails, reading any longer text fails the same way.
proof fn lemma_scan_err_extends(d: Seq<char>, k: nat)
    requires
        k <= d.len(),
        scan_digits(d.take(k as int)) is Err,
    ensures
        scan_digits(d) == scan_digits(d.take(k as int)),
    decreases d.len() - k,
{
    if k < d.len() {
        let e = d.take(k as int + 1);
        assert(e.drop_last() == d.take(k as int));
        lemma_scan_err_extends(d, k + 1);
    } else {
        assert(d.take(k as int) == d);
    }
}

/// Appends the decimal representation of `n` to `s`.
pub fn push_decimal(s: &mut String, n: usize)
    ensures
        final(s)@ == old(s)@ + decimal(n as nat),
    decreases n,
{
    if n >= 10 {
        push_decimal(s, n / 10);
    }
    let d = (n % 10) as u8;
    let c = (d + 48u8) as char;
    assert(c == digit_char((n % 10) as nat));
    string_push(s, c);
    assert(s@ == old(s)@ + decimal(n as nat));
}

/// The decimal representation of `n` is made of digits and reads back as `n`.
pub proof fn lemma_decimal_roundtrip(n: nat)
    requires
        n <= usize::MAX,
    ensures
        decimal(n).len() > 0,
        all_digits(decimal(n)),
        scan_digits(decimal(n)) == Ok::<nat, IntErrorKind>(n),
        decimal(n)[0] != '+',
    decreases n,
{
    let d = n % 10;
    assert(digit_value(digit_char(d)) == d);
    assert(is_digit(digit_char(d)));
    if n >= 10 {
        lemma_decimal_roundtrip(n / 10);
        let s = decimal(n);
        assert(s.drop_last() == decimal(n / 10));
        assert(decimal(n / 10)[0] == s[0]);
        assert((n / 10) * 10 + n % 10 == n);
        assert(s.last() == digit_char(d));
        assert(scan_digits(s.drop_last()) == Ok::<nat, IntErrorKind>(n / 10));
        assert(scan_digits(s) == Ok::<nat, IntErrorKind>(n));
    } else {
        let s = decimal(n);
        assert(s.drop_last() =~= Seq::<char>::empty());
        assert(scan_digits(s.drop_last()) == Ok::<nat, IntErrorKind>(0));
        assert(n % 10 == n);
        assert(s.last() == digit_char(d));
        assert(scan_digits(s) == Ok::<nat, IntErrorKind>(n));
    }
}

} // verus!
