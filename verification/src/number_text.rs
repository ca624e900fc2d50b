//! Integers written as text: signed decimal and hexadecimal, read and written.
use vstd::prelude::*;
use crate::text::{string_push, chars_of, is_digit, digit_char, decimal, digit_value};

verus! {

/// Whether `c` is a digit of the given radix (10 or 16; hexadecimal letters in either case).
pub open spec fn is_radix_digit(c: char, radix: nat) -> bool {
    if radix == 16 {
        is_digit(c) || ('a' <= c <= 'f') || ('A' <= c <= 'F')
    } else {
        is_digit(c)
    }
}

/// The value of a decimal or hexadecimal digit.
pub open spec fn radix_digit_value(c: char) -> nat {
    if is_digit(c) {
        digit_value(c)
    } else if 'a' <= c <= 'f' {
        (c as int - 'a' as int + 10) as nat
    } else {
        (c as int - 'A' as int + 10) as nat
    }
}

/// The value of a sequence of digits in the given radix, most significant first.
pub open spec fn radix_value(s: Seq<char>, radix: nat) -> nat
    decreases s.len(),
{
    if s.len() == 0 {
        0
    } else {
        radix_value(s.drop_last(), radix) * radix + radix_digit_value(s.last())
    }
}

/// The end of the run of digits of the given radix that starts at `i`.
pub open spec fn digit_run_end(s: Seq<char>, i: nat, radix: nat) -> nat
    decreases s.len() - i,
{
    if i < s.len() && is_radix_digit(s[i as int], radix) {
        digit_run_end(s, i + 1, radix)
    } else {
        i
    }
}

/// The magnitude that `s` starts with: `0x` and at least one hexadecimal digit, or at least
/// one decimal digit. What follows the digits is not read.
pub open spec fn magnitude(s: Seq<char>) -> Option<nat> {
    if s.len() >= 3 && s[0] == '0' && s[1] == 'x' && is_radix_digit(s[2], 16) {
        Some(radix_value(s.subrange(2, digit_run_end(s, 2, 16) as int), 16))
    } else if s.len() >= 1 && is_digit(s[0]) {
        Some(radix_value(s.subrange(0, digit_run_end(s, 0, 10) as int), 10))
    } else {
        None
    }
}

/// The `i64` that `s` starts with: an optional `-`, then a magnitude. `None` where there is
/// no magnitude or the value does not fit in an `i64`.
pub open spec fn integer_value(s: Seq<char>) -> Option<int> {
    let negative = s.len() > 0 && s[0] == '-';
    let body = if negative { s.drop_first() } else { s };
    match magnitude(body) {
        Some(m) => {
            let v = if negative { -m } else { m as int };
            if i64::MIN <= v <= i64::MAX { Some(v) } else { None }
        },
        None => None,
    }
}

/// The character of a hexadecimal digit `d < 16`, in lower case.
pub open spec fn hex_digit_char(d: nat) -> char {
    if d < 10 {
        digit_char(d)
    } else {
        (d - 10 + 'a' as int) as char
    }
}

/// The shortest lower-case hexadecimal representation of `n`.
pub open spec fn hex(n: nat) -> Seq<char>
    decreases n,
{
    if n < 16 {
        seq![hex_digit_char(n)]
    } else {
        hex(n / 16).push(hex_digit_char(n % 16))
    }
}

/// The decimal representation of `v`, with a `-` in front where it is negative.
pub open spec fn signed_decimal(v: int) -> Seq<char> {
    if v < 0 {
        seq!['-'] + decimal((-v) as nat)
    } else {
        decimal(v as nat)
    }
}

proof fn lemma_radix_value_prefix(t: Seq<char>, k: int, radix: nat)
    requires
        0 <= k <= t.len(),
        radix >= 1,
    ensures
        radix_value(t.take(k), radix) <= radix_value(t, radix),
    decreases t.len() - k,
{
    if k < t.len() {
        let u = t.drop_last();
        assert(t.take(k) =~= u.take(k));
        lemma_radix_value_prefix(u, k, radix);
        let x = radix_value(u, radix);
        assert(x <= x * radix) by (nonlinear_arith)
            requires radix >= 1;
    } else {
        assert(t.take(k) =~= t);
    }
}

fn digit_run_at(s: &Vec<char>, i: usize, radix: u32) -> (res: usize)
    requires
        i <= s@.len(),
        radix == 10 || radix == 16,
    ensures
        res == digit_run_end(s@, i as nat, radix as nat),
        i <= res <= s@.len(),
{
    let mut j = i;
    while j < s.len() && (('0' <= s[j] && s[j] <= '9') || (radix == 16 && (('a' <= s[j] && s[j] <= 'f') || ('A' <= s[j] && s[j] <= 'F'))))
        invariant
            i <= j <= s@.len(),
            radix == 10 || radix == 16,
            digit_run_end(s@, j as nat, radix as nat) == digit_run_end(s@, i as nat, radix as nat),
        decreases s@.len() - j,
    {
        j = j + 1;
    }
    j
}

/// The value of the digits `s[start..end]` in the given radix, where it is at most `2^63`.
fn radix_value_at(s: &Vec<char>, start: usize, end: usize, radix: u32) -> (res: Option<u64>)
    requires
        start <= end <= s@.len(),
        radix == 10 || radix == 16,
        forall|m: int| start <= m < end ==> is_radix_digit(#[trigger] s@[m], radix as nat),
    ensures
        match res {
            Some(v) => v == radix_value(s@.subrange(start as int, end as int), radix as nat) && v <= 0x8000_0000_0000_0000u64,
            None => radix_value(s@.subrange(start as int, end as int), radix as nat) > 0x8000_0000_0000_0000u64,
        },
{
    let mut acc: u64 = 0;
    let mut i = start;
    assert(s@.subrange(start as int, start as int) =~= Seq::<char>::empty());
    while i < end
        invariant
            start <= i <= end <= s@.len(),
            radix == 10 || radix == 16,
            forall|m: int| start <= m < end ==> is_radix_digit(#[trigger] s@[m], radix as nat),
            acc == radix_value(s@.subrange(start as int, i as int), radix as nat),
            acc <= 0x8000_0000_0000_0000u64,
        decreases end - i,
    {
        let c = s[i];
        assert(is_radix_digit(s@[i as int], radix as nat));
        let d: u64 = if '0' <= c && c <= '9' {
            (c as u32 - '0' as u32) as u64
        } else if 'a' <= c && c <= 'f' {
            (c as u32 - 'a' as u32 + 10) as u64
        } else {
            (c as u32 - 'A' as u32 + 10) as u64
        };
        assert(d == radix_digit_value(c));
        assert(d < 16);
        let ghost t = s@.subrange(start as int, i + 1);
        assert(t.drop_last() =~= s@.subrange(start as int, i as int));
        assert(t.last() == c);
        let r = radix as u64;
        let lim = (0x8000_0000_0000_0000u64 - d) / r;
        if acc > lim {
            assert(acc * r + d > 0x8000_0000_0000_0000u64) by (nonlinear_arith)
                requires acc > lim, lim == (0x8000_0000_0000_0000int - d) / (r as int), r >= 10, d < 16;
            proof {
                let full = s@.subrange(start as int, end as int);
                assert(full.take(i + 1 - start) =~= t);
                lemma_radix_value_prefix(full, i + 1 - start, radix as nat);
            }
            return None;
        }
        assert(acc * r + d <= 0x8000_0000_0000_0000u64) by (nonlinear_arith)
            requires acc <= lim, lim == (0x8000_0000_0000_0000int - d) / (r as int), r >= 10, d < 16;
        acc = acc * r + d;
        i = i + 1;
    }
    Some(acc)
}

proof fn lemma_digit_run_digits(s: Seq<char>, i: nat, radix: nat)
    requires
        i <= s.len(),
    ensures
        i <= digit_run_end(s, i, radix) <= s.len(),
        forall|m: int| i <= m < digit_run_end(s, i, radix) ==> is_radix_digit(#[trigger] s[m], radix),
    decreases s.len() - i,
{
    if i < s.len() && is_radix_digit(s[i as int], radix) {
        lemma_digit_run_digits(s, i + 1, radix);
    }
}

/// Reads the integer that `text` starts with: an optional `-`, then `0x` and hexadecimal
/// digits or decimal digits. `None` where there is no number or it does not fit in an `i64`.
pub fn parse_integer(text: &str) -> (res: Option<i64>)
    ensures
        match res {
            Some(v) => integer_value(text@) == Some(v as int),
            None => integer_value(text@) is None,
        },
{
    let s = chars_of(text);
    let negative = s.len() > 0 && s[0] == '-';
    let b: usize = if negative { 1 } else { 0 };
    let ghost body = if negative { s@.drop_first() } else { s@ };
    assert(body =~= s@.subrange(b as int, s@.len() as int));
    let n = s.len();
    let (digits_start, digits_end, radix) = if n >= b + 3 && s[b] == '0' && s[b + 1] == 'x'
        && (('0' <= s[b + 2] && s[b + 2] <= '9') || ('a' <= s[b + 2] && s[b + 2] <= 'f') || ('A' <= s[b + 2] && s[b + 2] <= 'F')) {
        let e = digit_run_at(&s, b + 2, 16);
        proof {
            lemma_digit_run_digits(s@, (b + 2) as nat, 16);
            lemma_digit_run_shift(s@, b as nat, 2, 16);
        }
        (b + 2, e, 16u32)
    } else if n >= b + 1 && '0' <= s[b] && s[b] <= '9' {
        let e = digit_run_at(&s, b, 10);
        proof {
            lemma_digit_run_digits(s@, b as nat, 10);
            lemma_digit_run_shift(s@, b as nat, 0, 10);
        }
        (b, e, 10u32)
    } else {
        return None;
    };
    assert(s@.subrange(digits_start as int, digits_end as int)
        =~= body.subrange(digits_start - b, digits_end - b));
    match radix_value_at(&s, digits_start, digits_end, radix) {
        Some(m) => {
            if negative {
                let v: i64 = if m == 0x8000_0000_0000_0000u64 { i64::MIN } else { -(m as i64) };
                Some(v)
            } else if m <= 0x7fff_ffff_ffff_ffffu64 {
                Some(m as i64)
            } else {
                None
            }
        },
        None => None,
    }
}

/// The run of digits found in `s` from `b + k` is the one found in `s` without its first
/// `b` characters from `k`, moved by `b`.
proof fn lemma_digit_run_shift(s: Seq<char>, b: nat, k: nat, radix: nat)
    requires
        b + k <= s.len(),
    ensures
        digit_run_end(s, b + k, radix) == digit_run_end(s.subrange(b as int, s.len() as int), k, radix) + b,
    decreases s.len() - (b + k),
{
    let t = s.subrange(b as int, s.len() as int);
    if b + k < s.len() {
        assert(t[k as int] == s[(b + k) as int]);
        lemma_digit_run_shift(s, b, k + 1, radix);
    }
}

/// Appends the decimal representation of `n` to `s`.
pub fn push_decimal_u64(s: &mut String, n: u64)
    ensures
        final(s)@ == old(s)@ + decimal(n as nat),
    decreases n,
{
    if n >= 10 {
        push_decimal_u64(s, n / 10);
    }
    let d = (n % 10) as u8;
    let c = (d + 48u8) as char;
    assert(c == digit_char((n % 10) as nat));
    string_push(s, c);
    assert(s@ == old(s)@ + decimal(n as nat));
}

/// Appends the lower-case hexadecimal representation of `n` to `s`.
pub fn push_hex(s: &mut String, n: u64)
    ensures
        final(s)@ == old(s)@ + hex(n as nat),
    decreases n,
{
    if n >= 16 {
        push_hex(s, n / 16);
    }
    let d = (n % 16) as u8;
    let c = if d < 10 { (d + 48u8) as char } else { (d - 10 + 97u8) as char };
    assert(c == hex_digit_char((n % 16) as nat));
    string_push(s, c);
    assert(s@ == old(s)@ + hex(n as nat));
}

/// Appends the decimal representation of `v` to `s`, with a `-` in front where it is negative.
pub fn push_signed_decimal(s: &mut String, v: i64)
    ensures
        final(s)@ == old(s)@ + signed_decimal(v as int),
{
    if v < 0 {
        string_push(s, '-');
        let m: u64 = (-(v + 1)) as u64 + 1;
        push_decimal_u64(s, m);
        assert(s@ =~= old(s)@ + signed_decimal(v as int));
    } else {
        push_decimal_u64(s, v as u64);
    }
}

/// `t` with zeros in front, to at least `w` characters.
pub open spec fn zero_padded(t: Seq<char>, w: nat) -> Seq<char> {
    if t.len() >= w {
        t
    } else {
        Seq::new((w - t.len()) as nat, |i: int| '0') + t
    }
}

/// Appends at least `w` lower-case hexadecimal digits of `n` to `s`, zeros in front.
pub fn push_hex_padded(s: &mut String, n: u64, w: usize)
    ensures
        final(s)@ == old(s)@ + zero_padded(hex(n as nat), w as nat),
{
    let mut digits = String::new();
    push_hex(&mut digits, n);
    let dv = chars_of(digits.as_str());
    let ghost start = s@;
    let mut k = dv.len();
    while k < w
        invariant
            dv@ == hex(n as nat),
            dv@.len() <= k <= w || (dv@.len() >= w && k == dv@.len()),
            s@ == start + Seq::new((k - dv@.len()) as nat, |i: int| '0'),
        decreases w - k,
    {
        string_push(s, '0');
        assert(s@ =~= start + Seq::new((k + 1 - dv@.len()) as nat, |i: int| '0'));
        k = k + 1;
    }
    let ghost padded = s@;
    let mut i: usize = 0;
    while i < dv.len()
        invariant
            i <= dv@.len(),
            s@ == padded + dv@.take(i as int),
        decreases dv@.len() - i,
    {
        string_push(s, dv[i]);
        assert(s@ =~= padded + dv@.take(i + 1));
        i = i + 1;
    }
    assert(dv@.take(dv@.len() as int) =~= dv@);
    proof {
        if dv@.len() >= w {
            assert(Seq::new(0, |i: int| '0') =~= Seq::<char>::empty());
        }
    }
    assert(s@ =~= start + zero_padded(hex(n as nat), w as nat));
}

/// Appends `t` to `s`.
pub fn push_text(s: &mut String, t: &str)
    ensures
        final(s)@ == old(s)@ + t@,
{
    let tv = chars_of(t);
    let ghost start = s@;
    let mut i: usize = 0;
    while i < tv.len()
        invariant
            i <= tv@.len(),
            tv@ == t@,
            s@ == start + tv@.take(i as int),
        decreases tv@.len() - i,
    {
        string_push(s, tv[i]);
        assert(s@ =~= start + tv@.take(i + 1));
        i = i + 1;
    }
    assert(tv@.take(tv@.len() as int) =~= tv@);
}

/// The texts of `parts` with `sep` between each two.
pub open spec fn joined(parts: Seq<Seq<char>>, sep: Seq<char>) -> Seq<char>
    decreases parts.len(),
{
    if parts.len() == 0 {
        Seq::empty()
    } else if parts.len() == 1 {
        parts[0]
    } else {
        joined(parts.drop_last(), sep) + sep + parts.last()
    }
}

/// Appends the strings of `parts` to `s`, with `sep` between each two.
pub fn push_joined(s: &mut String, parts: &Vec<String>, sep: &str)
    ensures
        final(s)@ == old(s)@ + joined(parts@.map_values(|p: String| p@), sep@),
{
    let ghost start = s@;
    let ghost texts = parts@.map_values(|p: String| p@);
    let mut i: usize = 0;
    assert(texts.take(0) =~= Seq::<Seq<char>>::empty());
    assert(start + joined(texts.take(0), sep@) =~= start);
    while i < parts.len()
        invariant
            i <= parts@.len(),
            texts == parts@.map_values(|p: String| p@),
            s@ == start + joined(texts.take(i as int), sep@),
        decreases parts@.len() - i,
    {
        if i > 0 {
            push_text(s, sep);
        }
        push_text(s, parts[i].as_str());
        let ghost t = texts.take(i + 1);
        assert(t.drop_last() =~= texts.take(i as int));
        assert(t.last() == parts@[i as int]@);
        if i == 0 {
            assert(t =~= seq![parts@[0]@]);
        }
        assert(s@ =~= start + joined(t, sep@));
        i = i + 1;
    }
    assert(texts.take(parts@.len() as int) =~= texts);
}

} // verus!
