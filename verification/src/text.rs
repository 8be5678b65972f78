//! Character-sequence helpers shared by the lexer, the merge diagnostics and
//! the report formatters: conversion between `str`/`String` and `Vec<char>`,
//! equality, and decimal rendering of integers.
use vstd::prelude::*;

verus! {

/// The characters of `s`, in order.
///
/// Trusted: wraps `str::chars` collected into a `Vec` (std). The contract
/// claims that the vector holds exactly the characters of the string, which
/// is what `chars` yields per std's documentation, and that there are at
/// most `isize::MAX` of them (a `str` occupies at most `isize::MAX` bytes and
/// every character takes at least one).
#[verifier::external_body]
pub fn str_to_chars(s: &str) -> (v: Vec<char>)
    ensures
        v@ == s@,
        v@.len() <= isize::MAX,
{
    s.chars().collect()
}

/// A `String` holding exactly the characters of `v`.
///
/// Trusted: wraps `String: FromIterator<char>` (std). The contract claims
/// that the string's characters are those of the slice, in order.
#[verifier::external_body]
pub fn chars_to_string(v: &[char]) -> (s: String)
    ensures
        s@ == v@,
{
    v.iter().collect()
}

/// Append the characters of `s` to `v`.
pub fn push_str(v: &mut Vec<char>, s: &str)
    ensures
        final(v)@ == old(v)@ + s@,
{
    let cs = str_to_chars(s);
    push_chars(v, &cs);
}

/// Append the characters of `cs` to `v`.
pub fn push_chars(v: &mut Vec<char>, cs: &[char])
    ensures
        final(v)@ == old(v)@ + cs@,
{
    let ghost v0 = v@;
    let n = cs.len();
    let mut i: usize = 0;
    while i < n
        invariant
            n == cs@.len(),
            i <= n,
            v@ == v0 + cs@.subrange(0, i as int),
        decreases n - i,
    {
        v.push(cs[i]);
        i = i + 1;
        assert(cs@.subrange(0, i as int) == cs@.subrange(0, i - 1).push(cs@[i - 1]));
    }
    assert(cs@.subrange(0, n as int) == cs@);
}

/// Append `s[p..e]` to `v`.
pub fn push_range(v: &mut Vec<char>, s: &[char], p: usize, e: usize)
    requires
        p <= e <= s@.len(),
    ensures
        final(v)@ == old(v)@ + s@.subrange(p as int, e as int),
{
    let ghost v0 = v@;
    let mut i: usize = p;
    while i < e
        invariant
            p <= i <= e <= s@.len(),
            v@ == v0 + s@.subrange(p as int, i as int),
        decreases e - i,
    {
        v.push(s[i]);
        i = i + 1;
        assert(s@.subrange(p as int, i as int) == s@.subrange(p as int, i - 1).push(s@[i - 1]));
    }
}

/// Whether two character slices are equal.
pub fn chars_eq(a: &[char], b: &[char]) -> (r: bool)
    ensures
        r == (a@ == b@),
{
    if a.len() != b.len() {
        return false;
    }
    let n = a.len();
    let mut i: usize = 0;
    while i < n
        invariant
            n == a@.len(),
            n == b@.len(),
            i <= n,
            forall|j: int| 0 <= j < i ==> a@[j] == b@[j],
        decreases n - i,
    {
        if a[i] != b[i] {
            return false;
        }
        i = i + 1;
    }
    assert(a@ =~= b@);
    true
}

/// Whether a character slice spells the string `s`.
pub fn chars_eq_str(a: &[char], s: &str) -> (r: bool)
    ensures
        r == (a@ == s@),
{
    let b = str_to_chars(s);
    chars_eq(a, &b)
}

/// Whether two strings hold the same characters.
pub fn str_eq(a: &str, b: &str) -> (r: bool)
    ensures
        r == (a@ == b@),
{
    let x = str_to_chars(a);
    chars_eq_str(&x, b)
}

/// The decimal digit character for `d` (`0` ≤ `d` ≤ 9).
pub open spec fn digit_char(d: nat) -> char {
    if d == 0 {
        '0'
    } else if d == 1 {
        '1'
    } else if d == 2 {
        '2'
    } else if d == 3 {
        '3'
    } else if d == 4 {
        '4'
    } else if d == 5 {
        '5'
    } else if d == 6 {
        '6'
    } else if d == 7 {
        '7'
    } else if d == 8 {
        '8'
    } else {
        '9'
    }
}

/// The numeric value of an ASCII decimal digit.
pub open spec fn digit_value(c: char) -> nat {
    if c == '0' {
        0
    } else if c == '1' {
        1
    } else if c == '2' {
        2
    } else if c == '3' {
        3
    } else if c == '4' {
        4
    } else if c == '5' {
        5
    } else if c == '6' {
        6
    } else if c == '7' {
        7
    } else if c == '8' {
        8
    } else {
        9
    }
}

/// Whether `c` is one of `0`..`9`.
pub open spec fn is_ascii_digit(c: char) -> bool {
    '0' <= c && c <= '9'
}

pub fn digit_to_char(d: u64) -> (c: char)
    requires
        d < 10,
    ensures
        c == digit_char(d as nat),
{
    if d == 0 {
        '0'
    } else if d == 1 {
        '1'
    } else if d == 2 {
        '2'
    } else if d == 3 {
        '3'
    } else if d == 4 {
        '4'
    } else if d == 5 {
        '5'
    } else if d == 6 {
        '6'
    } else if d == 7 {
        '7'
    } else if d == 8 {
        '8'
    } else {
        '9'
    }
}

pub fn char_to_digit(c: char) -> (d: u64)
    ensures
        d == digit_value(c),
        d < 10,
{
    if c == '0' {
        0
    } else if c == '1' {
        1
    } else if c == '2' {
        2
    } else if c == '3' {
        3
    } else if c == '4' {
        4
    } else if c == '5' {
        5
    } else if c == '6' {
        6
    } else if c == '7' {
        7
    } else if c == '8' {
        8
    } else {
        9
    }
}

/// Decimal rendering of a natural number, without leading zeros
/// (`0` renders as `"0"`), as `u64::to_string` produces it.
pub open spec fn nat_text(n: nat) -> Seq<char>
    decreases n,
{
    if n < 10 {
        seq![digit_char(n)]
    } else {
        nat_text(n / 10).push(digit_char(n % 10))
    }
}

/// The last `width` decimal digits of `n`, left-padded with zeros.
pub open spec fn padded_text(n: nat, width: nat) -> Seq<char>
    decreases width,
{
    if width == 0 {
        Seq::empty()
    } else {
        padded_text(n / 10, (width - 1) as nat).push(digit_char(n % 10))
    }
}

/// Decimal rendering of a signed integer, as `i64::to_string` produces it.
pub open spec fn int_text(n: int) -> Seq<char> {
    if n < 0 {
        seq!['-'] + nat_text((-n) as nat)
    } else {
        nat_text(n as nat)
    }
}

/// Append the decimal rendering of `n` to `v`.
pub fn push_u64_text(v: &mut Vec<char>, n: u64)
    ensures
        final(v)@ == old(v)@ + nat_text(n as nat),
    decreases n,
{
    if n < 10 {
        let c = digit_to_char(n);
        v.push(c);
        assert(nat_text(n as nat) == seq![c]);
    } else {
        push_u64_text(v, n / 10);
        let c = digit_to_char(n % 10);
        v.push(c);
    }
}

/// Append the last `width` digits of `n`, zero-padded, to `v`.
pub fn push_padded(v: &mut Vec<char>, n: u64, width: u32)
    ensures
        final(v)@ == old(v)@ + padded_text(n as nat, width as nat),
    decreases width,
{
    if width > 0 {
        push_padded(v, n / 10, width - 1);
        let c = digit_to_char(n % 10);
        v.push(c);
    }
}

/// Append the decimal rendering of `n` to `v`.
pub fn push_i64_text(v: &mut Vec<char>, n: i64)
    ensures
        final(v)@ == old(v)@ + int_text(n as int),
{
    if n < 0 {
        v.push('-');
        let m: u64 = if n == i64::MIN {
            9223372036854775808u64
        } else {
            (-n) as u64
        };
        let ghost mid = v@;
        push_u64_text(v, m);
        assert(v@ == old(v)@ + (seq!['-'] + nat_text((-n) as nat)));
    } else {
        push_u64_text(v, n as u64);
    }
}

/// Build a `String` from a literal.
pub fn string_of(s: &str) -> (r: String)
    ensures
        r@ == s@,
{
    let v = str_to_chars(s);
    chars_to_string(&v)
}

} // verus!
