//! Exact decimal numbers for confidences, costs and budgets.
//!
//! A `Decimal` is `mantissa / 10^scale`. Workflow files, trigger literals
//! and evaluation contexts write these values in decimal notation
//! (`0.95`, `2.0`); keeping the written digits exactly makes every
//! comparison (`min_confidence` floors, `confidence < 0.95` triggers)
//! exact rational arithmetic.
use vstd::prelude::*;
use crate::text::{chars_to_string, nat_text, padded_text, push_padded, push_u64_text};

verus! {

/// `10^n`.
pub open spec fn pow10(n: nat) -> nat
    decreases n,
{
    if n == 0 {
        1
    } else {
        10 * pow10((n - 1) as nat)
    }
}

pub proof fn lemma_pow10_pos(n: nat)
    ensures
        pow10(n) >= 1,
    decreases n,
{
    if n > 0 {
        lemma_pow10_pos((n - 1) as nat);
    }
}

pub proof fn lemma_pow10_add(a: nat, b: nat)
    ensures
        pow10(a + b) == pow10(a) * pow10(b),
    decreases a,
{
    if a > 0 {
        let a1 = (a - 1) as nat;
        lemma_pow10_add(a1, b);
        assert((a + b) as nat - 1 == a1 + b);
        assert(pow10(a + b) == 10 * pow10(a1 + b));
        assert(pow10(a) == 10 * pow10(a1));
        let x = pow10(a1);
        let y = pow10(b);
        assert(10 * (x * y) == (10 * x) * y) by (nonlinear_arith);
    } else {
        assert(a + b == b);
        assert(pow10(a) == 1);
    }
}

pub proof fn lemma_pow10_mono(a: nat, b: nat)
    requires
        a <= b,
    ensures
        pow10(a) <= pow10(b),
    decreases b,
{
    if a < b {
        lemma_pow10_mono(a, (b - 1) as nat);
        lemma_pow10_pos((b - 1) as nat);
    }
}

proof fn lemma_pow10_19()
    ensures
        pow10(19) == 10000000000000000000nat,
{
    reveal_with_fuel(pow10, 20);
}

pub(crate) proof fn lemma_pow10_20()
    ensures
        pow10(20) == 100000000000000000000nat,
{
    reveal_with_fuel(pow10, 21);
}

/// A signed decimal number `mantissa / 10^scale`.
#[derive(Clone, Copy, Debug, PartialEq, Eq, Structural)]
pub struct Decimal {
    pub mantissa: i64,
    pub scale: u32,
}

/// Three-way comparison outcome.
#[derive(Clone, Copy, Debug, PartialEq, Eq, Structural)]
pub enum Order {
    Less,
    Equal,
    Greater,
}

/// `a` scaled to the common denominator `10^(a.scale + b.scale)`, i.e.
/// `a.mantissa * 10^b.scale`.
pub open spec fn cross_left(a: Decimal, b: Decimal) -> int {
    a.mantissa * pow10(b.scale as nat)
}

/// `a < b` as rational numbers.
pub open spec fn dec_lt(a: Decimal, b: Decimal) -> bool {
    cross_left(a, b) < cross_left(b, a)
}

/// `a == b` as rational numbers (`2.0` equals `2`).
pub open spec fn dec_eq(a: Decimal, b: Decimal) -> bool {
    cross_left(a, b) == cross_left(b, a)
}

proof fn lemma_mul_cancel(x: int, y: int, q: int)
    requires
        q > 0,
        x * q == y * q,
    ensures
        x == y,
{
    assert(x == y) by (nonlinear_arith)
        requires
            q > 0,
            x * q == y * q,
    ;
}

/// Equality of decimals by value is transitive.
pub proof fn lemma_dec_eq_trans(a: Decimal, b: Decimal, c: Decimal)
    requires
        dec_eq(a, b),
        dec_eq(b, c),
    ensures
        dec_eq(a, c),
{
    let pa = pow10(a.scale as nat) as int;
    let pb = pow10(b.scale as nat) as int;
    let pc = pow10(c.scale as nat) as int;
    let x = a.mantissa as int;
    let y = b.mantissa as int;
    let z = c.mantissa as int;
    lemma_pow10_pos(b.scale as nat);
    assert(x * pb == y * pa);
    assert(y * pc == z * pb);
    assert((x * pc) * pb == (z * pa) * pb) by (nonlinear_arith)
        requires
            x * pb == y * pa,
            y * pc == z * pb,
    ;
    lemma_mul_cancel(x * pc, z * pa, pb);
}

pub open spec fn order_of(l: int, r: int) -> Order {
    if l < r {
        Order::Less
    } else if l == r {
        Order::Equal
    } else {
        Order::Greater
    }
}

/// The comparison of `a` and `b` as rational numbers.
pub open spec fn dec_order(a: Decimal, b: Decimal) -> Order {
    order_of(cross_left(a, b), cross_left(b, a))
}

pub fn pow10_exec(n: u32) -> (p: u64)
    requires
        n <= 19,
    ensures
        p == pow10(n as nat),
{
    let mut p: u64 = 1;
    let mut i: u32 = 0;
    while i < n
        invariant
            i <= n <= 19,
            p == pow10(i as nat),
        decreases n - i,
    {
        proof {
            lemma_pow10_mono((i + 1) as nat, 19);
            lemma_pow10_19();
        }
        p = p * 10;
        i = i + 1;
    }
    p
}

proof fn lemma_cancel(x: int, y: int, p: int, q: int)
    requires
        q > 0,
    ensures
        (x * p * q < y * q) == (x * p < y),
        (x * p * q == y * q) == (x * p == y),
{
    assert((x * p * q < y * q) == (x * p < y)) by (nonlinear_arith)
        requires
            q > 0,
    ;
    assert((x * p * q == y * q) == (x * p == y)) by (nonlinear_arith)
        requires
            q > 0,
    ;
}

/// Compare `x * 10^diff` with `y`.
fn compare_scaled(x: i64, diff: u32, y: i64) -> (o: Order)
    ensures
        o == order_of(x * pow10(diff as nat), y as int),
{
    if diff >= 20 {
        proof {
            lemma_pow10_mono(20, diff as nat);
            lemma_pow10_20();
            let p = pow10(diff as nat) as int;
            if x > 0 {
                assert(x * p >= p) by (nonlinear_arith)
                    requires
                        x >= 1,
                        p >= 0,
                ;
            } else if x < 0 {
                assert(x * p <= -p) by (nonlinear_arith)
                    requires
                        x <= -1,
                        p >= 0,
                ;
            }
        }
        if x > 0 {
            Order::Greater
        } else if x < 0 {
            Order::Less
        } else {
            if 0 < y {
                Order::Less
            } else if y == 0 {
                Order::Equal
            } else {
                Order::Greater
            }
        }
    } else {
        let p = pow10_exec(diff);
        proof {
            lemma_pow10_19();
            lemma_pow10_mono(diff as nat, 19);
            assert(-170141183460469231731687303715884105728 <= (x as int) * (p as int)
                <= 170141183460469231731687303715884105727) by (nonlinear_arith)
                requires
                    -9223372036854775808 <= x <= 9223372036854775807,
                    0 <= p <= 10000000000000000000,
            ;
        }
        let lhs: i128 = (x as i128) * (p as i128);
        let r = y as i128;
        if lhs < r {
            Order::Less
        } else if lhs == r {
            Order::Equal
        } else {
            Order::Greater
        }
    }
}

/// Compare two decimals as rational numbers.
pub fn decimal_order(a: &Decimal, b: &Decimal) -> (o: Order)
    ensures
        o == dec_order(*a, *b),
{
    let ghost x = a.mantissa as int;
    let ghost y = b.mantissa as int;
    if a.scale <= b.scale {
        let diff = b.scale - a.scale;
        let o = compare_scaled(a.mantissa, diff, b.mantissa);
        proof {
            lemma_pow10_add(diff as nat, a.scale as nat);
            lemma_pow10_pos(a.scale as nat);
            let p = pow10(diff as nat) as int;
            let q = pow10(a.scale as nat) as int;
            assert(cross_left(*a, *b) == x * p * q) by (nonlinear_arith)
                requires
                    cross_left(*a, *b) == x * (p * q),
            ;
            lemma_cancel(x, y, p, q);
        }
        o
    } else {
        let diff = a.scale - b.scale;
        let o = compare_scaled(b.mantissa, diff, a.mantissa);
        proof {
            lemma_pow10_add(diff as nat, b.scale as nat);
            lemma_pow10_pos(b.scale as nat);
            let p = pow10(diff as nat) as int;
            let q = pow10(b.scale as nat) as int;
            assert(cross_left(*b, *a) == y * p * q) by (nonlinear_arith)
                requires
                    cross_left(*b, *a) == y * (p * q),
            ;
            lemma_cancel(y, x, p, q);
        }
        match o {
            Order::Less => Order::Greater,
            Order::Equal => Order::Equal,
            Order::Greater => Order::Less,
        }
    }
}

/// `a < b`.
pub fn decimal_lt(a: &Decimal, b: &Decimal) -> (r: bool)
    ensures
        r == dec_lt(*a, *b),
{
    let o = decimal_order(a, b);
    match o {
        Order::Less => true,
        _ => false,
    }
}

/// Strip trailing fractional zeros: `(150, 2)` (1.50) becomes `(15, 1)`.
pub open spec fn trim_zeros(m: nat, s: nat) -> (nat, nat)
    decreases s,
{
    if s > 0 && m % 10 == 0 {
        trim_zeros(m / 10, (s - 1) as nat)
    } else {
        (m, s)
    }
}

/// Rendering of the non-negative decimal `m / 10^s` with the shortest
/// fraction: `2.0` renders `"2"`, `0.90` renders `"0.9"`, `1.25` renders
/// `"1.25"` (the rendering `f64`'s `Display` gives those values).
pub open spec fn unsigned_decimal_text(m: nat, s: nat) -> Seq<char> {
    let (m2, s2) = trim_zeros(m, s);
    if s2 == 0 {
        nat_text(m2)
    } else {
        nat_text(m2 / pow10(s2)) + seq!['.'] + padded_text(m2 % pow10(s2), s2)
    }
}

/// Rendering of a decimal with the shortest fraction and a leading `-`
/// when negative.
pub open spec fn decimal_text(d: Decimal) -> Seq<char> {
    if d.mantissa < 0 {
        seq!['-'] + unsigned_decimal_text((-d.mantissa) as nat, d.scale as nat)
    } else {
        unsigned_decimal_text(d.mantissa as nat, d.scale as nat)
    }
}

fn push_unsigned_decimal(v: &mut Vec<char>, m: u64, s: u32)
    ensures
        final(v)@ == old(v)@ + unsigned_decimal_text(m as nat, s as nat),
{
    let mut m2 = m;
    let mut s2 = s;
    while s2 > 0 && m2 % 10 == 0
        invariant
            trim_zeros(m2 as nat, s2 as nat) == trim_zeros(m as nat, s as nat),
        decreases s2,
    {
        m2 = m2 / 10;
        s2 = s2 - 1;
    }
    if s2 == 0 {
        push_u64_text(v, m2);
    } else if s2 >= 20 {
        proof {
            lemma_pow10_mono(20, s2 as nat);
            lemma_pow10_20();
            assert((m2 as nat) / pow10(s2 as nat) == 0) by (nonlinear_arith)
                requires
                    m2 < pow10(s2 as nat),
            ;
            assert((m2 as nat) % pow10(s2 as nat) == m2) by (nonlinear_arith)
                requires
                    m2 < pow10(s2 as nat),
            ;
        }
        let ghost v0 = v@;
        push_u64_text(v, 0);
        v.push('.');
        push_padded(v, m2, s2);
        assert(v@ == v0 + (nat_text(0) + seq!['.'] + padded_text(m2 as nat, s2 as nat)));
    } else {
        let p = pow10_exec(s2);
        proof {
            lemma_pow10_pos(s2 as nat);
        }
        let ghost v0 = v@;
        push_u64_text(v, m2 / p);
        v.push('.');
        push_padded(v, m2 % p, s2);
        assert(v@ == v0 + (nat_text((m2 / p) as nat) + seq!['.'] + padded_text(
            (m2 % p) as nat,
            s2 as nat,
        )));
    }
}

/// Append the rendering of `d` to `v`.
pub fn push_decimal_text(v: &mut Vec<char>, d: &Decimal)
    ensures
        final(v)@ == old(v)@ + decimal_text(*d),
{
    if d.mantissa < 0 {
        v.push('-');
        let m: u64 = if d.mantissa == i64::MIN {
            9223372036854775808u64
        } else {
            (-d.mantissa) as u64
        };
        let ghost mid = v@;
        push_unsigned_decimal(v, m, d.scale);
        assert(v@ == old(v)@ + (seq!['-'] + unsigned_decimal_text(m as nat, d.scale as nat)));
    } else {
        push_unsigned_decimal(v, d.mantissa as u64, d.scale);
    }
}

impl Decimal {
    /// The rendering of this number (`0.90` renders as `"0.9"`).
    pub fn to_text(&self) -> (s: String)
        ensures
            s@ == decimal_text(*self),
    {
        let mut v: Vec<char> = Vec::new();
        push_decimal_text(&mut v, self);
        assert(v@ == Seq::<char>::empty() + decimal_text(*self));
        chars_to_string(&v)
    }
}

} // verus!
