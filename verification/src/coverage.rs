//! Line coverage from an lcov report: every `DA:<line>,<count>[,…]` record
//! is an instrumented line, hit when its count is a positive number.
use crate::report::{trim_chars, trimmed};
use crate::text::{char_to_digit, digit_value, is_ascii_digit, push_range, str_to_chars};
use vstd::prelude::*;

verus! {

/// The value of the decimal digits `t`.
pub open spec fn decimal_value(t: Seq<char>) -> nat
    decreases t.len(),
{
    if t.len() == 0 {
        0
    } else {
        decimal_value(t.drop_last()) * 10 + digit_value(t.last())
    }
}

pub open spec fn all_digits(t: Seq<char>) -> bool {
    forall|i: int| 0 <= i < t.len() ==> is_ascii_digit(#[trigger] t[i])
}

/// `u64`'s reading of a text (`str::parse`): an optional `+`, then one or
/// more ASCII digits, the value in range.
pub open spec fn parse_u64_text(t: Seq<char>) -> Option<nat> {
    let d = if t.len() > 0 && t[0] == '+' {
        t.skip(1)
    } else {
        t
    };
    if d.len() > 0 && all_digits(d) && decimal_value(d) <= u64::MAX {
        Some(decimal_value(d))
    } else {
        None
    }
}

/// Index of the first `c` at or after `p`, else the length.
pub open spec fn next_char(s: Seq<char>, p: int, c: char) -> int
    decreases s.len() - p,
{
    if p < 0 || p >= s.len() {
        s.len() as int
    } else if s[p] == c {
        p
    } else {
        next_char(s, p + 1, c)
    }
}

pub proof fn lemma_next_char(s: Seq<char>, p: int, c: char)
    requires
        0 <= p <= s.len(),
    ensures
        p <= next_char(s, p, c) <= s.len(),
        forall|i: int| p <= i < next_char(s, p, c) ==> s[i] != c,
        next_char(s, p, c) < s.len() ==> s[next_char(s, p, c)] == c,
    decreases s.len() - p,
{
    if p < s.len() && s[p] != c {
        lemma_next_char(s, p + 1, c);
    }
}

/// A `DA:` record.
pub open spec fn is_da_line(l: Seq<char>) -> bool {
    l.len() >= 3 && l[0] == 'D' && l[1] == 'A' && l[2] == ':'
}

/// The second comma-separated field of `r`, if it has one.
pub open spec fn second_field(r: Seq<char>) -> Option<Seq<char>> {
    let c1 = next_char(r, 0, ',');
    if c1 >= r.len() {
        None
    } else {
        Some(r.subrange(c1 + 1, next_char(r, c1 + 1, ',')))
    }
}

/// A `DA:` record whose count is a positive number.
pub open spec fn line_hit(l: Seq<char>) -> bool {
    is_da_line(l) && match second_field(l.skip(3)) {
        Some(f) => match parse_u64_text(trimmed(f)) {
            Some(v) => v > 0,
            None => false,
        },
        None => false,
    }
}

/// Hit and instrumented lines among the lines of `s` from `p` on (lines
/// end at `'\n'`).
pub open spec fn lcov_from(s: Seq<char>, p: int) -> (nat, nat)
    decreases s.len() + 1 - p,
{
    if p < 0 || p > s.len() {
        (0, 0)
    } else {
        let e = next_char(s, p, '\n');
        proof {
            lemma_next_char(s, p, '\n');
        }
        let l = s.subrange(p, e);
        let r = lcov_from(s, e + 1);
        (
            r.0 + (if line_hit(l) {
                1nat
            } else {
                0nat
            }),
            r.1 + (if is_da_line(l) {
                1nat
            } else {
                0nat
            }),
        )
    }
}

/// The counts of an lcov report `s`: hit lines, instrumented lines.
pub open spec fn lcov_counts(s: Seq<char>) -> (nat, nat) {
    lcov_from(s, 0)
}

proof fn lemma_decimal_value_prefix(t: Seq<char>, k: int)
    requires
        0 <= k <= t.len(),
    ensures
        decimal_value(t.take(k)) <= decimal_value(t),
    decreases t.len(),
{
    if k < t.len() {
        assert(t.drop_last().take(k) =~= t.take(k));
        lemma_decimal_value_prefix(t.drop_last(), k);
    } else {
        assert(t.take(k) =~= t);
    }
}

fn parse_u64_chars(t: &Vec<char>) -> (r: Option<u64>)
    ensures
        match r {
            Some(v) => parse_u64_text(t@) == Some(v as nat),
            None => parse_u64_text(t@) is None,
        },
{
    let n = t.len();
    let start: usize = if n > 0 && t[0] == '+' {
        1
    } else {
        0
    };
    let ghost d = if t@.len() > 0 && t@[0] == '+' {
        t@.skip(1)
    } else {
        t@
    };
    assert(d =~= t@.subrange(start as int, n as int));
    if start == n {
        return None;
    }
    let mut v: u64 = 0;
    let mut i: usize = start;
    while i < n
        invariant
            start <= i <= n == t@.len(),
            d == t@.subrange(start as int, n as int),
            d == (if t@.len() > 0 && t@[0] == '+' {
                t@.skip(1)
            } else {
                t@
            }),
            all_digits(t@.subrange(start as int, i as int)),
            v as nat == decimal_value(t@.subrange(start as int, i as int)),
        decreases n - i,
    {
        let c = t[i];
        let ghost pre = t@.subrange(start as int, i as int);
        let ghost next = t@.subrange(start as int, i + 1);
        assert(next.drop_last() =~= pre);
        if !('0' <= c && c <= '9') {
            assert(!all_digits(d)) by {
                assert(d[i - start] == c);
            }
            return None;
        }
        let dg = char_to_digit(c);
        let m = v.checked_mul(10);
        let s = match m {
            Some(x) => x.checked_add(dg),
            None => None,
        };
        match s {
            Some(x) => {
                v = x;
            },
            None => {
                proof {
                    assert(decimal_value(next) > u64::MAX);
                    assert(next =~= d.take(i + 1 - start));
                    lemma_decimal_value_prefix(d, i + 1 - start);
                }
                return None;
            },
        }
        i = i + 1;
    }
    Some(v)
}

fn field_after(r: &Vec<char>, p: usize, c: char) -> (e: usize)
    requires
        p <= r@.len(),
    ensures
        e == next_char(r@, p as int, c),
{
    let n = r.len();
    let mut i: usize = p;
    while i < n && r[i] != c
        invariant
            p <= i <= n == r@.len(),
            next_char(r@, p as int, c) == next_char(r@, i as int, c),
        decreases n - i,
    {
        i = i + 1;
    }
    i
}

/// Whether the line is hit, and whether it is a `DA:` record.
fn line_counts(l: &Vec<char>) -> (r: (bool, bool))
    ensures
        r.0 == line_hit(l@),
        r.1 == is_da_line(l@),
{
    let n = l.len();
    if !(n >= 3 && l[0] == 'D' && l[1] == 'A' && l[2] == ':') {
        return (false, false);
    }
    let mut rest: Vec<char> = Vec::new();
    push_range(&mut rest, l.as_slice(), 3, n);
    assert(rest@ =~= l@.skip(3));
    let c1 = field_after(&rest, 0, ',');
    if c1 >= rest.len() {
        return (false, true);
    }
    let c2 = field_after(&rest, c1 + 1, ',');
    proof {
        lemma_next_char(rest@, c1 + 1, ',');
    }
    let mut field: Vec<char> = Vec::new();
    push_range(&mut field, rest.as_slice(), c1 + 1, c2);
    let t = trim_chars(&field);
    let hit = match parse_u64_chars(&t) {
        Some(v) => v > 0,
        None => false,
    };
    (hit, true)
}

proof fn lemma_lcov_bound(s: Seq<char>, p: int)
    requires
        0 <= p <= s.len() + 1,
    ensures
        lcov_from(s, p).0 <= lcov_from(s, p).1,
        lcov_from(s, p).1 <= s.len() + 1 - p,
    decreases s.len() + 1 - p,
{
    if p <= s.len() {
        lemma_next_char(s, p, '\n');
        lemma_lcov_bound(s, next_char(s, p, '\n') + 1);
    }
}

/// Count the hit and the instrumented lines of an lcov report.
pub fn lcov_line_counts(content: &str) -> (r: (u64, u64))
    ensures
        (r.0 as nat, r.1 as nat) == lcov_counts(content@),
{
    let s = str_to_chars(content);
    let n = s.len();
    let mut hit: u64 = 0;
    let mut total: u64 = 0;
    let mut p: usize = 0;
    proof {
        lemma_lcov_bound(s@, 0);
    }
    while p <= n
        invariant
            n == s@.len(),
            s@ == content@,
            n <= isize::MAX,
            p <= n + 1,
            total <= p,
            hit <= total,
            lcov_counts(s@).0 == hit + lcov_from(s@, p as int).0,
            lcov_counts(s@).1 == total + lcov_from(s@, p as int).1,
        decreases n + 1 - p,
    {
        let e = field_after(&s, p, '\n');
        proof {
            lemma_next_char(s@, p as int, '\n');
            lemma_lcov_bound(s@, e + 1);
        }
        let mut line: Vec<char> = Vec::new();
        push_range(&mut line, s.as_slice(), p, e);
        let (h, d) = line_counts(&line);
        if d {
            total = total + 1;
        }
        if h {
            hit = hit + 1;
        }
        p = e + 1;
    }
    (hit, total)
}

} // verus!
