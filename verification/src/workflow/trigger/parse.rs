//! Recursive-descent parser for trigger expressions.
use super::lex::{lex, serr, spec_lex};
use super::{
    CmpOp, ParseError, SpecAst, SpecError, SpecTok, SpecToken, SpecValue, Token,
    TokenWithPos, TriggerAst, TriggerValue, toks_view,
};
use crate::decimal::{decimal_text, lemma_pow10_20, pow10, push_decimal_text, trim_zeros, Decimal};
use crate::text::{
    chars_to_string, int_text, nat_text, push_i64_text, push_range, push_str, push_u64_text, str_eq,
    str_to_chars,
};
use vstd::prelude::*;

verus! {

/// Maximum nesting depth for `(` groups and chained `NOT`; deeper input is
/// a parse error rather than unbounded recursion.
pub const MAX_PARSE_DEPTH: usize = 128;

// ─── Rendering tokens in messages ──────────────────────────────────────────

/// What `str`'s `Debug` shows for `s`: the text in double quotes, with
/// quotes, backslashes, control characters and characters that Unicode
/// does not count as printable escaped. Which characters are printable is
/// decided by Unicode tables, so the result is named rather than spelled
/// out.
pub uninterp spec fn str_debug(s: Seq<char>) -> Seq<char>;

/// A string as `Debug` shows it (see `str_debug`).
pub open spec fn quoted_text(s: Seq<char>) -> Seq<char> {
    str_debug(s)
}

/// std's `Debug` formatting of a `str` (`format!("{:?}", s)`); the
/// contract says only that the result is `str_debug` of the text.
#[verifier::external_body]
fn debug_quoted(s: &str) -> (r: String)
    ensures
        r@ == str_debug(s@),
{
    format!("{:?}", s)
}

/// The magnitude of `d` with the fraction's trailing zeros dropped.
pub open spec fn trimmed_magnitude(d: Decimal) -> (nat, nat) {
    trim_zeros(
        (if d.mantissa < 0 {
            -d.mantissa
        } else {
            d.mantissa as int
        }) as nat,
        d.scale as nat,
    )
}

/// `t` without trailing `'0'`s (keeping at least one character).
pub open spec fn strip_trailing_zeros(t: Seq<char>) -> Seq<char>
    decreases t.len(),
{
    if t.len() > 1 && t.last() == '0' {
        strip_trailing_zeros(t.drop_last())
    } else {
        t
    }
}

/// The decimal exponent of `d`'s leading digit (`0.00012` has -4).
pub open spec fn decimal_exponent(d: Decimal) -> int {
    let (m, s) = trimmed_magnitude(d);
    nat_text(m).len() - 1 - s
}

/// `f64`'s `Debug` switches to exponent form below `1e-4` and from `1e16`.
pub open spec fn debug_uses_exponent(d: Decimal) -> bool {
    trimmed_magnitude(d).0 != 0 && (decimal_exponent(d) < -4 || decimal_exponent(d) >= 16)
}

/// Exponent form: the significant digits as `d.ddd`, then `e` and the
/// exponent (`1e-5`, `1.25e16`).
pub open spec fn exponent_text(d: Decimal) -> Seq<char> {
    let digits = strip_trailing_zeros(nat_text(trimmed_magnitude(d).0));
    (if d.mantissa < 0 {
        seq!['-']
    } else {
        Seq::empty()
    }) + seq![digits[0]] + (if digits.len() > 1 {
        seq!['.'] + digits.skip(1)
    } else {
        Seq::empty()
    }) + seq!['e'] + int_text(decimal_exponent(d))
}

/// A decimal as `f64`'s `Debug` shows it: exponent form for tiny and huge
/// magnitudes; otherwise the plain form, where integral values keep a `.0`.
pub open spec fn float_debug_text(d: Decimal) -> Seq<char> {
    if debug_uses_exponent(d) {
        exponent_text(d)
    } else if trimmed_magnitude(d).1 == 0 {
        decimal_text(d) + ".0"@
    } else {
        decimal_text(d)
    }
}

/// The rendering of a token in parse-error messages (its `Debug` form).
pub open spec fn token_debug(t: SpecToken) -> Seq<char> {
    match t {
        SpecToken::And => "And"@,
        SpecToken::Or => "Or"@,
        SpecToken::Not => "Not"@,
        SpecToken::LParen => "LParen"@,
        SpecToken::RParen => "RParen"@,
        SpecToken::Eq => "Eq"@,
        SpecToken::NotEq => "NotEq"@,
        SpecToken::Ge => "Ge"@,
        SpecToken::Le => "Le"@,
        SpecToken::Gt => "Gt"@,
        SpecToken::Lt => "Lt"@,
        SpecToken::Ident(s) => "Ident("@ + quoted_text(s) + ")"@,
        SpecToken::IntLit(n) => "IntLit("@ + int_text(n as int) + ")"@,
        SpecToken::FloatLit(d) => "FloatLit("@ + float_debug_text(d) + ")"@,
        SpecToken::StringLit(s) => "StringLit("@ + quoted_text(s) + ")"@,
        SpecToken::True => "True"@,
        SpecToken::False => "False"@,
        SpecToken::Always => "Always"@,
    }
}

pub(crate) fn push_quoted(v: &mut Vec<char>, s: &String)
    ensures
        final(v)@ == old(v)@ + quoted_text(s@),
{
    let q = debug_quoted(s.as_str());
    push_str(v, q.as_str());
}

proof fn lemma_nat_text_len(n: nat, k: nat)
    requires
        k >= 1,
        n < pow10(k),
    ensures
        1 <= nat_text(n).len() <= k,
    decreases k,
{
    if n >= 10 {
        assert(k >= 2) by {
            if k == 1 {
                assert(pow10(1) == 10) by {
                    reveal_with_fuel(pow10, 2);
                }
            }
        }
        lemma_nat_text_len(n / 10, (k - 1) as nat);
    }
}

/// Append the exponent form of `d`, given the digits `t` of its trimmed
/// magnitude and its exponent `e`.
fn push_exponent_text(v: &mut Vec<char>, d: &Decimal, t: Vec<char>, e: i64)
    requires
        trimmed_magnitude(*d).0 != 0,
        t@ == nat_text(trimmed_magnitude(*d).0),
        e == decimal_exponent(*d),
    ensures
        final(v)@ == old(v)@ + exponent_text(*d),
{
    let ghost v0 = v@;
    let ghost t0 = t@;
    let mut t = t;
    assert(t@.len() >= 1);
    while t.len() > 1 && t[t.len() - 1] == '0'
        invariant
            t@.len() >= 1,
            strip_trailing_zeros(t@) == strip_trailing_zeros(t0),
        decreases t@.len(),
    {
        let _ = t.pop();
    }
    let ghost digits = t@;
    assert(digits == strip_trailing_zeros(t0)) by {
        assert(!(digits.len() > 1 && digits.last() == '0'));
    }
    if d.mantissa < 0 {
        v.push('-');
    }
    v.push(t[0]);
    if t.len() > 1 {
        v.push('.');
        let n = t.len();
        push_range(v, t.as_slice(), 1, n);
    }
    v.push('e');
    push_i64_text(v, e);
    assert(v@ =~= v0 + exponent_text(*d));
}

fn push_float_debug(v: &mut Vec<char>, d: &Decimal)
    ensures
        final(v)@ == old(v)@ + float_debug_text(*d),
{
    let mut m: u64 = if d.mantissa < 0 {
        if d.mantissa == i64::MIN {
            9223372036854775808u64
        } else {
            (-d.mantissa) as u64
        }
    } else {
        d.mantissa as u64
    };
    let mut s = d.scale;
    let ghost am: nat = (if d.mantissa < 0 {
        -d.mantissa
    } else {
        d.mantissa as int
    }) as nat;
    while s > 0 && m % 10 == 0
        invariant
            trim_zeros(m as nat, s as nat) == trim_zeros(am, d.scale as nat),
        decreases s,
    {
        m = m / 10;
        s = s - 1;
    }
    assert(trimmed_magnitude(*d) == (m as nat, s as nat));
    if m != 0 {
        let mut t: Vec<char> = Vec::new();
        push_u64_text(&mut t, m);
        assert(t@ =~= nat_text(m as nat));
        proof {
            lemma_pow10_20();
            lemma_nat_text_len(m as nat, 20);
        }
        let e: i64 = t.len() as i64 - 1 - s as i64;
        assert(e == decimal_exponent(*d));
        if e < -4 || e >= 16 {
            push_exponent_text(v, d, t, e);
            return;
        }
    }
    push_decimal_text(v, d);
    if s == 0 {
        push_str(v, ".0");
    }
}

fn push_token_debug(v: &mut Vec<char>, t: &Token)
    ensures
        final(v)@ == old(v)@ + token_debug(t@),
{
    let ghost v0 = v@;
    match t {
        Token::And => push_str(v, "And"),
        Token::Or => push_str(v, "Or"),
        Token::Not => push_str(v, "Not"),
        Token::LParen => push_str(v, "LParen"),
        Token::RParen => push_str(v, "RParen"),
        Token::Eq => push_str(v, "Eq"),
        Token::NotEq => push_str(v, "NotEq"),
        Token::Ge => push_str(v, "Ge"),
        Token::Le => push_str(v, "Le"),
        Token::Gt => push_str(v, "Gt"),
        Token::Lt => push_str(v, "Lt"),
        Token::Ident(s) => {
            push_str(v, "Ident(");
            push_quoted(v, s);
            push_str(v, ")");
            assert(v@ =~= v0 + token_debug(t@));
        },
        Token::IntLit(n) => {
            push_str(v, "IntLit(");
            push_i64_text(v, *n);
            push_str(v, ")");
            assert(v@ =~= v0 + token_debug(t@));
        },
        Token::FloatLit(d) => {
            push_str(v, "FloatLit(");
            push_float_debug(v, d);
            push_str(v, ")");
            assert(v@ =~= v0 + token_debug(t@));
        },
        Token::StringLit(s) => {
            push_str(v, "StringLit(");
            push_quoted(v, s);
            push_str(v, ")");
            assert(v@ =~= v0 + token_debug(t@));
        },
        Token::True => push_str(v, "True"),
        Token::False => push_str(v, "False"),
        Token::Always => push_str(v, "Always"),
    }
}

// ─── Grammar ───────────────────────────────────────────────────────────────

/// An error positioned at token `p`, or at the last token when `p` is past
/// the end (line 1, column 1 for an empty token list).
pub open spec fn err_at(t: Seq<SpecTok>, p: int, msg: Seq<char>) -> SpecError {
    if 0 <= p < t.len() {
        serr(msg, t[p].line, t[p].column)
    } else if t.len() > 0 {
        serr(msg, t.last().line, t.last().column)
    } else {
        serr(msg, 1, 1)
    }
}

pub open spec fn depth_message() -> Seq<char> {
    "trigger expression too deeply nested (max depth 128)"@
}

/// The identifiers a comparison may test.
pub open spec fn is_allowed_ident(n: Seq<char>) -> bool {
    n == "tier"@ || n == "layer"@ || n == "confidence"@ || n == "cost"@ || n == "passes"@ || n
        == "change_scope"@
}

pub open spec fn allowed_list() -> Seq<char> {
    "tier, layer, confidence, cost, passes, change_scope"@
}

pub open spec fn cmp_op_of(t: SpecToken) -> Option<CmpOp> {
    match t {
        SpecToken::Eq => Some(CmpOp::Eq),
        SpecToken::NotEq => Some(CmpOp::NotEq),
        SpecToken::Ge => Some(CmpOp::Ge),
        SpecToken::Le => Some(CmpOp::Le),
        SpecToken::Gt => Some(CmpOp::Gt),
        SpecToken::Lt => Some(CmpOp::Lt),
        _ => None,
    }
}

/// Right-hand-side values; a bare identifier stands for the string it
/// spells (`layer == infrastructure`).
pub open spec fn value_of(t: SpecToken) -> Option<SpecValue> {
    match t {
        SpecToken::IntLit(n) => Some(SpecValue::Int(n)),
        SpecToken::FloatLit(d) => Some(SpecValue::Float(d)),
        SpecToken::StringLit(s) => Some(SpecValue::Str(s)),
        SpecToken::Ident(s) => Some(SpecValue::Str(s)),
        _ => None,
    }
}

/// `or_expr` at `p` with nesting depth `d`: the expression and the
/// position after it.
pub open spec fn p_or(t: Seq<SpecTok>, p: int, d: int) -> Result<(SpecAst, int), SpecError>
    decreases t.len() - p, 5int,
{
    match p_and(t, p, d) {
        Ok((l, p1)) => if p < p1 <= t.len() {
            or_tail(t, l, p1, d)
        } else {
            Ok((l, p1))
        },
        Err(e) => Err(e),
    }
}

/// The `('OR' and_expr)*` continuation after `left`.
pub open spec fn or_tail(t: Seq<SpecTok>, left: SpecAst, p: int, d: int) -> Result<
    (SpecAst, int),
    SpecError,
>
    decreases t.len() - p, 6int,
{
    if 0 <= p < t.len() && t[p].token is Or {
        match p_and(t, p + 1, d) {
            Ok((r, p2)) => if p + 1 < p2 <= t.len() {
                or_tail(t, SpecAst::Or(Box::new(left), Box::new(r)), p2, d)
            } else {
                Ok((r, p2))
            },
            Err(e) => Err(e),
        }
    } else {
        Ok((left, p))
    }
}

pub open spec fn p_and(t: Seq<SpecTok>, p: int, d: int) -> Result<(SpecAst, int), SpecError>
    decreases t.len() - p, 4int,
{
    match p_not(t, p, d) {
        Ok((l, p1)) => if p < p1 <= t.len() {
            and_tail(t, l, p1, d)
        } else {
            Ok((l, p1))
        },
        Err(e) => Err(e),
    }
}

pub open spec fn and_tail(t: Seq<SpecTok>, left: SpecAst, p: int, d: int) -> Result<
    (SpecAst, int),
    SpecError,
>
    decreases t.len() - p, 6int,
{
    if 0 <= p < t.len() && t[p].token is And {
        match p_not(t, p + 1, d) {
            Ok((r, p2)) => if p + 1 < p2 <= t.len() {
                and_tail(t, SpecAst::And(Box::new(left), Box::new(r)), p2, d)
            } else {
                Ok((r, p2))
            },
            Err(e) => Err(e),
        }
    } else {
        Ok((left, p))
    }
}

pub open spec fn p_not(t: Seq<SpecTok>, p: int, d: int) -> Result<(SpecAst, int), SpecError>
    decreases t.len() - p, 3int,
{
    if 0 <= p < t.len() && t[p].token is Not {
        if d + 1 > 128 {
            Err(err_at(t, p + 1, depth_message()))
        } else {
            match p_not(t, p + 1, d + 1) {
                Ok((i, p2)) => Ok((SpecAst::Not(Box::new(i)), p2)),
                Err(e) => Err(e),
            }
        }
    } else {
        p_primary(t, p, d)
    }
}

pub open spec fn p_primary(t: Seq<SpecTok>, p: int, d: int) -> Result<(SpecAst, int), SpecError>
    decreases t.len() - p, 2int,
{
    if p < 0 || p >= t.len() {
        Err(err_at(t, p, "unexpected end of expression"@))
    } else {
        let tk = t[p];
        match tk.token {
            SpecToken::LParen => if d + 1 > 128 {
                Err(err_at(t, p + 1, depth_message()))
            } else {
                match p_or(t, p + 1, d + 1) {
                    Ok((inner, p2)) => if 0 <= p2 < t.len() && t[p2].token is RParen {
                        Ok((inner, p2 + 1))
                    } else {
                        Err(err_at(t, p2, "unclosed parenthesis; expected ')'"@))
                    },
                    Err(e) => Err(e),
                }
            },
            SpecToken::True => Ok((SpecAst::Literal(true), p + 1)),
            SpecToken::Always => Ok((SpecAst::Literal(true), p + 1)),
            SpecToken::False => Ok((SpecAst::Literal(false), p + 1)),
            SpecToken::Ident(name) => if !is_allowed_ident(name) {
                Err(
                    serr(
                        "unknown identifier '"@ + name + "'; allowed: "@ + allowed_list(),
                        tk.line,
                        tk.column,
                    ),
                )
            } else if p + 1 >= t.len() {
                Err(err_at(t, p + 1, "expected comparison operator"@))
            } else {
                match cmp_op_of(t[p + 1].token) {
                    None => Err(
                        serr(
                            "expected comparison operator; got "@ + token_debug(t[p + 1].token),
                            t[p + 1].line,
                            t[p + 1].column,
                        ),
                    ),
                    Some(op) => if p + 2 >= t.len() {
                        Err(
                            err_at(t, p + 2, "expected value (int, float, string, or identifier)"@),
                        )
                    } else {
                        match value_of(t[p + 2].token) {
                            None => Err(
                                serr(
                                    "expected value literal; got "@ + token_debug(t[p + 2].token),
                                    t[p + 2].line,
                                    t[p + 2].column,
                                ),
                            ),
                            Some(v) => Ok((SpecAst::Comparison(name, op, v), p + 3)),
                        }
                    },
                }
            },
            _ => Err(
                serr(
                    "expected identifier, literal, or '('; got "@ + token_debug(tk.token),
                    tk.line,
                    tk.column,
                ),
            ),
        }
    }
}

/// The operator a comparison token stands for.
pub open spec fn op_matches(tk: SpecToken, op: CmpOp) -> bool {
    ||| (tk == SpecToken::Eq && op == CmpOp::Eq)
    ||| (tk == SpecToken::NotEq && op == CmpOp::NotEq)
    ||| (tk == SpecToken::Ge && op == CmpOp::Ge)
    ||| (tk == SpecToken::Le && op == CmpOp::Le)
    ||| (tk == SpecToken::Gt && op == CmpOp::Gt)
    ||| (tk == SpecToken::Lt && op == CmpOp::Lt)
}

/// A comparison reads as written: an allowed identifier, an operator token
/// and a literal parse to a comparison of that identifier, with the
/// operator the token spells (`<` is `Lt`, never `Le`), against the
/// literal's value (an integer, a decimal, a string, or a bare word as a
/// string), ending after the three tokens.
pub proof fn lemma_comparison_parses(t: Seq<SpecTok>, p: int, d: int, name: Seq<char>, op: CmpOp)
    requires
        0 <= p,
        p + 2 < t.len(),
        t[p].token == SpecToken::Ident(name),
        name == "tier"@ || name == "layer"@ || name == "confidence"@ || name == "cost"@ || name
            == "passes"@ || name == "change_scope"@,
        op_matches(t[p + 1].token, op),
    ensures
        t[p + 2].token matches SpecToken::IntLit(n) ==> p_primary(t, p, d) == Ok::<
            (SpecAst, int),
            SpecError,
        >((SpecAst::Comparison(name, op, SpecValue::Int(n)), p + 3)),
        t[p + 2].token matches SpecToken::FloatLit(f) ==> p_primary(t, p, d) == Ok::<
            (SpecAst, int),
            SpecError,
        >((SpecAst::Comparison(name, op, SpecValue::Float(f)), p + 3)),
        t[p + 2].token matches SpecToken::StringLit(v) ==> p_primary(t, p, d) == Ok::<
            (SpecAst, int),
            SpecError,
        >((SpecAst::Comparison(name, op, SpecValue::Str(v)), p + 3)),
        t[p + 2].token matches SpecToken::Ident(v) ==> p_primary(t, p, d) == Ok::<
            (SpecAst, int),
            SpecError,
        >((SpecAst::Comparison(name, op, SpecValue::Str(v)), p + 3)),
{
}

/// The expression `s` denotes, or the first lexical or syntax error. Input
/// left over after a complete expression is an error at its first token.
pub open spec fn spec_parse(s: Seq<char>) -> Result<SpecAst, SpecError> {
    match spec_lex(s) {
        Err(e) => Err(e),
        Ok(t) => match p_or(t, 0, 0) {
            Err(e) => Err(e),
            Ok((a, p)) => if 0 <= p < t.len() {
                Err(
                    serr(
                        "unexpected token after expression: "@ + token_debug(t[p].token),
                        t[p].line,
                        t[p].column,
                    ),
                )
            } else {
                Ok(a)
            },
        },
    }
}

pub open spec fn parse_result_view(r: Result<TriggerAst, ParseError>) -> Result<SpecAst, SpecError> {
    match r {
        Ok(a) => Ok(a@),
        Err(e) => Err(e@),
    }
}

pub open spec fn step_view(r: Result<(TriggerAst, usize), ParseError>) -> Result<
    (SpecAst, int),
    SpecError,
> {
    match r {
        Ok((a, p)) => Ok((a@, p as int)),
        Err(e) => Err(e@),
    }
}

/// Successful steps consume at least one token and stay in bounds.
pub open spec fn advances(r: Result<(TriggerAst, usize), ParseError>, p: int, n: int) -> bool {
    match r {
        Ok((_, p2)) => p < p2 <= n,
        Err(_) => true,
    }
}

// ─── Executable parser ─────────────────────────────────────────────────────

fn err_at_exec(t: &Vec<TokenWithPos>, p: usize, msg: &Vec<char>) -> (e: ParseError)
    ensures
        e@ == err_at(toks_view(t@), p as int, msg@),
{
    let m = chars_to_string(msg);
    if p < t.len() {
        ParseError { message: m, line: t[p].line, column: t[p].column }
    } else if t.len() > 0 {
        let last = t.len() - 1;
        ParseError { message: m, line: t[last].line, column: t[last].column }
    } else {
        ParseError { message: m, line: 1, column: 1 }
    }
}

fn err_at_str(t: &Vec<TokenWithPos>, p: usize, msg: &str) -> (e: ParseError)
    ensures
        e@ == err_at(toks_view(t@), p as int, msg@),
{
    let m = str_to_chars(msg);
    err_at_exec(t, p, &m)
}

fn err_with_token(prefix: &str, tk: &TokenWithPos) -> (e: ParseError)
    ensures
        e@ == serr(prefix@ + token_debug(tk.token@), tk.line as int, tk.column as int),
{
    let mut m: Vec<char> = Vec::new();
    push_str(&mut m, prefix);
    push_token_debug(&mut m, &tk.token);
    assert(m@ =~= prefix@ + token_debug(tk.token@));
    ParseError { message: chars_to_string(&m), line: tk.line, column: tk.column }
}

fn is_allowed_ident_exec(name: &String) -> (b: bool)
    ensures
        b == is_allowed_ident(name@),
{
    let s = name.as_str();
    str_eq(s, "tier") || str_eq(s, "layer") || str_eq(s, "confidence") || str_eq(s, "cost")
        || str_eq(s, "passes") || str_eq(s, "change_scope")
}

fn clone_string(s: &String) -> (r: String)
    ensures
        r@ == s@,
{
    s.clone()
}

fn parse_or(t: &Vec<TokenWithPos>, p: usize, d: usize) -> (r: Result<(TriggerAst, usize), ParseError>)
    requires
        p <= t@.len(),
        d <= 128,
    ensures
        step_view(r) == p_or(toks_view(t@), p as int, d as int),
        advances(r, p as int, t@.len() as int),
    decreases t@.len() - p, 5int,
{
    let ghost tv = toks_view(t@);
    let (mut left, mut pos) = match parse_and(t, p, d) {
        Ok(x) => x,
        Err(e) => return Err(e),
    };
    while pos < t.len() && matches!(t[pos].token, Token::Or)
        invariant
            tv == toks_view(t@),
            p < pos <= t@.len(),
            d <= 128,
            p_or(tv, p as int, d as int) == or_tail(tv, left@, pos as int, d as int),
        decreases t@.len() - pos,
    {
        assert(tv[pos as int].token is Or);
        let (right, p2) = match parse_and(t, pos + 1, d) {
            Ok(x) => x,
            Err(e) => return Err(e),
        };
        left = TriggerAst::Or(Box::new(left), Box::new(right));
        pos = p2;
    }
    Ok((left, pos))
}

fn parse_and(t: &Vec<TokenWithPos>, p: usize, d: usize) -> (r: Result<(TriggerAst, usize), ParseError>)
    requires
        p <= t@.len(),
        d <= 128,
    ensures
        step_view(r) == p_and(toks_view(t@), p as int, d as int),
        advances(r, p as int, t@.len() as int),
    decreases t@.len() - p, 4int,
{
    let ghost tv = toks_view(t@);
    let (mut left, mut pos) = match parse_not(t, p, d) {
        Ok(x) => x,
        Err(e) => return Err(e),
    };
    while pos < t.len() && matches!(t[pos].token, Token::And)
        invariant
            tv == toks_view(t@),
            p < pos <= t@.len(),
            d <= 128,
            p_and(tv, p as int, d as int) == and_tail(tv, left@, pos as int, d as int),
        decreases t@.len() - pos,
    {
        assert(tv[pos as int].token is And);
        let (right, p2) = match parse_not(t, pos + 1, d) {
            Ok(x) => x,
            Err(e) => return Err(e),
        };
        left = TriggerAst::And(Box::new(left), Box::new(right));
        pos = p2;
    }
    Ok((left, pos))
}

fn parse_not(t: &Vec<TokenWithPos>, p: usize, d: usize) -> (r: Result<(TriggerAst, usize), ParseError>)
    requires
        p <= t@.len(),
        d <= 128,
    ensures
        step_view(r) == p_not(toks_view(t@), p as int, d as int),
        advances(r, p as int, t@.len() as int),
    decreases t@.len() - p, 3int,
{
    let ghost tv = toks_view(t@);
    if p < t.len() && matches!(t[p].token, Token::Not) {
        assert(tv[p as int].token is Not);
        if d + 1 > MAX_PARSE_DEPTH {
            return Err(err_at_str(t, p + 1, "trigger expression too deeply nested (max depth 128)"));
        }
        match parse_not(t, p + 1, d + 1) {
            Ok((inner, p2)) => Ok((TriggerAst::Not(Box::new(inner)), p2)),
            Err(e) => Err(e),
        }
    } else {
        parse_primary(t, p, d)
    }
}

fn parse_primary(t: &Vec<TokenWithPos>, p: usize, d: usize) -> (r: Result<
    (TriggerAst, usize),
    ParseError,
>)
    requires
        p <= t@.len(),
        d <= 128,
    ensures
        step_view(r) == p_primary(toks_view(t@), p as int, d as int),
        advances(r, p as int, t@.len() as int),
    decreases t@.len() - p, 2int,
{
    let ghost tv = toks_view(t@);
    if p >= t.len() {
        return Err(err_at_str(t, p, "unexpected end of expression"));
    }
    let tk = &t[p];
    assert(tv[p as int] == tk@);
    match &tk.token {
        Token::LParen => {
            if d + 1 > MAX_PARSE_DEPTH {
                return Err(
                    err_at_str(t, p + 1, "trigger expression too deeply nested (max depth 128)"),
                );
            }
            match parse_or(t, p + 1, d + 1) {
                Ok((inner, p2)) => {
                    if p2 < t.len() && matches!(t[p2].token, Token::RParen) {
                        assert(tv[p2 as int].token is RParen);
                        Ok((inner, p2 + 1))
                    } else {
                        assert(!(0 <= p2 < tv.len() && tv[p2 as int].token is RParen));
                        Err(err_at_str(t, p2, "unclosed parenthesis; expected ')'"))
                    }
                },
                Err(e) => Err(e),
            }
        },
        Token::True => Ok((TriggerAst::Literal(true), p + 1)),
        Token::Always => Ok((TriggerAst::Literal(true), p + 1)),
        Token::False => Ok((TriggerAst::Literal(false), p + 1)),
        Token::Ident(name) => {
            if !is_allowed_ident_exec(name) {
                let mut m: Vec<char> = Vec::new();
                push_str(&mut m, "unknown identifier '");
                let nc = str_to_chars(name.as_str());
                crate::text::push_chars(&mut m, &nc);
                push_str(&mut m, "'; allowed: ");
                push_str(&mut m, "tier, layer, confidence, cost, passes, change_scope");
                assert(m@ =~= "unknown identifier '"@ + name@ + "'; allowed: "@ + allowed_list());
                return Err(ParseError { message: chars_to_string(&m), line: tk.line, column: tk.column });
            }
            if p + 1 >= t.len() {
                return Err(err_at_str(t, p + 1, "expected comparison operator"));
            }
            let otk = &t[p + 1];
            assert(tv[p + 1] == otk@);
            let op = match &otk.token {
                Token::Eq => CmpOp::Eq,
                Token::NotEq => CmpOp::NotEq,
                Token::Ge => CmpOp::Ge,
                Token::Le => CmpOp::Le,
                Token::Gt => CmpOp::Gt,
                Token::Lt => CmpOp::Lt,
                _ => {
                    return Err(err_with_token("expected comparison operator; got ", otk));
                },
            };
            if p + 2 >= t.len() {
                return Err(
                    err_at_str(t, p + 2, "expected value (int, float, string, or identifier)"),
                );
            }
            let vtk = &t[p + 2];
            assert(tv[p + 2] == vtk@);
            let value = match &vtk.token {
                Token::IntLit(n) => TriggerValue::Int(*n),
                Token::FloatLit(f) => TriggerValue::Float(*f),
                Token::StringLit(s) => TriggerValue::String(clone_string(s)),
                Token::Ident(s) => TriggerValue::String(clone_string(s)),
                _ => {
                    return Err(err_with_token("expected value literal; got ", vtk));
                },
            };
            Ok((TriggerAst::Comparison { ident: clone_string(name), op, value }, p + 3))
        },
        _ => Err(err_with_token("expected identifier, literal, or '('; got ", tk)),
    }
}

/// Parse a trigger expression into an AST.
pub fn parse(input: &str) -> (r: Result<TriggerAst, ParseError>)
    ensures
        parse_result_view(r) == spec_parse(input@),
{
    let tokens = match lex(input) {
        Ok(t) => t,
        Err(e) => {
            return Err(ParseError { message: e.message, line: e.line, column: e.column });
        },
    };
    let ghost tv = toks_view(tokens@);
    let (ast, pos) = match parse_or(&tokens, 0, 0) {
        Ok(x) => x,
        Err(e) => return Err(e),
    };
    if pos < tokens.len() {
        assert(tv[pos as int] == tokens@[pos as int]@);
        return Err(err_with_token("unexpected token after expression: ", &tokens[pos]));
    }
    Ok(ast)
}

} // verus!
