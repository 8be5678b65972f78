//! Tokenizer for trigger expressions.
use super::{LexError, SpecError, SpecTok, SpecToken, Token, TokenWithPos, toks_view};
use crate::decimal::Decimal;
use crate::text::{
    chars_eq_str, chars_to_string, char_to_digit, digit_value, is_ascii_digit, push_range,
    push_str, str_to_chars,
};
use vstd::prelude::*;

verus! {

/// Whether `c` has the Unicode `Alphabetic` property (`char::is_alphabetic`).
pub uninterp spec fn unicode_alphabetic(c: char) -> bool;

/// Whether `c` has a Unicode numeric general category (`char::is_numeric`).
pub uninterp spec fn unicode_numeric(c: char) -> bool;

/// Trusted: wraps `char::is_alphabetic` (std); the result is the Unicode
/// `Alphabetic` property of `c`, named `unicode_alphabetic`. Of ASCII, the
/// property holds of exactly the letters `a`–`z` and `A`–`Z`.
#[verifier::external_body]
fn char_is_alphabetic(c: char) -> (b: bool)
    ensures
        b == unicode_alphabetic(c),
        ('a' <= c <= 'z' || 'A' <= c <= 'Z') ==> b,
        c < '\u{80}' && !('a' <= c <= 'z' || 'A' <= c <= 'Z') ==> !b,
{
    c.is_alphabetic()
}

/// Trusted: wraps `char::is_numeric` (std); the result is whether `c` is in
/// a Unicode numeric category, named `unicode_numeric`. Of ASCII, exactly
/// the digits `0`–`9` are numeric.
#[verifier::external_body]
fn char_is_numeric(c: char) -> (b: bool)
    ensures
        b == unicode_numeric(c),
        '0' <= c <= '9' ==> b,
        c < '\u{80}' && !('0' <= c <= '9') ==> !b,
{
    c.is_numeric()
}

/// First character of an identifier or keyword.
pub open spec fn is_ident_start(c: char) -> bool {
    unicode_alphabetic(c) || c == '_'
}

/// Continuation character of an identifier (`char::is_alphanumeric`, which
/// std documents as alphabetic or numeric, or `_`).
pub open spec fn is_ident_char(c: char) -> bool {
    unicode_alphabetic(c) || unicode_numeric(c) || c == '_'
}

/// End of the identifier run that starts at `p`.
pub open spec fn ident_end(s: Seq<char>, p: int) -> int
    decreases s.len() - p,
{
    if 0 <= p < s.len() && is_ident_char(s[p]) {
        ident_end(s, p + 1)
    } else {
        p
    }
}

/// End of the number run at `p` (digits with at most one `.`), and whether
/// a `.` was taken.
pub open spec fn number_end(s: Seq<char>, p: int, saw_dot: bool) -> (int, bool)
    decreases s.len() - p,
{
    if 0 <= p < s.len() && (is_ascii_digit(s[p]) || s[p] == '.') {
        if s[p] == '.' {
            if saw_dot {
                (p, true)
            } else {
                number_end(s, p + 1, true)
            }
        } else {
            number_end(s, p + 1, saw_dot)
        }
    } else {
        (p, saw_dot)
    }
}

/// The value of the digits of `t`, ignoring a `.`.
pub open spec fn digits_value(t: Seq<char>) -> nat
    decreases t.len(),
{
    if t.len() == 0 {
        0
    } else if t.last() == '.' {
        digits_value(t.drop_last())
    } else {
        digits_value(t.drop_last()) * 10 + digit_value(t.last())
    }
}

/// The number of digits after the `.` of `t` (0 if there is none).
pub open spec fn fraction_len(t: Seq<char>) -> nat
    decreases t.len(),
{
    if t.len() == 0 {
        0
    } else if t.last() == '.' {
        0
    } else if t.drop_last().contains('.') {
        fraction_len(t.drop_last()) + 1
    } else {
        0
    }
}

/// The token a number literal `t` stands for, or the error message.
/// A literal with a `.` is the exact decimal `digits / 10^fraction_len`;
/// one whose digits exceed `i64::MAX`, or whose fraction is longer than
/// `u32::MAX` places, has no exact `Decimal` and is refused as an invalid
/// float literal.
pub open spec fn number_token(t: Seq<char>, saw_dot: bool) -> Result<SpecToken, Seq<char>> {
    if saw_dot {
        if digits_value(t) <= i64::MAX && fraction_len(t) <= u32::MAX {
            Ok(
                SpecToken::FloatLit(
                    Decimal {
                        mantissa: digits_value(t) as i64,
                        scale: fraction_len(t) as u32,
                    },
                ),
            )
        } else {
            Err("invalid float literal '"@ + t + "'"@)
        }
    } else if digits_value(t) <= i64::MAX {
        Ok(SpecToken::IntLit(digits_value(t) as i64))
    } else {
        Err("invalid integer literal '"@ + t + "'"@)
    }
}

/// Keywords are `AND`/`and`, `OR`/`or`, `NOT`/`not`, `true`, `false`,
/// `always`; anything else is an identifier.
pub open spec fn keyword_token(t: Seq<char>) -> SpecToken {
    if t == "AND"@ || t == "and"@ {
        SpecToken::And
    } else if t == "OR"@ || t == "or"@ {
        SpecToken::Or
    } else if t == "NOT"@ || t == "not"@ {
        SpecToken::Not
    } else if t == "true"@ {
        SpecToken::True
    } else if t == "false"@ {
        SpecToken::False
    } else if t == "always"@ {
        SpecToken::Always
    } else {
        SpecToken::Ident(t)
    }
}

/// Scan the body of a quoted string from `p`: (terminated, content,
/// position after the closing quote, line, column). A newline inside the
/// string moves to the next line.
pub open spec fn scan_string(s: Seq<char>, q: char, p: int, line: int, col: int, acc: Seq<char>) -> (
    bool,
    Seq<char>,
    int,
    int,
    int,
)
    decreases s.len() - p,
{
    if 0 <= p < s.len() {
        let c = s[p];
        if c == q {
            (true, acc, p + 1, line, col + 1)
        } else if c == '\n' {
            scan_string(s, q, p + 1, line + 1, 1, acc.push(c))
        } else {
            scan_string(s, q, p + 1, line, col + 1, acc.push(c))
        }
    } else {
        (false, acc, p, line, col)
    }
}

pub open spec fn stok(t: SpecToken, line: int, col: int) -> SpecTok {
    SpecTok { token: t, line, column: col }
}

pub open spec fn serr(m: Seq<char>, line: int, col: int) -> SpecError {
    SpecError { message: m, line, column: col }
}

/// Prefix `a` to a successful token sequence; errors pass through.
pub open spec fn prepend(a: Seq<SpecTok>, r: Result<Seq<SpecTok>, SpecError>) -> Result<
    Seq<SpecTok>,
    SpecError,
> {
    match r {
        Ok(ts) => Ok(a + ts),
        Err(e) => Err(e),
    }
}

/// Tokens of `s` from position `p`, which sits at `line`/`col`.
pub open spec fn lex_from(s: Seq<char>, p: int, line: int, col: int) -> Result<
    Seq<SpecTok>,
    SpecError,
>
    decreases s.len() - p,
{
    if p < 0 || p >= s.len() {
        Ok(Seq::empty())
    } else {
        let c = s[p];
        if c == ' ' || c == '\t' || c == '\r' {
            lex_from(s, p + 1, line, col + 1)
        } else if c == '\n' {
            lex_from(s, p + 1, line + 1, 1)
        } else if c == '(' {
            prepend(seq![stok(SpecToken::LParen, line, col)], lex_from(s, p + 1, line, col + 1))
        } else if c == ')' {
            prepend(seq![stok(SpecToken::RParen, line, col)], lex_from(s, p + 1, line, col + 1))
        } else if c == '=' {
            if p + 1 < s.len() && s[p + 1] == '=' {
                prepend(seq![stok(SpecToken::Eq, line, col)], lex_from(s, p + 2, line, col + 2))
            } else {
                Err(serr("unexpected '='; did you mean '=='?"@, line, col))
            }
        } else if c == '!' {
            if p + 1 < s.len() && s[p + 1] == '=' {
                prepend(seq![stok(SpecToken::NotEq, line, col)], lex_from(s, p + 2, line, col + 2))
            } else {
                Err(serr("unexpected '!'; did you mean '!='?"@, line, col))
            }
        } else if c == '>' {
            if p + 1 < s.len() && s[p + 1] == '=' {
                prepend(seq![stok(SpecToken::Ge, line, col)], lex_from(s, p + 2, line, col + 2))
            } else {
                prepend(seq![stok(SpecToken::Gt, line, col)], lex_from(s, p + 1, line, col + 1))
            }
        } else if c == '<' {
            if p + 1 < s.len() && s[p + 1] == '=' {
                prepend(seq![stok(SpecToken::Le, line, col)], lex_from(s, p + 2, line, col + 2))
            } else {
                prepend(seq![stok(SpecToken::Lt, line, col)], lex_from(s, p + 1, line, col + 1))
            }
        } else if c == '"' || c == '\'' {
            let (term, content, np, nl, nc) = scan_string(s, c, p + 1, line, col + 1, Seq::empty());
            proof {
                lemma_scan_string_pos(s, c, p + 1, line, col + 1, Seq::empty());
            }
            if !term {
                Err(serr("unterminated string literal"@, nl, col))
            } else {
                prepend(seq![stok(SpecToken::StringLit(content), nl, col)], lex_from(s, np, nl, nc))
            }
        } else if is_ascii_digit(c) {
            let (e, saw) = number_end(s, p, false);
            proof {
                lemma_number_end(s, p, false);
            }
            match number_token(s.subrange(p, e), saw) {
                Ok(t) => prepend(seq![stok(t, line, col)], lex_from(s, e, line, col + (e - p))),
                Err(m) => Err(serr(m, line, col)),
            }
        } else if is_ident_start(c) {
            let e = ident_end(s, p);
            proof {
                lemma_ident_end(s, p);
            }
            prepend(
                seq![stok(keyword_token(s.subrange(p, e)), line, col)],
                lex_from(s, e, line, col + (e - p)),
            )
        } else {
            Err(serr("unexpected character '"@ + seq![c] + "'"@, line, col))
        }
    }
}

/// The tokens of `s`, or the first lexical error.
pub open spec fn spec_lex(s: Seq<char>) -> Result<Seq<SpecTok>, SpecError> {
    lex_from(s, 0, 1, 1)
}

pub open spec fn lex_result_view(r: Result<Vec<TokenWithPos>, LexError>) -> Result<
    Seq<SpecTok>,
    SpecError,
> {
    match r {
        Ok(v) => Ok(toks_view(v@)),
        Err(e) => Err(e@),
    }
}

/// The first token of a successful lexing, if any.
pub open spec fn first_token(r: Result<Seq<SpecTok>, SpecError>) -> Option<SpecToken> {
    match r {
        Ok(ts) => if ts.len() > 0 {
            Some(ts[0].token)
        } else {
            None
        },
        Err(_) => None,
    }
}

/// Operators lex by their text, and distinct operator texts give distinct
/// tokens: at a `<` not followed by `=` the token is the strict `Lt`, at
/// `<=` it is `Le`; likewise `>` / `>=` give `Gt` / `Ge`, `==` gives `Eq`,
/// `!=` gives `NotEq`, and `(` / `)` give the parentheses — each at the
/// operator's own line and column.
pub proof fn lemma_lex_operators(s: Seq<char>, p: int, line: int, col: int)
    requires
        0 <= p < s.len(),
        lex_from(s, p, line, col) is Ok,
    ensures
        ({
            let next_eq = p + 1 < s.len() && s[p + 1] == '=';
            let t = first_token(lex_from(s, p, line, col));
            &&& (s[p] == '<' && !next_eq ==> t == Some(SpecToken::Lt))
            &&& (s[p] == '<' && next_eq ==> t == Some(SpecToken::Le))
            &&& (s[p] == '>' && !next_eq ==> t == Some(SpecToken::Gt))
            &&& (s[p] == '>' && next_eq ==> t == Some(SpecToken::Ge))
            &&& (s[p] == '=' ==> next_eq && t == Some(SpecToken::Eq))
            &&& (s[p] == '!' ==> next_eq && t == Some(SpecToken::NotEq))
            &&& (s[p] == '(' ==> t == Some(SpecToken::LParen))
            &&& (s[p] == ')' ==> t == Some(SpecToken::RParen))
        }),
        ({
            let ts = lex_from(s, p, line, col);
            (s[p] == '<' || s[p] == '>' || s[p] == '=' || s[p] == '!' || s[p] == '(' || s[p]
                == ')') ==> (match ts {
                Ok(v) => v.len() > 0 && v[0].line == line && v[0].column == col,
                Err(_) => false,
            })
        }),
{
}

// ─── Facts about the scanners ──────────────────────────────────────────────

pub proof fn lemma_ident_end(s: Seq<char>, p: int)
    requires
        0 <= p <= s.len(),
    ensures
        p <= ident_end(s, p) <= s.len(),
        p < s.len() && is_ident_char(s[p]) ==> p < ident_end(s, p),
    decreases s.len() - p,
{
    if p < s.len() && is_ident_char(s[p]) {
        lemma_ident_end(s, p + 1);
    }
}

pub proof fn lemma_number_end(s: Seq<char>, p: int, saw: bool)
    requires
        0 <= p <= s.len(),
    ensures
        p <= number_end(s, p, saw).0 <= s.len(),
        p < s.len() && is_ascii_digit(s[p]) ==> p < number_end(s, p, saw).0,
    decreases s.len() - p,
{
    if p < s.len() && (is_ascii_digit(s[p]) || s[p] == '.') {
        if s[p] == '.' {
            if !saw {
                lemma_number_end(s, p + 1, true);
            }
        } else {
            lemma_number_end(s, p + 1, saw);
        }
    }
}

pub proof fn lemma_scan_string_pos(s: Seq<char>, q: char, p: int, line: int, col: int, acc: Seq<char>)
    requires
        0 <= p <= s.len(),
    ensures
        ({
            let (term, content, np, nl, nc) = scan_string(s, q, p, line, col, acc);
            &&& p <= np <= s.len()
            &&& term ==> p < np
        }),
    decreases s.len() - p,
{
    if p < s.len() {
        let c = s[p];
        if c != q {
            if c == '\n' {
                lemma_scan_string_pos(s, q, p + 1, line + 1, 1, acc.push(c));
            } else {
                lemma_scan_string_pos(s, q, p + 1, line, col + 1, acc.push(c));
            }
        }
    }
}

proof fn lemma_scan_string(s: Seq<char>, q: char, p: int, line: int, col: int, acc: Seq<char>)
    requires
        0 <= p <= s.len(),
        1 <= line <= p + 1,
        1 <= col <= p + 1,
    ensures
        ({
            let (term, content, np, nl, nc) = scan_string(s, q, p, line, col, acc);
            &&& p <= np <= s.len()
            &&& term ==> p < np
            &&& 1 <= nl <= np + 1
            &&& 1 <= nc <= np + 1
        }),
    decreases s.len() - p,
{
    if p < s.len() {
        let c = s[p];
        if c != q {
            if c == '\n' {
                lemma_scan_string(s, q, p + 1, line + 1, 1, acc.push(c));
            } else {
                lemma_scan_string(s, q, p + 1, line, col + 1, acc.push(c));
            }
        }
    }
}

proof fn lemma_digits_value_mono(t: Seq<char>, c: char)
    ensures
        digits_value(t.push(c)) >= digits_value(t),
{
    assert(t.push(c).drop_last() =~= t);
}

// ─── Executable scanners ───────────────────────────────────────────────────

fn scan_ident(s: &Vec<char>, p: usize) -> (e: usize)
    requires
        p <= s@.len(),
    ensures
        e == ident_end(s@, p as int),
        p <= e <= s@.len(),
{
    let mut i = p;
    while i < s.len() && (char_is_alphabetic(s[i]) || char_is_numeric(s[i]) || s[i] == '_')
        invariant
            p <= i <= s@.len(),
            ident_end(s@, i as int) == ident_end(s@, p as int),
        decreases s@.len() - i,
    {
        i = i + 1;
    }
    i
}

fn scan_number(s: &Vec<char>, p: usize) -> (r: (usize, bool))
    requires
        p <= s@.len(),
    ensures
        (r.0 as int, r.1) == number_end(s@, p as int, false),
        p <= r.0 <= s@.len(),
{
    let mut i = p;
    let mut saw = false;
    while i < s.len() && (('0' <= s[i] && s[i] <= '9') || (s[i] == '.' && !saw))
        invariant
            p <= i <= s@.len(),
            number_end(s@, i as int, saw) == number_end(s@, p as int, false),
        decreases s@.len() - i,
    {
        if s[i] == '.' {
            saw = true;
        }
        i = i + 1;
    }
    (i, saw)
}

/// Convert the number literal `s[p..e]` to its token.
fn number_token_exec(s: &Vec<char>, p: usize, e: usize, saw_dot: bool) -> (r: Result<
    Token,
    Vec<char>,
>)
    requires
        p <= e <= s@.len(),
    ensures
        match r {
            Ok(t) => number_token(s@.subrange(p as int, e as int), saw_dot) == Ok::<
                SpecToken,
                Seq<char>,
            >(t@),
            Err(m) => number_token(s@.subrange(p as int, e as int), saw_dot) == Err::<
                SpecToken,
                Seq<char>,
            >(m@),
        },
{
    let ghost t = s@.subrange(p as int, e as int);
    let mut val: u64 = 0;
    let mut over = false;
    let mut dot = false;
    let mut scale: u64 = 0;
    let mut i = p;
    while i < e
        invariant
            p <= i <= e <= s@.len(),
            t == s@.subrange(p as int, e as int),
            over == (digits_value(t.subrange(0, i - p)) > i64::MAX),
            !over ==> val == digits_value(t.subrange(0, i - p)),
            dot == t.subrange(0, i - p).contains('.'),
            scale == fraction_len(t.subrange(0, i - p)),
            scale <= i - p,
        decreases e - i,
    {
        let ghost pre = t.subrange(0, i - p);
        let c = s[i];
        assert(t.subrange(0, i + 1 - p) =~= pre.push(c));
        assert(pre.push(c).drop_last() =~= pre);
        proof {
            lemma_digits_value_mono(pre, c);
            assert(pre.push(c).contains('.') == (pre.contains('.') || c == '.')) by {
                if c == '.' {
                    assert(pre.push(c)[pre.len() as int] == '.');
                }
                if pre.contains('.') {
                    let k = choose|k: int| 0 <= k < pre.len() && pre[k] == '.';
                    assert(pre.push(c)[k] == '.');
                }
                if pre.push(c).contains('.') && c != '.' {
                    let k = choose|k: int| 0 <= k < pre.push(c).len() && pre.push(c)[k] == '.';
                    assert(pre[k] == '.');
                }
            }
        }
        if c == '.' {
            dot = true;
            scale = 0;
        } else {
            let d = char_to_digit(c);
            if dot {
                scale = scale + 1;
            } else {
                scale = 0;
            }
            if !over {
                if val > (9223372036854775807u64 - d) / 10 {
                    over = true;
                } else {
                    val = val * 10 + d;
                }
            }
        }
        i = i + 1;
    }
    assert(t.subrange(0, e - p) =~= t);
    let mut msg: Vec<char> = Vec::new();
    if saw_dot {
        if !over && scale <= 4294967295u64 {
            return Ok(Token::FloatLit(Decimal { mantissa: val as i64, scale: scale as u32 }));
        }
        push_str(&mut msg, "invalid float literal '");
    } else {
        if !over {
            return Ok(Token::IntLit(val as i64));
        }
        push_str(&mut msg, "invalid integer literal '");
    }
    push_range(&mut msg, s.as_slice(), p, e);
    push_str(&mut msg, "'");
    Err(msg)
}

/// Scan a quoted string whose body starts at `p`.
fn scan_string_exec(s: &Vec<char>, q: char, p: usize, line: usize, col: usize) -> (r: (
    bool,
    Vec<char>,
    usize,
    usize,
    usize,
))
    requires
        p <= s@.len() <= isize::MAX,
        1 <= line <= p + 1,
        1 <= col <= p + 1,
    ensures
        (r.0, r.1@, r.2 as int, r.3 as int, r.4 as int) == scan_string(
            s@,
            q,
            p as int,
            line as int,
            col as int,
            Seq::empty(),
        ),
{
    let mut acc: Vec<char> = Vec::new();
    let mut i = p;
    let mut l = line;
    let mut c = col;
    while i < s.len()
        invariant
            p <= i <= s@.len() <= isize::MAX,
            1 <= l <= i + 1,
            1 <= c <= i + 1,
            scan_string(s@, q, i as int, l as int, c as int, acc@) == scan_string(
                s@,
                q,
                p as int,
                line as int,
                col as int,
                Seq::empty(),
            ),
        decreases s@.len() - i,
    {
        let ch = s[i];
        if ch == q {
            return (true, acc, i + 1, l, c + 1);
        }
        if ch == '\n' {
            l = l + 1;
            c = 1;
        } else {
            c = c + 1;
        }
        acc.push(ch);
        i = i + 1;
    }
    (false, acc, i, l, c)
}

fn keyword_token_exec(w: &Vec<char>) -> (t: Token)
    ensures
        t@ == keyword_token(w@),
{
    if chars_eq_str(w, "AND") || chars_eq_str(w, "and") {
        Token::And
    } else if chars_eq_str(w, "OR") || chars_eq_str(w, "or") {
        Token::Or
    } else if chars_eq_str(w, "NOT") || chars_eq_str(w, "not") {
        Token::Not
    } else if chars_eq_str(w, "true") {
        Token::True
    } else if chars_eq_str(w, "false") {
        Token::False
    } else if chars_eq_str(w, "always") {
        Token::Always
    } else {
        Token::Ident(chars_to_string(w))
    }
}

fn lex_err(m: &Vec<char>, line: usize, column: usize) -> (e: LexError)
    ensures
        e@ == serr(m@, line as int, column as int),
{
    LexError { message: chars_to_string(m), line, column }
}

fn lex_err_str(m: &str, line: usize, column: usize) -> (e: LexError)
    ensures
        e@ == serr(m@, line as int, column as int),
{
    let v = str_to_chars(m);
    lex_err(&v, line, column)
}

proof fn lemma_prepend_assoc(a: Seq<SpecTok>, b: Seq<SpecTok>, r: Result<Seq<SpecTok>, SpecError>)
    ensures
        prepend(a, prepend(b, r)) == prepend(a + b, r),
{
    match r {
        Ok(ts) => {
            assert(a + (b + ts) =~= (a + b) + ts);
        },
        Err(e) => {},
    }
}

/// Tokenize a trigger expression.
pub fn lex(input: &str) -> (r: Result<Vec<TokenWithPos>, LexError>)
    ensures
        lex_result_view(r) == spec_lex(input@),
{
    let s = str_to_chars(input);
    let mut tokens: Vec<TokenWithPos> = Vec::new();
    let mut line: usize = 1;
    let mut col: usize = 1;
    let mut p: usize = 0;
    let n = s.len();
    assert(toks_view(tokens@) =~= Seq::<SpecTok>::empty());
    while p < n
        invariant
            n == s@.len() <= isize::MAX,
            s@ == input@,
            p <= n,
            1 <= line <= p + 1,
            1 <= col <= p + 1,
            spec_lex(s@) == prepend(toks_view(tokens@), lex_from(s@, p as int, line as int, col as int)),
        decreases n - p,
    {
        let ghost sv = s@;
        let ghost pi = p as int;
        let ghost li = line as int;
        let ghost ci = col as int;
        let ghost before = toks_view(tokens@);
        let c = s[p];
        let mut emitted: Option<(Token, usize, usize)> = None;
        // `emitted` is the token produced at this step with its line/column;
        // the position/line/column after it are set below.
        if c == ' ' || c == '\t' || c == '\r' {
            p = p + 1;
            col = col + 1;
        } else if c == '\n' {
            p = p + 1;
            line = line + 1;
            col = 1;
        } else if c == '(' {
            emitted = Some((Token::LParen, line, col));
            p = p + 1;
            col = col + 1;
        } else if c == ')' {
            emitted = Some((Token::RParen, line, col));
            p = p + 1;
            col = col + 1;
        } else if c == '=' || c == '!' {
            if p + 1 < n && s[p + 1] == '=' {
                emitted = Some((if c == '=' { Token::Eq } else { Token::NotEq }, line, col));
                p = p + 2;
                col = col + 2;
            } else if c == '=' {
                return Err(lex_err_str("unexpected '='; did you mean '=='?", line, col));
            } else {
                return Err(lex_err_str("unexpected '!'; did you mean '!='?", line, col));
            }
        } else if c == '>' || c == '<' {
            if p + 1 < n && s[p + 1] == '=' {
                emitted = Some((if c == '>' { Token::Ge } else { Token::Le }, line, col));
                p = p + 2;
                col = col + 2;
            } else {
                emitted = Some((if c == '>' { Token::Gt } else { Token::Lt }, line, col));
                p = p + 1;
                col = col + 1;
            }
        } else if c == '"' || c == '\'' {
            proof {
                lemma_scan_string(sv, c, pi + 1, li, ci + 1, Seq::empty());
            }
            let (term, content, np, nl, nc) = scan_string_exec(&s, c, p + 1, line, col + 1);
            if !term {
                return Err(lex_err_str("unterminated string literal", nl, col));
            }
            emitted = Some((Token::StringLit(chars_to_string(&content)), nl, col));
            p = np;
            line = nl;
            col = nc;
        } else if '0' <= c && c <= '9' {
            proof {
                lemma_number_end(sv, pi, false);
            }
            let (e, saw) = scan_number(&s, p);
            match number_token_exec(&s, p, e, saw) {
                Ok(t) => {
                    emitted = Some((t, line, col));
                    col = col + (e - p);
                    p = e;
                },
                Err(m) => {
                    return Err(lex_err(&m, line, col));
                },
            }
        } else if char_is_alphabetic(c) || c == '_' {
            let e = scan_ident(&s, p);
            proof {
                lemma_ident_end(sv, pi);
            }
            let mut w: Vec<char> = Vec::new();
            push_range(&mut w, s.as_slice(), p, e);
            assert(w@ =~= s@.subrange(p as int, e as int));
            let t = keyword_token_exec(&w);
            emitted = Some((t, line, col));
            col = col + (e - p);
            p = e;
        } else {
            let mut m: Vec<char> = Vec::new();
            push_str(&mut m, "unexpected character '");
            m.push(c);
            push_str(&mut m, "'");
            proof {
                assert(m@ =~= "unexpected character '"@ + seq![c] + "'"@);
            }
            return Err(lex_err(&m, line, col));
        }
        match emitted {
            Some((t, tl, tc)) => {
                let ghost tv = stok(t@, tl as int, tc as int);
                tokens.push(TokenWithPos { token: t, line: tl, column: tc });
                proof {
                    assert(toks_view(tokens@) =~= before + seq![tv]);
                    lemma_prepend_assoc(before, seq![tv], lex_from(sv, p as int, line as int, col as int));
                }
            },
            None => {},
        }
    }
    Ok(tokens)
}

} // verus!
