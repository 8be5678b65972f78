//! Trigger expression grammar — lexer, recursive-descent parser, evaluator.
//!
//! ```text
//! or_expr    := and_expr ('OR' and_expr)*
//! and_expr   := not_expr ('AND' not_expr)*
//! not_expr   := 'NOT' not_expr | primary
//! primary    := comparison | '(' or_expr ')' | literal
//! comparison := identifier CMP_OP value
//! CMP_OP     := '==' | '!=' | '>=' | '<=' | '>' | '<'
//! literal    := 'true' | 'false' | 'always'
//! identifier := 'tier' | 'layer' | 'confidence' | 'cost' | 'passes' | 'change_scope'
//! value      := integer | decimal | string
//! ```
//!
//! Precedence: `NOT` > `AND` > `OR`; parentheses override.
pub mod eval;
pub mod lex;
pub mod parse;

pub use self::eval::{cmp_num, evaluate_ast};
pub use self::lex::lex;
pub use self::parse::parse;

use crate::decimal::{dec_eq, decimal_order, lemma_dec_eq_trans, Decimal, Order};
use vstd::prelude::*;

verus! {

/// Comparison operators.
#[derive(Clone, Copy, Debug, PartialEq, Eq, Structural)]
pub enum CmpOp {
    Eq,
    NotEq,
    Ge,
    Le,
    Gt,
    Lt,
}

/// Right-hand side of a comparison.
#[derive(Clone, Debug)]
pub enum TriggerValue {
    Int(i64),
    Float(Decimal),
    String(String),
}

/// Parsed trigger expression.
#[derive(Debug)]
pub enum TriggerAst {
    And(Box<TriggerAst>, Box<TriggerAst>),
    Or(Box<TriggerAst>, Box<TriggerAst>),
    Not(Box<TriggerAst>),
    Comparison { ident: String, op: CmpOp, value: TriggerValue },
    Literal(bool),
}

/// The facts a trigger is evaluated against.
#[derive(Clone, Debug, PartialEq)]
pub struct TriggerContext {
    pub tier: u8,
    pub layer: String,
    pub confidence: Decimal,
    pub cost: Decimal,
    pub passes: u32,
    pub change_scope: String,
}

/// Lexical tokens.
#[derive(Clone, Debug, PartialEq)]
pub enum Token {
    And,
    Or,
    Not,
    LParen,
    RParen,
    Eq,
    NotEq,
    Ge,
    Le,
    Gt,
    Lt,
    Ident(String),
    IntLit(i64),
    FloatLit(Decimal),
    StringLit(String),
    True,
    False,
    Always,
}

/// A token with the 1-based line and column where it starts.
#[derive(Clone, Debug, PartialEq)]
pub struct TokenWithPos {
    pub token: Token,
    pub line: usize,
    pub column: usize,
}

/// Tokenizer failure with its position.
#[derive(Clone, Debug, PartialEq)]
pub struct LexError {
    pub message: String,
    pub line: usize,
    pub column: usize,
}

/// Parser failure with its position.
#[derive(Clone, Debug, PartialEq)]
pub struct ParseError {
    pub message: String,
    pub line: usize,
    pub column: usize,
}

// ─── Mathematical views ────────────────────────────────────────────────────

pub enum SpecToken {
    And,
    Or,
    Not,
    LParen,
    RParen,
    Eq,
    NotEq,
    Ge,
    Le,
    Gt,
    Lt,
    Ident(Seq<char>),
    IntLit(i64),
    FloatLit(Decimal),
    StringLit(Seq<char>),
    True,
    False,
    Always,
}

pub struct SpecTok {
    pub token: SpecToken,
    pub line: int,
    pub column: int,
}

/// A positioned error message (lexer and parser errors share this view).
pub struct SpecError {
    pub message: Seq<char>,
    pub line: int,
    pub column: int,
}

pub enum SpecValue {
    Int(i64),
    Float(Decimal),
    Str(Seq<char>),
}

pub enum SpecAst {
    And(Box<SpecAst>, Box<SpecAst>),
    Or(Box<SpecAst>, Box<SpecAst>),
    Not(Box<SpecAst>),
    Comparison(Seq<char>, CmpOp, SpecValue),
    Literal(bool),
}

pub struct SpecContext {
    pub tier: u8,
    pub layer: Seq<char>,
    pub confidence: Decimal,
    pub cost: Decimal,
    pub passes: u32,
    pub change_scope: Seq<char>,
}

impl View for Token {
    type V = SpecToken;

    open spec fn view(&self) -> SpecToken {
        match self {
            Token::And => SpecToken::And,
            Token::Or => SpecToken::Or,
            Token::Not => SpecToken::Not,
            Token::LParen => SpecToken::LParen,
            Token::RParen => SpecToken::RParen,
            Token::Eq => SpecToken::Eq,
            Token::NotEq => SpecToken::NotEq,
            Token::Ge => SpecToken::Ge,
            Token::Le => SpecToken::Le,
            Token::Gt => SpecToken::Gt,
            Token::Lt => SpecToken::Lt,
            Token::Ident(s) => SpecToken::Ident(s@),
            Token::IntLit(n) => SpecToken::IntLit(*n),
            Token::FloatLit(d) => SpecToken::FloatLit(*d),
            Token::StringLit(s) => SpecToken::StringLit(s@),
            Token::True => SpecToken::True,
            Token::False => SpecToken::False,
            Token::Always => SpecToken::Always,
        }
    }
}

impl View for TokenWithPos {
    type V = SpecTok;

    open spec fn view(&self) -> SpecTok {
        SpecTok { token: self.token@, line: self.line as int, column: self.column as int }
    }
}

impl View for LexError {
    type V = SpecError;

    open spec fn view(&self) -> SpecError {
        SpecError { message: self.message@, line: self.line as int, column: self.column as int }
    }
}

impl View for ParseError {
    type V = SpecError;

    open spec fn view(&self) -> SpecError {
        SpecError { message: self.message@, line: self.line as int, column: self.column as int }
    }
}

impl View for TriggerValue {
    type V = SpecValue;

    open spec fn view(&self) -> SpecValue {
        match self {
            TriggerValue::Int(n) => SpecValue::Int(*n),
            TriggerValue::Float(d) => SpecValue::Float(*d),
            TriggerValue::String(s) => SpecValue::Str(s@),
        }
    }
}

pub open spec fn ast_view(a: TriggerAst) -> SpecAst
    decreases a,
{
    match a {
        TriggerAst::And(l, r) => SpecAst::And(Box::new(ast_view(*l)), Box::new(ast_view(*r))),
        TriggerAst::Or(l, r) => SpecAst::Or(Box::new(ast_view(*l)), Box::new(ast_view(*r))),
        TriggerAst::Not(i) => SpecAst::Not(Box::new(ast_view(*i))),
        TriggerAst::Comparison { ident, op, value } => SpecAst::Comparison(ident@, op, value@),
        TriggerAst::Literal(b) => SpecAst::Literal(b),
    }
}

impl View for TriggerAst {
    type V = SpecAst;

    open spec fn view(&self) -> SpecAst {
        ast_view(*self)
    }
}

impl View for TriggerContext {
    type V = SpecContext;

    open spec fn view(&self) -> SpecContext {
        SpecContext {
            tier: self.tier,
            layer: self.layer@,
            confidence: self.confidence,
            cost: self.cost,
            passes: self.passes,
            change_scope: self.change_scope@,
        }
    }
}

/// Equality of values: decimals compare by value (`0.95` equals `0.950`),
/// strings by their characters.
pub open spec fn value_equiv(a: SpecValue, b: SpecValue) -> bool {
    match (a, b) {
        (SpecValue::Int(x), SpecValue::Int(y)) => x == y,
        (SpecValue::Float(x), SpecValue::Float(y)) => dec_eq(x, y),
        (SpecValue::Str(x), SpecValue::Str(y)) => x == y,
        _ => false,
    }
}

/// Structural equality of expressions, with values compared by
/// `value_equiv`.
pub open spec fn ast_equiv(a: SpecAst, b: SpecAst) -> bool
    decreases a,
{
    match a {
        SpecAst::And(l, r) => match b {
            SpecAst::And(l2, r2) => ast_equiv(*l, *l2) && ast_equiv(*r, *r2),
            _ => false,
        },
        SpecAst::Or(l, r) => match b {
            SpecAst::Or(l2, r2) => ast_equiv(*l, *l2) && ast_equiv(*r, *r2),
            _ => false,
        },
        SpecAst::Not(i) => match b {
            SpecAst::Not(i2) => ast_equiv(*i, *i2),
            _ => false,
        },
        SpecAst::Comparison(id, op, v) => match b {
            SpecAst::Comparison(id2, op2, v2) => id == id2 && op == op2 && value_equiv(v, v2),
            _ => false,
        },
        SpecAst::Literal(x) => match b {
            SpecAst::Literal(y) => x == y,
            _ => false,
        },
    }
}

pub fn value_equivalent(a: &TriggerValue, b: &TriggerValue) -> (r: bool)
    ensures
        r == value_equiv(a@, b@),
{
    match (a, b) {
        (TriggerValue::Int(x), TriggerValue::Int(y)) => *x == *y,
        (TriggerValue::Float(x), TriggerValue::Float(y)) => {
            let o = decimal_order(x, y);
            match o {
                Order::Equal => true,
                _ => false,
            }
        },
        (TriggerValue::String(x), TriggerValue::String(y)) => crate::text::str_eq(x.as_str(), y.as_str()),
        _ => false,
    }
}

/// Whether two expressions are the same expression (`ast_equiv`).
pub fn ast_equivalent(a: &TriggerAst, b: &TriggerAst) -> (r: bool)
    ensures
        r == ast_equiv(a@, b@),
    decreases a,
{
    match (a, b) {
        (TriggerAst::And(l, r), TriggerAst::And(l2, r2)) => ast_equivalent(&**l, &**l2)
            && ast_equivalent(&**r, &**r2),
        (TriggerAst::Or(l, r), TriggerAst::Or(l2, r2)) => ast_equivalent(&**l, &**l2)
            && ast_equivalent(&**r, &**r2),
        (TriggerAst::Not(i), TriggerAst::Not(i2)) => ast_equivalent(&**i, &**i2),
        (
            TriggerAst::Comparison { ident, op, value },
            TriggerAst::Comparison { ident: ident2, op: op2, value: value2 },
        ) => crate::text::str_eq(ident.as_str(), ident2.as_str()) && *op == *op2
            && value_equivalent(value, value2),
        (TriggerAst::Literal(x), TriggerAst::Literal(y)) => *x == *y,
        _ => false,
    }
}

impl PartialEq for TriggerValue {
    fn eq(&self, other: &Self) -> (r: bool) {
        value_equivalent(self, other)
    }
}

impl vstd::std_specs::cmp::PartialEqSpecImpl for TriggerValue {
    open spec fn obeys_eq_spec() -> bool {
        true
    }

    open spec fn eq_spec(&self, other: &TriggerValue) -> bool {
        value_equiv(self@, other@)
    }
}

impl PartialEq for TriggerAst {
    fn eq(&self, other: &Self) -> (r: bool) {
        ast_equivalent(self, other)
    }
}

impl vstd::std_specs::cmp::PartialEqSpecImpl for TriggerAst {
    open spec fn obeys_eq_spec() -> bool {
        true
    }

    open spec fn eq_spec(&self, other: &TriggerAst) -> bool {
        ast_equiv(self@, other@)
    }
}

/// The views of a token vector.
pub open spec fn toks_view(v: Seq<TokenWithPos>) -> Seq<SpecTok> {
    v.map_values(|t: TokenWithPos| t@)
}

/// Every expression is equivalent to itself.
pub proof fn lemma_ast_equiv_refl(a: SpecAst)
    ensures
        ast_equiv(a, a),
    decreases a,
{
    match a {
        SpecAst::And(l, r) => {
            lemma_ast_equiv_refl(*l);
            lemma_ast_equiv_refl(*r);
        },
        SpecAst::Or(l, r) => {
            lemma_ast_equiv_refl(*l);
            lemma_ast_equiv_refl(*r);
        },
        SpecAst::Not(i) => {
            lemma_ast_equiv_refl(*i);
        },
        _ => {},
    }
}

/// Equivalence of expressions does not depend on the order of the two.
pub proof fn lemma_ast_equiv_symm(a: SpecAst, b: SpecAst)
    requires
        ast_equiv(a, b),
    ensures
        ast_equiv(b, a),
    decreases a,
{
    match a {
        SpecAst::And(l, r) => match b {
            SpecAst::And(l2, r2) => {
                lemma_ast_equiv_symm(*l, *l2);
                lemma_ast_equiv_symm(*r, *r2);
            },
            _ => {},
        },
        SpecAst::Or(l, r) => match b {
            SpecAst::Or(l2, r2) => {
                lemma_ast_equiv_symm(*l, *l2);
                lemma_ast_equiv_symm(*r, *r2);
            },
            _ => {},
        },
        SpecAst::Not(i) => match b {
            SpecAst::Not(i2) => {
                lemma_ast_equiv_symm(*i, *i2);
            },
            _ => {},
        },
        _ => {},
    }
}

/// Equivalence of expressions is transitive.
pub proof fn lemma_ast_equiv_trans(a: SpecAst, b: SpecAst, c: SpecAst)
    requires
        ast_equiv(a, b),
        ast_equiv(b, c),
    ensures
        ast_equiv(a, c),
    decreases a,
{
    match (a, b, c) {
        (SpecAst::And(l, r), SpecAst::And(l2, r2), SpecAst::And(l3, r3)) => {
            lemma_ast_equiv_trans(*l, *l2, *l3);
            lemma_ast_equiv_trans(*r, *r2, *r3);
        },
        (SpecAst::Or(l, r), SpecAst::Or(l2, r2), SpecAst::Or(l3, r3)) => {
            lemma_ast_equiv_trans(*l, *l2, *l3);
            lemma_ast_equiv_trans(*r, *r2, *r3);
        },
        (SpecAst::Not(i), SpecAst::Not(i2), SpecAst::Not(i3)) => {
            lemma_ast_equiv_trans(*i, *i2, *i3);
        },
        (SpecAst::Comparison(_, _, v), SpecAst::Comparison(_, _, v2), SpecAst::Comparison(_, _, v3)) => {
            match (v, v2, v3) {
                (SpecValue::Float(x), SpecValue::Float(y), SpecValue::Float(z)) => {
                    lemma_dec_eq_trans(x, y, z);
                },
                _ => {},
            }
        },
        _ => {},
    }
}

} // verus!
