//! Evaluation of a parsed trigger against a context.
use super::{CmpOp, SpecAst, SpecContext, SpecValue, TriggerAst, TriggerContext, TriggerValue};
use crate::decimal::{
    cross_left, dec_eq, dec_lt, decimal_order, lemma_pow10_mono, pow10, pow10_exec, Decimal, Order,
};
use crate::text::str_eq;
use vstd::prelude::*;

verus! {

/// `lhs op rhs` on integers.
pub open spec fn i64_holds(lhs: i64, rhs: i64, op: CmpOp) -> bool {
    match op {
        CmpOp::Eq => lhs == rhs,
        CmpOp::NotEq => lhs != rhs,
        CmpOp::Ge => lhs >= rhs,
        CmpOp::Le => lhs <= rhs,
        CmpOp::Gt => lhs > rhs,
        CmpOp::Lt => lhs < rhs,
    }
}

/// `a op b` on decimals, compared as rational numbers.
pub open spec fn dec_holds(a: Decimal, b: Decimal, op: CmpOp) -> bool {
    let l = cross_left(a, b);
    let r = cross_left(b, a);
    match op {
        CmpOp::Eq => l == r,
        CmpOp::NotEq => l != r,
        CmpOp::Ge => l >= r,
        CmpOp::Le => l <= r,
        CmpOp::Gt => l > r,
        CmpOp::Lt => l < r,
    }
}

/// A decimal truncated toward zero (`2.7` → 2, `-2.7` → -2).
pub open spec fn dec_trunc(d: Decimal) -> i64 {
    if d.mantissa >= 0 {
        ((d.mantissa as nat) / pow10(d.scale as nat)) as i64
    } else {
        (-(((-d.mantissa) as nat) / pow10(d.scale as nat))) as i64
    }
}

/// One comparison. `tier`/`passes` compare as integers (a decimal
/// right-hand side is truncated toward zero); `confidence`/`cost` compare as
/// decimals; `layer`/`change_scope` compare as strings with `==`/`!=` only.
/// Every other combination is false.
pub open spec fn eval_comparison(id: Seq<char>, op: CmpOp, v: SpecValue, ctx: SpecContext) -> bool {
    if id == "tier"@ || id == "passes"@ {
        let lhs: i64 = if id == "tier"@ {
            ctx.tier as i64
        } else {
            ctx.passes as i64
        };
        match v {
            SpecValue::Int(n) => i64_holds(lhs, n, op),
            SpecValue::Float(f) => i64_holds(lhs, dec_trunc(f), op),
            SpecValue::Str(_) => false,
        }
    } else if id == "confidence"@ || id == "cost"@ {
        let lhs = if id == "confidence"@ {
            ctx.confidence
        } else {
            ctx.cost
        };
        match v {
            SpecValue::Float(f) => dec_holds(lhs, f, op),
            SpecValue::Int(n) => dec_holds(lhs, Decimal { mantissa: n, scale: 0 }, op),
            SpecValue::Str(_) => false,
        }
    } else if id == "layer"@ || id == "change_scope"@ {
        let lhs = if id == "layer"@ {
            ctx.layer
        } else {
            ctx.change_scope
        };
        match v {
            SpecValue::Str(s) => match op {
                CmpOp::Eq => lhs == s,
                CmpOp::NotEq => lhs != s,
                _ => false,
            },
            _ => false,
        }
    } else {
        false
    }
}

/// The truth value of an expression in a context.
pub open spec fn eval(a: SpecAst, ctx: SpecContext) -> bool
    decreases a,
{
    match a {
        SpecAst::Literal(b) => b,
        SpecAst::Not(i) => !eval(*i, ctx),
        SpecAst::And(l, r) => eval(*l, ctx) && eval(*r, ctx),
        SpecAst::Or(l, r) => eval(*l, ctx) || eval(*r, ctx),
        SpecAst::Comparison(id, op, v) => eval_comparison(id, op, v, ctx),
    }
}

/// `lhs op rhs` on integers.
pub fn cmp_num(lhs: i64, rhs: i64, op: CmpOp) -> (r: bool)
    ensures
        r == i64_holds(lhs, rhs, op),
{
    match op {
        CmpOp::Eq => lhs == rhs,
        CmpOp::NotEq => lhs != rhs,
        CmpOp::Ge => lhs >= rhs,
        CmpOp::Le => lhs <= rhs,
        CmpOp::Gt => lhs > rhs,
        CmpOp::Lt => lhs < rhs,
    }
}

fn decimal_holds(a: &Decimal, b: &Decimal, op: CmpOp) -> (r: bool)
    ensures
        r == dec_holds(*a, *b, op),
{
    let o = decimal_order(a, b);
    match op {
        CmpOp::Eq => o == Order::Equal,
        CmpOp::NotEq => o != Order::Equal,
        CmpOp::Ge => o != Order::Less,
        CmpOp::Le => o != Order::Greater,
        CmpOp::Gt => o == Order::Greater,
        CmpOp::Lt => o == Order::Less,
    }
}

fn decimal_trunc(d: &Decimal) -> (r: i64)
    ensures
        r == dec_trunc(*d),
{
    let neg = d.mantissa < 0;
    let m: u64 = if neg {
        if d.mantissa == i64::MIN {
            9223372036854775808u64
        } else {
            (-d.mantissa) as u64
        }
    } else {
        d.mantissa as u64
    };
    let q: u64 = if d.scale >= 19 {
        proof {
            lemma_pow10_mono(19, d.scale as nat);
            reveal_with_fuel(pow10, 20);
            assert((m as nat) / pow10(d.scale as nat) == 0) by (nonlinear_arith)
                requires
                    m <= 9223372036854775808,
                    pow10(d.scale as nat) >= 10000000000000000000,
            ;
        }
        0
    } else {
        let p = pow10_exec(d.scale);
        proof {
            crate::decimal::lemma_pow10_pos(d.scale as nat);
        }
        m / p
    };
    proof {
        assert(q <= m) by (nonlinear_arith)
            requires
                q == (m as nat) / pow10(d.scale as nat),
                pow10(d.scale as nat) >= 1,
        ;
    }
    if neg {
        if q == 9223372036854775808u64 {
            i64::MIN
        } else {
            -(q as i64)
        }
    } else {
        q as i64
    }
}

fn str_holds(lhs: &String, rhs: &String, op: CmpOp) -> (r: bool)
    ensures
        r == match op {
            CmpOp::Eq => lhs@ == rhs@,
            CmpOp::NotEq => lhs@ != rhs@,
            _ => false,
        },
{
    match op {
        CmpOp::Eq => str_eq(lhs.as_str(), rhs.as_str()),
        CmpOp::NotEq => !str_eq(lhs.as_str(), rhs.as_str()),
        _ => false,
    }
}

/// `ctx.tier` when `tier` holds, else `ctx.passes`, widened.
fn integer_fact(ctx: &TriggerContext, tier: bool) -> (r: i64)
    ensures
        r == (if tier {
            ctx.tier as i64
        } else {
            ctx.passes as i64
        }),
{
    if tier {
        ctx.tier as i64
    } else {
        ctx.passes as i64
    }
}

fn eval_comparison_exec(ident: &String, op: CmpOp, value: &TriggerValue, ctx: &TriggerContext) -> (r:
    bool)
    ensures
        r == eval_comparison(ident@, op, value@, ctx@),
{
    let id = ident.as_str();
    if str_eq(id, "tier") || str_eq(id, "passes") {
        let lhs: i64 = integer_fact(ctx, str_eq(id, "tier"));
        match value {
            TriggerValue::Int(n) => cmp_num(lhs, *n, op),
            TriggerValue::Float(f) => {
                let t = decimal_trunc(f);
                cmp_num(lhs, t, op)
            },
            TriggerValue::String(_) => false,
        }
    } else if str_eq(id, "confidence") || str_eq(id, "cost") {
        let lhs = if str_eq(id, "confidence") {
            ctx.confidence
        } else {
            ctx.cost
        };
        match value {
            TriggerValue::Float(f) => decimal_holds(&lhs, f, op),
            TriggerValue::Int(n) => decimal_holds(&lhs, &Decimal { mantissa: *n, scale: 0 }, op),
            TriggerValue::String(_) => false,
        }
    } else if str_eq(id, "layer") || str_eq(id, "change_scope") {
        let lhs = if str_eq(id, "layer") {
            &ctx.layer
        } else {
            &ctx.change_scope
        };
        match value {
            TriggerValue::String(s) => str_holds(lhs, s, op),
            _ => false,
        }
    } else {
        false
    }
}

/// Evaluate a parsed trigger AST against a context.
pub fn evaluate_ast(ast: &TriggerAst, ctx: &TriggerContext) -> (r: bool)
    ensures
        r == eval(ast@, ctx@),
    decreases ast,
{
    match ast {
        TriggerAst::Literal(b) => *b,
        TriggerAst::Not(inner) => !evaluate_ast(&**inner, ctx),
        TriggerAst::And(a, b) => evaluate_ast(&**a, ctx) && evaluate_ast(&**b, ctx),
        TriggerAst::Or(a, b) => evaluate_ast(&**a, ctx) || evaluate_ast(&**b, ctx),
        TriggerAst::Comparison { ident, op, value } => eval_comparison_exec(ident, *op, value, ctx),
    }
}

/// What a comparison means. `tier` and `passes` against an integer `n`
/// compare the context's count with `n` as integers; `confidence` and
/// `cost` against a decimal `f` compare as rational numbers; `layer` and
/// `change_scope` against a string are equal or not; and each of the six
/// operators means its own relation (`>` is strict, `>=` is not).
pub proof fn lemma_comparison_meaning(ctx: SpecContext, n: i64, f: Decimal, t: Seq<char>)
    ensures
        eval(SpecAst::Comparison("tier"@, CmpOp::Gt, SpecValue::Int(n)), ctx) == (ctx.tier > n),
        eval(SpecAst::Comparison("tier"@, CmpOp::Lt, SpecValue::Int(n)), ctx) == (ctx.tier < n),
        eval(SpecAst::Comparison("tier"@, CmpOp::Ge, SpecValue::Int(n)), ctx) == (ctx.tier >= n),
        eval(SpecAst::Comparison("tier"@, CmpOp::Le, SpecValue::Int(n)), ctx) == (ctx.tier <= n),
        eval(SpecAst::Comparison("tier"@, CmpOp::Eq, SpecValue::Int(n)), ctx) == (ctx.tier == n),
        eval(SpecAst::Comparison("tier"@, CmpOp::NotEq, SpecValue::Int(n)), ctx) == (ctx.tier != n),
        eval(SpecAst::Comparison("passes"@, CmpOp::Gt, SpecValue::Int(n)), ctx) == (ctx.passes > n),
        eval(SpecAst::Comparison("passes"@, CmpOp::Lt, SpecValue::Int(n)), ctx) == (ctx.passes < n),
        eval(SpecAst::Comparison("passes"@, CmpOp::Ge, SpecValue::Int(n)), ctx) == (ctx.passes
            >= n),
        eval(SpecAst::Comparison("passes"@, CmpOp::Le, SpecValue::Int(n)), ctx) == (ctx.passes
            <= n),
        eval(SpecAst::Comparison("passes"@, CmpOp::Eq, SpecValue::Int(n)), ctx) == (ctx.passes
            == n),
        eval(SpecAst::Comparison("passes"@, CmpOp::NotEq, SpecValue::Int(n)), ctx) == (ctx.passes
            != n),
        eval(SpecAst::Comparison("confidence"@, CmpOp::Gt, SpecValue::Float(f)), ctx) == dec_lt(
            f,
            ctx.confidence,
        ),
        eval(SpecAst::Comparison("confidence"@, CmpOp::Lt, SpecValue::Float(f)), ctx) == dec_lt(
            ctx.confidence,
            f,
        ),
        eval(SpecAst::Comparison("confidence"@, CmpOp::Ge, SpecValue::Float(f)), ctx) == !dec_lt(
            ctx.confidence,
            f,
        ),
        eval(SpecAst::Comparison("confidence"@, CmpOp::Le, SpecValue::Float(f)), ctx) == !dec_lt(
            f,
            ctx.confidence,
        ),
        eval(SpecAst::Comparison("confidence"@, CmpOp::Eq, SpecValue::Float(f)), ctx) == dec_eq(
            ctx.confidence,
            f,
        ),
        eval(SpecAst::Comparison("confidence"@, CmpOp::NotEq, SpecValue::Float(f)), ctx)
            == !dec_eq(ctx.confidence, f),
        eval(SpecAst::Comparison("cost"@, CmpOp::Gt, SpecValue::Float(f)), ctx) == dec_lt(
            f,
            ctx.cost,
        ),
        eval(SpecAst::Comparison("cost"@, CmpOp::Lt, SpecValue::Float(f)), ctx) == dec_lt(
            ctx.cost,
            f,
        ),
        eval(SpecAst::Comparison("cost"@, CmpOp::Ge, SpecValue::Float(f)), ctx) == !dec_lt(
            ctx.cost,
            f,
        ),
        eval(SpecAst::Comparison("cost"@, CmpOp::Le, SpecValue::Float(f)), ctx) == !dec_lt(
            f,
            ctx.cost,
        ),
        eval(SpecAst::Comparison("cost"@, CmpOp::Eq, SpecValue::Float(f)), ctx) == dec_eq(
            ctx.cost,
            f,
        ),
        eval(SpecAst::Comparison("cost"@, CmpOp::NotEq, SpecValue::Float(f)), ctx) == !dec_eq(
            ctx.cost,
            f,
        ),
        eval(SpecAst::Comparison("layer"@, CmpOp::Eq, SpecValue::Str(t)), ctx) == (ctx.layer
            == t),
        eval(SpecAst::Comparison("layer"@, CmpOp::NotEq, SpecValue::Str(t)), ctx) == (ctx.layer
            != t),
        eval(SpecAst::Comparison("layer"@, CmpOp::Gt, SpecValue::Str(t)), ctx) == false,
        eval(SpecAst::Comparison("change_scope"@, CmpOp::Eq, SpecValue::Str(t)), ctx) == (
        ctx.change_scope == t),
        eval(SpecAst::Comparison("change_scope"@, CmpOp::NotEq, SpecValue::Str(t)), ctx) == (
        ctx.change_scope != t),
        eval(SpecAst::Comparison("tier"@, CmpOp::Eq, SpecValue::Str(t)), ctx) == false,
{
    reveal_strlit("tier");
    reveal_strlit("passes");
    reveal_strlit("confidence");
    reveal_strlit("cost");
    reveal_strlit("layer");
    reveal_strlit("change_scope");
    assert("passes"@ != "tier"@) by {
        assert("passes"@.len() != "tier"@.len());
    }
    assert("cost"@ != "confidence"@) by {
        assert("cost"@.len() != "confidence"@.len());
    }
    assert("confidence"@ != "tier"@ && "confidence"@ != "passes"@) by {
        assert("confidence"@.len() == 10);
    }
    assert("cost"@ != "tier"@) by {
        assert("cost"@[0] != "tier"@[0]);
    }
    assert("cost"@ != "passes"@) by {
        assert("cost"@.len() == 4);
    }
    assert("layer"@ != "tier"@ && "layer"@ != "passes"@ && "layer"@ != "confidence"@
        && "layer"@ != "cost"@) by {
        assert("layer"@.len() == 5);
        assert("layer"@[0] != "passes"@[0]);
    }
    assert("change_scope"@ != "tier"@ && "change_scope"@ != "passes"@ && "change_scope"@
        != "confidence"@ && "change_scope"@ != "cost"@ && "change_scope"@ != "layer"@) by {
        assert("change_scope"@.len() == 12);
    }
}

/// The connectives mean what they say: `AND` holds when both sides hold,
/// `OR` when either does, `NOT` when its operand does not, and a literal is
/// its own value.
pub proof fn lemma_connectives(a: SpecAst, b: SpecAst, x: bool, ctx: SpecContext)
    ensures
        eval(SpecAst::And(Box::new(a), Box::new(b)), ctx) == (eval(a, ctx) && eval(b, ctx)),
        eval(SpecAst::Or(Box::new(a), Box::new(b)), ctx) == (eval(a, ctx) || eval(b, ctx)),
        eval(SpecAst::Not(Box::new(a)), ctx) == !eval(a, ctx),
        eval(SpecAst::Literal(x), ctx) == x,
{
}

} // verus!
