use pice_core::decimal::Decimal;
use pice_core::workflow::trigger::{
    evaluate_ast, lex, parse, CmpOp, Token, TriggerAst, TriggerContext, TriggerValue,
};

fn ctx() -> TriggerContext {
    TriggerContext {
        tier: 2,
        layer: "frontend".into(),
        confidence: Decimal { mantissa: 90, scale: 2 },
        cost: Decimal { mantissa: 15, scale: 1 },
        passes: 3,
        change_scope: "mixed".into(),
    }
}

fn as_f64(d: Decimal) -> f64 {
    d.mantissa as f64 / 10f64.powi(d.scale as i32)
}

// ── Lexer ────────────────────────────────────────────────────────────

#[test]
fn lex_simple_comparison() {
    let toks = lex("tier >= 3").unwrap();
    let kinds: Vec<Token> = toks.iter().map(|t| t.token.clone()).collect();
    assert_eq!(kinds, vec![Token::Ident("tier".into()), Token::Ge, Token::IntLit(3),]);
}

#[test]
fn lex_tracks_line_and_column() {
    let toks = lex("tier\n>= 3").unwrap();
    assert_eq!(toks[0].line, 1);
    assert_eq!(toks[0].column, 1);
    assert_eq!(toks[1].line, 2);
    assert_eq!(toks[1].column, 1);
}

#[test]
fn lex_unknown_char_errors_with_position() {
    let err = lex("tier $ 3").unwrap_err();
    assert_eq!(err.line, 1);
    assert_eq!(err.column, 6);
    assert!(err.message.contains("$"));
}

#[test]
fn lex_single_equals_errors() {
    let err = lex("tier = 3").unwrap_err();
    assert!(err.message.contains("=="));
}

#[test]
fn lex_single_bang_errors() {
    let err = lex("tier ! 3").unwrap_err();
    assert!(err.message.contains("!="));
}

#[test]
fn lex_quoted_string() {
    let toks = lex("change_scope == \"css_only\"").unwrap();
    assert!(matches!(toks[2].token, Token::StringLit(ref s) if s == "css_only"));
}

#[test]
fn lex_float_literal() {
    let toks = lex("confidence < 0.95").unwrap();
    assert!(matches!(toks[2].token, Token::FloatLit(f) if (as_f64(f) - 0.95).abs() < 1e-9));
}

// ── Parser — happy path ──────────────────────────────────────────────

#[test]
fn parse_tier_ge_3() {
    let ast = parse("tier >= 3").unwrap();
    assert_eq!(
        ast,
        TriggerAst::Comparison {
            ident: "tier".into(),
            op: CmpOp::Ge,
            value: TriggerValue::Int(3),
        }
    );
}

#[test]
fn parse_layer_or_deployment() {
    let ast = parse("layer == infrastructure OR layer == deployment").unwrap();
    assert!(matches!(ast, TriggerAst::Or(_, _)));
}

#[test]
fn parse_confidence_and_tier() {
    let ast = parse("confidence < 0.95 AND tier >= 2").unwrap();
    assert!(matches!(ast, TriggerAst::And(_, _)));
}

#[test]
fn parse_not_with_grouping() {
    let ast = parse("NOT (change_scope == css_only)").unwrap();
    assert!(matches!(ast, TriggerAst::Not(_)));
}

#[test]
fn parse_always_literal() {
    let ast = parse("always").unwrap();
    assert_eq!(ast, TriggerAst::Literal(true));
}

#[test]
fn parse_true_literal() {
    let ast = parse("true").unwrap();
    assert_eq!(ast, TriggerAst::Literal(true));
}

#[test]
fn parse_precedence_and_binds_tighter_than_or() {
    let ast = parse("tier == 1 AND layer == a OR cost == 3").unwrap();
    match ast {
        TriggerAst::Or(left, _right) => {
            assert!(matches!(*left, TriggerAst::And(_, _)));
        }
        _ => panic!("expected Or at top-level"),
    }
}

#[test]
fn parse_parens_override_precedence() {
    let ast = parse("tier == 1 AND (layer == a OR cost == 3)").unwrap();
    match ast {
        TriggerAst::And(_, right) => {
            assert!(matches!(*right, TriggerAst::Or(_, _)));
        }
        _ => panic!("expected And at top-level"),
    }
}

// ── Parser — error paths ─────────────────────────────────────────────

#[test]
fn parse_unclosed_paren() {
    let err = parse("(tier >= 3").unwrap_err();
    assert!(err.message.contains("unclosed") || err.message.contains("')'"));
    assert!(err.line >= 1);
}

#[test]
fn parse_missing_operand() {
    let err = parse("tier >=").unwrap_err();
    assert!(err.message.contains("value") || err.message.contains("expected"));
}

#[test]
fn parse_unknown_identifier() {
    let err = parse("foo == 1").unwrap_err();
    assert!(err.message.contains("foo"));
    assert!(err.message.contains("allowed"));
    assert_eq!(err.line, 1);
    assert_eq!(err.column, 1);
}

#[test]
fn parse_invalid_comparison_missing_rhs() {
    let err = parse("tier == ==").unwrap_err();
    assert!(err.message.contains("expected"));
}

#[test]
fn parse_error_includes_line_and_column() {
    let err = parse("tier == 3 AND foo == 1").unwrap_err();
    assert!(err.line >= 1);
    assert!(err.column >= 1);
    assert!(err.message.contains("foo"));
}

// ── Evaluator ────────────────────────────────────────────────────────

#[test]
fn eval_literal_true() {
    assert!(evaluate_ast(&parse("true").unwrap(), &ctx()));
}

#[test]
fn eval_always_is_true() {
    assert!(evaluate_ast(&parse("always").unwrap(), &ctx()));
}

#[test]
fn eval_not_inverts() {
    assert!(!evaluate_ast(&parse("NOT true").unwrap(), &ctx()));
    assert!(evaluate_ast(&parse("NOT false").unwrap(), &ctx()));
}

#[test]
fn eval_tier_ge() {
    assert!(evaluate_ast(&parse("tier >= 2").unwrap(), &ctx()));
    assert!(!evaluate_ast(&parse("tier >= 3").unwrap(), &ctx()));
}

#[test]
fn eval_confidence_lt() {
    assert!(evaluate_ast(&parse("confidence < 0.95").unwrap(), &ctx()));
    assert!(!evaluate_ast(&parse("confidence < 0.5").unwrap(), &ctx()));
}

#[test]
fn eval_layer_equality() {
    assert!(evaluate_ast(&parse("layer == frontend").unwrap(), &ctx()));
    assert!(!evaluate_ast(&parse("layer == backend").unwrap(), &ctx()));
}

#[test]
fn eval_layer_string_ops_only_eq_neq() {
    assert!(!evaluate_ast(&parse("layer > backend").unwrap(), &ctx()));
}

#[test]
fn eval_and_or_combination() {
    assert!(evaluate_ast(&parse("tier >= 2 AND confidence < 0.95").unwrap(), &ctx()));
    assert!(!evaluate_ast(&parse("tier >= 3 AND confidence < 0.95").unwrap(), &ctx()));
    assert!(evaluate_ast(&parse("tier >= 3 OR confidence < 0.95").unwrap(), &ctx()));
}

#[test]
fn eval_grouping_semantics() {
    assert!(!evaluate_ast(&parse("NOT (layer == frontend)").unwrap(), &ctx()));
}

#[test]
fn deeply_nested_parens_return_parse_error_not_overflow() {
    let depth = 200;
    let expr = format!("{}tier >= 1{}", "(".repeat(depth), ")".repeat(depth));
    let err = parse(&expr).expect_err("expected depth-limit parse error");
    assert!(err.message.contains("too deeply nested"), "unexpected error message: {}", err.message);
}

#[test]
fn deeply_nested_not_returns_parse_error_not_overflow() {
    let expr = format!("{}tier >= 1", "NOT ".repeat(200));
    let err = parse(&expr).expect_err("expected depth-limit parse error");
    assert!(err.message.contains("too deeply nested"), "unexpected error message: {}", err.message);
}

#[test]
fn moderate_nesting_under_limit_parses() {
    let depth = 64;
    let expr = format!("{}tier >= 1{}", "(".repeat(depth), ")".repeat(depth));
    parse(&expr).expect("64-level nesting should parse cleanly");
}

// ── Further cases ────────────────────────────────────────────────────

#[test]
fn always_and_true_parse_to_the_same_expression() {
    assert_eq!(parse("always").unwrap(), parse("true").unwrap());
}

#[test]
fn float_literals_compare_by_value() {
    assert_eq!(parse("confidence < 0.5").unwrap(), parse("confidence < 0.50").unwrap());
    assert_ne!(parse("tier >= 1").unwrap(), parse("tier >= 2").unwrap());
}

#[test]
fn eval_int_against_decimal_field_compares_numerically() {
    // cost is 1.5: 1.5 > 1 and 1.5 < 2
    assert!(evaluate_ast(&parse("cost > 1").unwrap(), &ctx()));
    assert!(evaluate_ast(&parse("cost < 2").unwrap(), &ctx()));
    assert!(!evaluate_ast(&parse("cost == 1").unwrap(), &ctx()));
}

#[test]
fn eval_passes_and_change_scope() {
    assert!(evaluate_ast(&parse("passes == 3").unwrap(), &ctx()));
    assert!(evaluate_ast(&parse("change_scope != css_only").unwrap(), &ctx()));
    assert!(evaluate_ast(&parse("change_scope == \"mixed\"").unwrap(), &ctx()));
}

#[test]
fn lex_keywords_and_operators() {
    let toks = lex("NOT ( a != b ) AND c <= d OR e > f").unwrap();
    let kinds: Vec<Token> = toks.iter().map(|t| t.token.clone()).collect();
    assert_eq!(kinds[0], Token::Not);
    assert_eq!(kinds[1], Token::LParen);
    assert_eq!(kinds[3], Token::NotEq);
    assert_eq!(kinds[5], Token::RParen);
    assert_eq!(kinds[6], Token::And);
    assert_eq!(kinds[8], Token::Le);
    assert_eq!(kinds[10], Token::Or);
    assert_eq!(kinds[12], Token::Gt);
}

#[test]
fn empty_expression_is_a_parse_error() {
    assert!(parse("").is_err());
    assert!(parse("   ").is_err());
}

#[test]
fn trailing_tokens_are_a_parse_error() {
    assert!(parse("tier >= 1 )").is_err());
}

#[test]
fn identifiers_take_unicode_letters_and_digits() {
    let toks = lex("layer == café_2").unwrap();
    assert_eq!(toks[2].token, Token::Ident("café_2".into()));
    let toks = lex("layer == x٣").unwrap();
    assert_eq!(toks[2].token, Token::Ident("x٣".into()));
    assert!(lex("layer == #").is_err());
}

#[test]
fn float_literals_in_messages_render_as_f64_debug() {
    let cases: [(&str, f64); 6] = [
        ("0.00001", 0.00001),
        ("0.0001", 0.0001),
        ("2.50", 2.5),
        ("3.0", 3.0),
        ("100000000000000000.0", 1e17),
        ("12500000000000000.0", 1.25e16),
    ];
    for (lit, value) in cases {
        let err = parse(&format!("tier >= 1 {}", lit)).unwrap_err();
        let expected = format!("FloatLit({:?})", value);
        assert!(err.message.contains(&expected), "{} -> {}", lit, err.message);
    }
}

#[test]
fn string_tokens_in_messages_render_as_str_debug() {
    for content in ["a\u{7}b", "nul\u{0}here", "soft\u{ad}hyphen", "caf\u{e9}"] {
        let err = parse(&format!("tier >= 1 \"{}\"", content)).unwrap_err();
        let expected = format!("StringLit({:?})", content);
        assert!(err.message.contains(&expected), "{:?} -> {}", content, err.message);
    }
}
