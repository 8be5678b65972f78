use pice_core::decimal::Decimal;
use pice_core::strmap::StrMap;
use pice_core::workflow::merge::{
    merge_seams, merge_with_floor, overlay, triggers_equivalent, FloorViolation, FloorViolations,
};
use pice_core::workflow::resolve::{resolve_layers, schema_version_supported};
use pice_core::workflow::schema::{
    CostCapBehavior, Defaults, LayerOverride, OnTimeout, ReviewConfig, WorkflowConfig,
};

fn dec(mantissa: i64, scale: u32) -> Decimal {
    Decimal { mantissa, scale }
}

fn as_f64(d: Decimal) -> f64 {
    d.mantissa as f64 / 10f64.powi(d.scale as i32)
}

fn base() -> WorkflowConfig {
    WorkflowConfig {
        schema_version: "0.2".into(),
        defaults: Defaults {
            tier: 2,
            min_confidence: dec(90, 2),
            max_passes: 5,
            model: "sonnet".into(),
            budget_usd: dec(20, 1),
            cost_cap_behavior: CostCapBehavior::Halt,
            max_parallelism: None,
        },
        phases: Default::default(),
        layer_overrides: StrMap::new(),
        review: None,
        seams: None,
    }
}

fn overlay_from(base: &WorkflowConfig) -> WorkflowConfig {
    base.clone()
}

#[test]
fn user_raises_min_confidence_allowed() {
    let mut u = overlay_from(&base());
    u.defaults.min_confidence = dec(95, 2);
    let merged = merge_with_floor(base(), u).unwrap();
    assert!((as_f64(merged.defaults.min_confidence) - 0.95).abs() < 1e-9);
}

#[test]
fn user_lowers_min_confidence_rejected() {
    let mut u = overlay_from(&base());
    u.defaults.min_confidence = dec(80, 2);
    let err = merge_with_floor(base(), u).unwrap_err().to_text();
    assert!(err.contains("min_confidence"), "err: {err}");
    assert!(err.contains("0.9") || err.contains("0.90"), "err: {err}");
}

#[test]
fn user_lowers_budget_allowed() {
    let mut u = overlay_from(&base());
    u.defaults.budget_usd = dec(10, 1);
    let merged = merge_with_floor(base(), u).unwrap();
    assert!((as_f64(merged.defaults.budget_usd) - 1.0).abs() < 1e-9);
}

#[test]
fn user_raises_budget_rejected() {
    let mut u = overlay_from(&base());
    u.defaults.budget_usd = dec(100, 1);
    let err = merge_with_floor(base(), u).unwrap_err().to_text();
    assert!(err.contains("budget_usd"), "err: {err}");
}

#[test]
fn user_raises_tier_allowed() {
    let mut u = overlay_from(&base());
    u.defaults.tier = 3;
    let merged = merge_with_floor(base(), u).unwrap();
    assert_eq!(merged.defaults.tier, 3);
}

#[test]
fn user_lowers_tier_rejected() {
    let mut b = base();
    b.defaults.tier = 3;
    let mut u = overlay_from(&b);
    u.defaults.tier = 2;
    let err = merge_with_floor(b, u).unwrap_err().to_text();
    assert!(err.contains("tier"), "err: {err}");
}

#[test]
fn user_changes_max_passes_always_allowed() {
    let mut up = overlay_from(&base());
    up.defaults.max_passes = 10;
    assert_eq!(merge_with_floor(base(), up).unwrap().defaults.max_passes, 10);

    let mut down = overlay_from(&base());
    down.defaults.max_passes = 2;
    assert_eq!(merge_with_floor(base(), down).unwrap().defaults.max_passes, 2);
}

#[test]
fn user_enables_review_when_project_false_allowed() {
    let mut b = base();
    b.review = Some(ReviewConfig { enabled: false, ..Default::default() });
    let mut u = overlay_from(&b);
    u.review = Some(ReviewConfig {
        enabled: true,
        trigger: Some("tier >= 3".into()),
        ..Default::default()
    });
    let merged = merge_with_floor(b, u).unwrap();
    assert!(merged.review.unwrap().enabled);
}

#[test]
fn user_disables_required_review_rejected() {
    let mut b = base();
    b.review = Some(ReviewConfig {
        enabled: true,
        trigger: Some("always".into()),
        timeout_hours: 24,
        on_timeout: OnTimeout::Reject,
        notification: "stdout".into(),
        retry_on_reject: 0,
    });
    let mut u = overlay_from(&b);
    u.review = Some(ReviewConfig { enabled: false, ..b.review.clone().unwrap() });
    let err = merge_with_floor(b, u).unwrap_err().to_text();
    assert!(err.contains("review"), "err: {err}");
}

#[test]
fn review_trigger_weakening_to_false_rejected() {
    let mut b = base();
    b.review = Some(ReviewConfig {
        enabled: true,
        trigger: Some("always".into()),
        ..Default::default()
    });
    let mut u = overlay_from(&b);
    u.review = Some(ReviewConfig {
        enabled: true,
        trigger: Some("false".into()),
        ..b.review.clone().unwrap()
    });
    let fv = merge_with_floor(b, u).unwrap_err();
    assert!(
        fv.violations.iter().any(|v| v.field == "review.trigger" && v.user == "false"),
        "expected review.trigger weakening violation, got: {fv:?}"
    );
}

#[test]
fn review_trigger_rewriting_to_arbitrary_expression_rejected() {
    let mut b = base();
    b.review = Some(ReviewConfig {
        enabled: true,
        trigger: Some("tier >= 3".into()),
        ..Default::default()
    });
    let mut u = overlay_from(&b);
    u.review = Some(ReviewConfig {
        enabled: true,
        trigger: Some("tier >= 999".into()),
        ..b.review.clone().unwrap()
    });
    let fv = merge_with_floor(b, u).unwrap_err();
    assert!(fv.violations.iter().any(|v| v.field == "review.trigger"));
}

#[test]
fn identical_invalid_trigger_does_not_mask_parse_error() {
    let mut b = base();
    b.review = Some(ReviewConfig {
        enabled: true,
        trigger: Some("tier ==".into()),
        ..Default::default()
    });
    let mut u = overlay_from(&b);
    u.review = Some(ReviewConfig {
        enabled: true,
        trigger: Some("tier ==".into()),
        ..b.review.clone().unwrap()
    });
    let merged =
        merge_with_floor(b, u).expect("identical triggers must not be flagged as rewrites");
    assert_eq!(merged.review.unwrap().trigger.as_deref(), Some("tier =="));
}

#[test]
fn review_trigger_ast_equivalent_restatement_allowed() {
    let mut b = base();
    b.review = Some(ReviewConfig {
        enabled: true,
        trigger: Some("always".into()),
        ..Default::default()
    });
    let mut u = overlay_from(&b);
    u.review = Some(ReviewConfig {
        enabled: true,
        trigger: Some("true".into()),
        ..b.review.clone().unwrap()
    });
    let merged = merge_with_floor(b, u).expect("AST-equivalent trigger restatement should pass");
    assert_eq!(merged.review.unwrap().trigger.as_deref(), Some("true"));
}

#[test]
fn review_trigger_whitespace_differences_allowed() {
    let mut b = base();
    b.review = Some(ReviewConfig {
        enabled: true,
        trigger: Some("tier >= 3".into()),
        ..Default::default()
    });
    let mut u = overlay_from(&b);
    u.review = Some(ReviewConfig {
        enabled: true,
        trigger: Some("tier>=3".into()),
        ..b.review.clone().unwrap()
    });
    merge_with_floor(b, u).expect("whitespace-only difference should pass");
}

#[test]
fn review_trigger_exact_match_allowed() {
    let mut b = base();
    b.review = Some(ReviewConfig {
        enabled: true,
        trigger: Some("tier >= 3".into()),
        ..Default::default()
    });
    let mut u = overlay_from(&b);
    u.review = Some(ReviewConfig {
        enabled: true,
        trigger: Some("tier >= 3".into()),
        timeout_hours: 12,
        ..b.review.clone().unwrap()
    });
    let merged = merge_with_floor(b, u).expect("exact-match trigger should pass");
    assert_eq!(merged.review.unwrap().trigger.as_deref(), Some("tier >= 3"));
}

#[test]
fn layer_override_trigger_weakening_rejected() {
    let mut b = base();
    b.layer_overrides.insert(
        "infrastructure".into(),
        LayerOverride { trigger: Some("always".into()), ..Default::default() },
    );
    let mut u = overlay_from(&b);
    u.layer_overrides.insert(
        "infrastructure".into(),
        LayerOverride { trigger: Some("false".into()), ..Default::default() },
    );
    let fv = merge_with_floor(b, u).unwrap_err();
    assert!(fv.violations.iter().any(|v| v.field == "layer_overrides.infrastructure.trigger"));
}

#[test]
fn required_review_trigger_removal_rejected() {
    let mut b = base();
    b.review = Some(ReviewConfig {
        enabled: true,
        trigger: Some("tier >= 3".into()),
        ..Default::default()
    });
    let mut u = overlay_from(&b);
    u.review = Some(ReviewConfig { enabled: true, trigger: None, ..b.review.clone().unwrap() });
    let fv = merge_with_floor(b, u).unwrap_err();
    assert!(
        fv.violations.iter().any(|v| v.field == "review.trigger"
            && v.reason == "required gate trigger cannot be removed"),
        "expected review.trigger removal violation, got: {fv:?}"
    );
}

#[test]
fn layer_override_require_review_downgrade_rejected() {
    let mut b = base();
    b.layer_overrides.insert(
        "infrastructure".into(),
        LayerOverride { require_review: Some(true), ..Default::default() },
    );
    let mut u = overlay_from(&b);
    u.layer_overrides.insert(
        "infrastructure".into(),
        LayerOverride { require_review: Some(false), ..Default::default() },
    );
    let fv = merge_with_floor(b, u).unwrap_err();
    assert!(fv
        .violations
        .iter()
        .any(|v| v.field == "layer_overrides.infrastructure.require_review"));
}

#[test]
fn fresh_layer_tier_override_checked_against_defaults() {
    let mut b = base();
    b.defaults.tier = 3;
    let mut u = overlay_from(&b);
    u.layer_overrides.insert("backend".into(), LayerOverride { tier: Some(1), ..Default::default() });
    let fv = merge_with_floor(b, u).unwrap_err();
    assert!(
        fv.violations.iter().any(|v| v.field == "layer_overrides.backend.tier"),
        "expected floor violation on fresh layer, got: {fv:?}"
    );
}

#[test]
fn fresh_layer_min_confidence_override_checked_against_defaults() {
    let mut b = base();
    b.defaults.min_confidence = dec(95, 2);
    let mut u = overlay_from(&b);
    u.layer_overrides.insert(
        "backend".into(),
        LayerOverride { min_confidence: Some(dec(80, 2)), ..Default::default() },
    );
    let fv = merge_with_floor(b, u).unwrap_err();
    assert!(fv.violations.iter().any(|v| v.field == "layer_overrides.backend.min_confidence"));
}

#[test]
fn fresh_layer_budget_override_checked_against_defaults() {
    let mut b = base();
    b.defaults.budget_usd = dec(10, 1);
    let mut u = overlay_from(&b);
    u.layer_overrides.insert(
        "backend".into(),
        LayerOverride { budget_usd: Some(dec(100, 1)), ..Default::default() },
    );
    let fv = merge_with_floor(b, u).unwrap_err();
    assert!(fv.violations.iter().any(|v| v.field == "layer_overrides.backend.budget_usd"));
}

#[test]
fn project_committed_layer_exemption_preserved_under_global_gate() {
    let mut b = base();
    b.review = Some(ReviewConfig { enabled: true, ..Default::default() });
    b.layer_overrides.insert(
        "experimental".into(),
        LayerOverride { require_review: Some(false), ..Default::default() },
    );
    let mut u = overlay_from(&b);
    u.layer_overrides.insert(
        "experimental".into(),
        LayerOverride {
            require_review: Some(false),
            min_confidence: Some(dec(95, 2)),
            ..Default::default()
        },
    );
    let merged = merge_with_floor(b, u).expect("legitimate exemption should merge");
    assert_eq!(merged.layer_overrides.get("experimental").unwrap().require_review, Some(false));
}

#[test]
fn fresh_layer_require_review_override_checked_against_global() {
    let mut b = base();
    b.review = Some(ReviewConfig { enabled: true, ..Default::default() });
    let mut u = overlay_from(&b);
    u.layer_overrides.insert(
        "backend".into(),
        LayerOverride { require_review: Some(false), ..Default::default() },
    );
    let fv = merge_with_floor(b, u).unwrap_err();
    assert!(fv.violations.iter().any(|v| v.field == "layer_overrides.backend.require_review"));
}

#[test]
fn layer_override_restrict_confidence_allowed() {
    let mut b = base();
    b.layer_overrides.insert(
        "infrastructure".into(),
        LayerOverride { min_confidence: Some(dec(92, 2)), ..Default::default() },
    );
    let mut u = overlay_from(&b);
    u.layer_overrides.insert(
        "infrastructure".into(),
        LayerOverride { min_confidence: Some(dec(97, 2)), ..Default::default() },
    );
    let merged = merge_with_floor(b, u).unwrap();
    assert_eq!(
        merged.layer_overrides.get("infrastructure").unwrap().min_confidence,
        Some(dec(97, 2))
    );
}

#[test]
fn layer_override_relax_confidence_rejected() {
    let mut b = base();
    b.layer_overrides.insert(
        "infrastructure".into(),
        LayerOverride { min_confidence: Some(dec(95, 2)), ..Default::default() },
    );
    let mut u = overlay_from(&b);
    u.layer_overrides.insert(
        "infrastructure".into(),
        LayerOverride { min_confidence: Some(dec(85, 2)), ..Default::default() },
    );
    let err = merge_with_floor(b, u).unwrap_err().to_text();
    assert!(err.contains("infrastructure"), "err: {err}");
    assert!(err.contains("min_confidence"), "err: {err}");
}

#[test]
fn empty_user_returns_base_unchanged() {
    let merged = merge_with_floor(base(), base()).unwrap();
    assert_eq!(merged, base());
}

#[test]
fn adversarial_relax_all_floors_collects_all_violations() {
    let mut b = base();
    b.defaults.tier = 3;
    b.defaults.min_confidence = dec(95, 2);
    b.defaults.budget_usd = dec(20, 1);
    b.review = Some(ReviewConfig {
        enabled: true,
        trigger: Some("tier >= 3".into()),
        ..Default::default()
    });
    b.layer_overrides.insert(
        "infrastructure".into(),
        LayerOverride { require_review: Some(true), ..Default::default() },
    );

    let mut u = overlay_from(&b);
    u.defaults.tier = 2;
    u.defaults.min_confidence = dec(80, 2);
    u.defaults.budget_usd = dec(100, 1);
    u.review = Some(ReviewConfig { enabled: false, trigger: None, ..Default::default() });
    u.layer_overrides.insert(
        "infrastructure".into(),
        LayerOverride { require_review: Some(false), ..Default::default() },
    );
    u.layer_overrides.insert("backend".into(), LayerOverride { tier: Some(1), ..Default::default() });

    let fv = merge_with_floor(b, u).unwrap_err();
    let fields: Vec<&str> = fv.violations.iter().map(|v| v.field.as_str()).collect();

    assert!(fields.contains(&"defaults.tier"), "missing defaults.tier: {fields:?}");
    assert!(
        fields.contains(&"defaults.min_confidence"),
        "missing defaults.min_confidence: {fields:?}"
    );
    assert!(fields.contains(&"defaults.budget_usd"), "missing defaults.budget_usd: {fields:?}");
    assert!(fields.contains(&"review.enabled"), "missing review.enabled: {fields:?}");
    assert!(fields.contains(&"review.trigger"), "missing review.trigger: {fields:?}");
    assert!(
        fields.contains(&"layer_overrides.infrastructure.require_review"),
        "missing layer require_review: {fields:?}"
    );
    assert!(
        fields.contains(&"layer_overrides.backend.tier"),
        "missing fresh-layer tier escape: {fields:?}"
    );
    assert!(
        fv.violations.len() >= 7,
        "expected at least 7 violations, got {}: {fields:?}",
        fv.violations.len()
    );
}

// ─── Seam merge tests ───────────────────────────────────────────────

fn seam_map(entries: &[(&str, &[&str])]) -> StrMap<Vec<String>> {
    let mut map = StrMap::new();
    for (k, v) in entries {
        map.insert(k.to_string(), v.iter().map(|s| s.to_string()).collect());
    }
    map
}

fn base_with_seams(entries: &[(&str, &[&str])]) -> WorkflowConfig {
    let mut cfg = base();
    cfg.seams = Some(seam_map(entries));
    cfg
}

fn overlay_with_seams(entries: &[(&str, &[&str])]) -> WorkflowConfig {
    let mut cfg = base();
    cfg.seams = Some(seam_map(entries));
    cfg
}

#[test]
fn seam_replace_wins_on_user_override() {
    let project = base_with_seams(&[("backend↔infrastructure", &["config_mismatch"])]);
    let user = overlay_with_seams(&[("backend↔infrastructure", &["schema_drift", "version_skew"])]);
    let merged = merge_with_floor(project, user).unwrap();
    let seams = merged.seams.unwrap();
    assert_eq!(
        seams.get("backend↔infrastructure").unwrap(),
        &vec!["schema_drift".to_string(), "version_skew".to_string()]
    );
}

#[test]
fn seam_omit_preserves_project_list() {
    let project = base_with_seams(&[("backend↔infrastructure", &["config_mismatch"])]);
    let user = base();
    let merged = merge_with_floor(project, user).unwrap();
    let seams = merged.seams.unwrap();
    assert_eq!(seams.get("backend↔infrastructure").unwrap(), &vec!["config_mismatch".to_string()]);
}

#[test]
fn seam_empty_list_for_project_boundary_is_violation() {
    let project = base_with_seams(&[("backend↔infrastructure", &["config_mismatch"])]);
    let user = overlay_with_seams(&[("backend↔infrastructure", &[])]);
    let fv: FloorViolations = merge_with_floor(project, user).unwrap_err();
    assert!(fv.violations.iter().any(
        |v| v.field == "seams.backend↔infrastructure" && v.reason.contains("cannot be empty")
    ));
}

#[test]
fn seam_empty_list_for_new_user_boundary_also_rejected() {
    let project = base();
    let user = overlay_with_seams(&[("backend↔infrastructure", &[])]);
    let fv: FloorViolations = merge_with_floor(project, user).unwrap_err();
    assert!(fv.violations.iter().any(|v| v.user == "[]"));
}

#[test]
fn seam_user_may_add_new_boundary() {
    let project = base_with_seams(&[("backend↔database", &["schema_drift"])]);
    let user = overlay_with_seams(&[("frontend↔api", &["openapi_compliance"])]);
    let merged = merge_with_floor(project, user).unwrap();
    let seams = merged.seams.unwrap();
    assert!(seams.contains_key("backend↔database"));
    assert!(seams.contains_key("frontend↔api"));
}

#[test]
fn seam_framework_to_project_is_overlay_not_floor() {
    let framework = base_with_seams(&[("backend↔infrastructure", &["config_mismatch"])]);
    let project = overlay_with_seams(&[("frontend↔api", &["openapi_compliance"])]);
    let merged = overlay(framework, project);
    let seams = merged.seams.unwrap();
    assert!(seams.contains_key("backend↔infrastructure"));
    assert!(seams.contains_key("frontend↔api"));
}

#[test]
fn seam_user_list_ordering_preserved() {
    let project = base_with_seams(&[("backend↔infrastructure", &["config_mismatch"])]);
    let user = overlay_with_seams(&[(
        "backend↔infrastructure",
        &["schema_drift", "auth_handoff", "version_skew"],
    )]);
    let merged = merge_with_floor(project, user).unwrap();
    let list = merged.seams.unwrap().get("backend↔infrastructure").cloned().unwrap();
    assert_eq!(list, vec!["schema_drift", "auth_handoff", "version_skew"]);
}

#[test]
fn seam_canonicalization_collides_inverted_keys() {
    let project = base_with_seams(&[("backend↔infrastructure", &["config_mismatch"])]);
    let user = overlay_with_seams(&[("infrastructure<->backend", &["version_skew"])]);
    let merged = merge_with_floor(project, user).unwrap();
    let seams = merged.seams.unwrap();
    assert!(!seams.contains_key("backend↔infrastructure"), "project key should be replaced: {seams:?}");
    assert_eq!(seams.get("infrastructure<->backend").unwrap(), &vec!["version_skew".to_string()]);
}

// ─── Adaptive sub-config overlay merge tests ────────────────────────

#[test]
fn user_can_override_sprt_accept_threshold_freely() {
    let b = base();
    let mut u = overlay_from(&b);
    u.phases.evaluate.sprt.accept_threshold = dec(50, 0);
    let merged = merge_with_floor(b.clone(), u).unwrap();
    assert_eq!(merged.phases.evaluate.sprt.accept_threshold, dec(50, 0));

    let mut u2 = overlay_from(&b);
    u2.phases.evaluate.sprt.accept_threshold = dec(5, 0);
    let merged2 = merge_with_floor(b, u2).unwrap();
    assert_eq!(merged2.phases.evaluate.sprt.accept_threshold, dec(5, 0));
}

#[test]
fn user_can_override_adts_divergence_freely() {
    let b = base();
    let mut u = overlay_from(&b);
    u.phases.evaluate.adts.divergence_threshold = dec(5, 1);
    let merged = merge_with_floor(b, u).unwrap();
    assert_eq!(merged.phases.evaluate.adts.divergence_threshold, dec(5, 1));
}

#[test]
fn user_can_override_vec_entropy_floor_freely() {
    let b = base();
    let mut u = overlay_from(&b);
    u.phases.evaluate.vec.entropy_floor = dec(5, 1);
    let merged = merge_with_floor(b, u).unwrap();
    assert_eq!(merged.phases.evaluate.vec.entropy_floor, dec(5, 1));
}

#[test]
fn user_cannot_lower_min_confidence_below_project_floor() {
    let mut u = overlay_from(&base());
    u.defaults.min_confidence = dec(80, 2);
    let err = merge_with_floor(base(), u).unwrap_err().to_text();
    assert!(err.contains("min_confidence"), "err: {err}");
}

#[test]
fn user_can_lower_or_raise_max_passes() {
    let mut up = overlay_from(&base());
    up.defaults.max_passes = 10;
    assert_eq!(merge_with_floor(base(), up).unwrap().defaults.max_passes, 10);

    let mut down = overlay_from(&base());
    down.defaults.max_passes = 2;
    assert_eq!(merge_with_floor(base(), down).unwrap().defaults.max_passes, 2);
}

#[test]
fn user_can_lower_budget_usd() {
    let mut u = overlay_from(&base());
    u.defaults.budget_usd = dec(50, 2);
    let merged = merge_with_floor(base(), u).unwrap();
    assert!((as_f64(merged.defaults.budget_usd) - 0.50).abs() < 1e-9);
}

#[test]
fn user_cannot_raise_budget_usd_above_project_ceiling() {
    let mut u = overlay_from(&base());
    u.defaults.budget_usd = dec(100, 1);
    let err = merge_with_floor(base(), u).unwrap_err().to_text();
    assert!(err.contains("budget_usd"), "err: {err}");
}

#[test]
fn user_can_raise_min_confidence() {
    let mut u = overlay_from(&base());
    u.defaults.min_confidence = dec(99, 2);
    let merged = merge_with_floor(base(), u).unwrap();
    assert!((as_f64(merged.defaults.min_confidence) - 0.99).abs() < 1e-9);
}

// ── retry_on_reject floor semantics ─────────────────────

fn base_with_retry(retry: u32) -> WorkflowConfig {
    let mut b = base();
    b.review = Some(ReviewConfig {
        enabled: true,
        trigger: Some("layer == infrastructure".to_string()),
        timeout_hours: 24,
        on_timeout: OnTimeout::Reject,
        notification: "stdout".to_string(),
        retry_on_reject: retry,
    });
    b
}

#[test]
fn retry_on_reject_user_lower_rejected() {
    let base = base_with_retry(2);
    let mut u = overlay_from(&base);
    u.review = Some(ReviewConfig {
        enabled: true,
        trigger: Some("layer == infrastructure".to_string()),
        timeout_hours: 24,
        on_timeout: OnTimeout::Reject,
        notification: "stdout".to_string(),
        retry_on_reject: 0,
    });
    let err = merge_with_floor(base, u).unwrap_err().to_text();
    assert!(err.contains("retry_on_reject"), "err should surface the violating field: {err}");
}

#[test]
fn retry_on_reject_user_higher_allowed() {
    let base = base_with_retry(1);
    let mut u = overlay_from(&base);
    u.review = Some(ReviewConfig {
        enabled: true,
        trigger: Some("layer == infrastructure".to_string()),
        timeout_hours: 24,
        on_timeout: OnTimeout::Reject,
        notification: "stdout".to_string(),
        retry_on_reject: 3,
    });
    let merged = merge_with_floor(base, u).unwrap();
    assert_eq!(merged.review.unwrap().retry_on_reject, 3);
}

#[test]
fn layer_override_retry_on_reject_floor_matches_project() {
    let mut base = base_with_retry(0);
    let layer_override = LayerOverride { retry_on_reject: Some(2), ..LayerOverride::default() };
    base.layer_overrides.insert("infrastructure".to_string(), layer_override);

    let mut u = overlay_from(&base);
    let user_layer = LayerOverride { retry_on_reject: Some(1), ..LayerOverride::default() };
    u.layer_overrides.insert("infrastructure".to_string(), user_layer);

    let err = merge_with_floor(base, u).unwrap_err().to_text();
    assert!(
        err.contains("layer_overrides.infrastructure.retry_on_reject"),
        "err should name the layer-level field: {err}"
    );
    assert!(err.contains("2"), "err should cite the project floor (2): {err}");
}

// ── Further cases ───────────────────────────────────────────────────

#[test]
fn violation_report_text_is_exact() {
    let mut u = overlay_from(&base());
    u.defaults.tier = 1;
    let fv = merge_with_floor(base(), u).unwrap_err();
    assert_eq!(fv.violations.len(), 1);
    assert_eq!(
        fv.to_text(),
        "workflow override violates 1 project floor(s):\n  - defaults.tier: override violates project floor (tier may only be raised); project=2, override=1\n"
    );
    assert_eq!(
        fv.violations[0].to_text(),
        "defaults.tier: override violates project floor (tier may only be raised); project=2, override=1"
    );
}

#[test]
fn violation_values_render_decimals_shortest() {
    let mut u = overlay_from(&base());
    u.defaults.budget_usd = dec(250, 2);
    let fv = merge_with_floor(base(), u).unwrap_err();
    let v: &FloorViolation = &fv.violations[0];
    assert_eq!(v.field, "defaults.budget_usd");
    assert_eq!(v.project, "2");
    assert_eq!(v.user, "2.5");
    assert_eq!(v.reason, "budget_usd may only be lowered");
}

#[test]
fn unguarded_default_fields_take_user_values() {
    let mut u = overlay_from(&base());
    u.defaults.model = "opus".into();
    u.defaults.cost_cap_behavior = CostCapBehavior::Continue;
    u.defaults.max_parallelism = Some(4);
    let merged = merge_with_floor(base(), u).unwrap();
    assert_eq!(merged.defaults.model, "opus");
    assert_eq!(merged.defaults.cost_cap_behavior, CostCapBehavior::Continue);
    assert_eq!(merged.defaults.max_parallelism, Some(4));
}

#[test]
fn unset_max_parallelism_keeps_project_value() {
    let mut b = base();
    b.defaults.max_parallelism = Some(8);
    let mut u = overlay_from(&b);
    u.defaults.max_parallelism = None;
    let merged = merge_with_floor(b, u).unwrap();
    assert_eq!(merged.defaults.max_parallelism, Some(8));
}

#[test]
fn triggers_equivalent_cases() {
    assert!(triggers_equivalent("always", "true"));
    assert!(triggers_equivalent("tier >= 3", "tier>=3"));
    assert!(triggers_equivalent("tier ==", "tier =="));
    assert!(!triggers_equivalent("tier >= 3", "tier >= 999"));
    assert!(!triggers_equivalent("tier ==", "tier == "));
    assert!(!triggers_equivalent("always", "false"));
}

#[test]
fn merge_seams_reports_project_list_for_empty_override() {
    let mut base_seams = Some(seam_map(&[("api↔db", &["schema_drift", "a\"b"])]));
    let mut violations = Vec::new();
    merge_seams(&mut base_seams, Some(seam_map(&[("db<->api", &[])])), &mut violations);
    assert_eq!(violations.len(), 1);
    assert_eq!(violations[0].field, "seams.db<->api");
    assert_eq!(violations[0].project, "[\"schema_drift\", \"a\\\"b\"]");
    assert_eq!(violations[0].user, "[]");
    assert!(base_seams.unwrap().contains_key("api↔db"));
}

#[test]
fn merge_seams_without_overlay_leaves_base() {
    let mut base_seams: Option<StrMap<Vec<String>>> = None;
    let mut violations = Vec::new();
    merge_seams(&mut base_seams, None, &mut violations);
    assert!(base_seams.is_none());
    assert!(violations.is_empty());
}

#[test]
fn overlay_upper_values_win() {
    let mut b = base();
    b.layer_overrides.insert("backend".into(), LayerOverride { tier: Some(3), ..Default::default() });
    b.layer_overrides.insert("frontend".into(), LayerOverride { tier: Some(1), ..Default::default() });
    b.review = Some(ReviewConfig { enabled: true, ..Default::default() });
    let mut u = base();
    u.defaults.tier = 1;
    u.schema_version = "9.9".into();
    u.layer_overrides.insert("backend".into(), LayerOverride { tier: Some(1), ..Default::default() });
    let out = overlay(b, u);
    assert_eq!(out.schema_version, "9.9");
    assert_eq!(out.defaults.tier, 1);
    assert_eq!(out.layer_overrides.get("backend").unwrap().tier, Some(1));
    assert_eq!(out.layer_overrides.get("frontend").unwrap().tier, Some(1));
    assert!(out.review.unwrap().enabled);
}

#[test]
fn resolve_applies_project_then_user() {
    let framework = base();
    let mut project = base();
    project.defaults.tier = 3;
    let mut user = base();
    user.defaults.tier = 3;
    user.defaults.max_passes = 7;
    let out = resolve_layers(framework.clone(), Some(project.clone()), Some(user)).unwrap();
    assert_eq!(out.defaults.tier, 3);
    assert_eq!(out.defaults.max_passes, 7);
    let mut lax = base();
    lax.defaults.tier = 1;
    let err = resolve_layers(framework.clone(), Some(project), Some(lax)).unwrap_err();
    assert_eq!(err.violations[0].field, "defaults.tier");
    assert_eq!(resolve_layers(framework.clone(), None, None).unwrap(), framework);
    assert!(schema_version_supported(&framework));
    let mut old = base();
    old.schema_version = "0.1".into();
    assert!(!schema_version_supported(&old));
}

#[test]
fn self_merge_of_a_full_configuration_is_identity() {
    let mut b = base_with_seams(&[
        ("backend↔infrastructure", &["config_mismatch"]),
        ("infrastructure<->backend", &["version_skew"]),
        ("notaboundary", &["x"]),
    ]);
    b.review = Some(ReviewConfig {
        enabled: true,
        trigger: Some("tier >= 2".into()),
        retry_on_reject: 2,
        ..Default::default()
    });
    b.layer_overrides.insert(
        "infrastructure".into(),
        LayerOverride {
            tier: Some(3),
            trigger: Some("always".into()),
            require_review: Some(true),
            retry_on_reject: Some(1),
            ..Default::default()
        },
    );
    let merged = merge_with_floor(b.clone(), b.clone()).unwrap();
    assert_eq!(merged, b);
}

#[test]
fn trigger_equivalence_is_symmetric_and_transitive() {
    let a = "tier >= 3 AND layer == infra";
    let b = "tier>=3 AND layer==infra";
    let c = "tier >= 3 and layer == \"infra\"";
    assert!(triggers_equivalent(a, b) && triggers_equivalent(b, a));
    assert!(triggers_equivalent(b, c) && triggers_equivalent(a, c));
    assert!(triggers_equivalent("confidence < 0.5", "confidence < 0.500"));
}

#[test]
fn layer_trigger_and_retry_violations_are_both_collected() {
    let mut b = base();
    b.layer_overrides.insert(
        "infrastructure".into(),
        LayerOverride {
            trigger: Some("always".into()),
            retry_on_reject: Some(2),
            ..Default::default()
        },
    );
    let mut u = overlay_from(&b);
    u.layer_overrides.insert(
        "infrastructure".into(),
        LayerOverride {
            trigger: Some("false".into()),
            retry_on_reject: Some(0),
            ..Default::default()
        },
    );
    let fv = merge_with_floor(b, u).unwrap_err();
    let fields: Vec<&str> = fv.violations.iter().map(|v| v.field.as_str()).collect();
    assert_eq!(
        fields,
        vec!["layer_overrides.infrastructure.trigger", "layer_overrides.infrastructure.retry_on_reject"]
    );
}

#[test]
fn merging_a_config_with_itself_changes_nothing() {
    let mut b = base_with_seams(&[
        ("backend<->database", &["schema_match"]),
        ("backend↔database", &["latency"]),
        ("api<->frontend", &["contract"]),
    ]);
    b.review = Some(ReviewConfig {
        enabled: true,
        trigger: Some("tier >= 3".into()),
        retry_on_reject: 2,
        ..Default::default()
    });
    b.layer_overrides.insert(
        "infrastructure".into(),
        LayerOverride {
            tier: Some(3),
            trigger: Some("layer == infrastructure".into()),
            retry_on_reject: Some(1),
            require_review: Some(true),
            ..Default::default()
        },
    );
    let merged = merge_with_floor(b.clone(), b.clone()).unwrap();
    assert_eq!(merged, b);
}
