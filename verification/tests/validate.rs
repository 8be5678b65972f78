use pice_core::decimal::Decimal;
use pice_core::layers::{LayerDef, LayersConfig, LayersTable};
use pice_core::seam::{LayerBoundary, ParseBoundaryError, Registry, SeamCheck};
use pice_core::strmap::StrMap;
use pice_core::workflow::schema::{
    CostCapBehavior, Defaults, LayerOverride, ReviewConfig, WorkflowConfig,
};
use pice_core::workflow::validate::{
    validate_all, validate_cross_references, validate_models, validate_schema_only,
    validate_seams, validate_triggers, ValidationReport,
};

fn def(path: &str, always_run: bool) -> LayerDef {
    LayerDef { paths: vec![path.to_string()], always_run, depends_on: vec![] }
}

fn sample_layers() -> LayersConfig {
    let mut defs = StrMap::new();
    defs.insert("backend".into(), def("src/**", false));
    defs.insert("frontend".into(), def("web/**", false));
    defs.insert("infrastructure".into(), def("infra/**", true));
    defs.insert("deployment".into(), def("deploy/**", true));
    LayersConfig {
        layers: LayersTable {
            order: vec![
                "backend".into(),
                "frontend".into(),
                "infrastructure".into(),
                "deployment".into(),
            ],
            defs,
        },
    }
}

/// A complete, valid workflow (the shipped defaults' shape).
fn embedded_defaults() -> WorkflowConfig {
    WorkflowConfig {
        schema_version: "0.2".into(),
        defaults: Defaults {
            tier: 2,
            min_confidence: Decimal { mantissa: 90, scale: 2 },
            max_passes: 5,
            model: "sonnet".into(),
            budget_usd: Decimal { mantissa: 20, scale: 1 },
            cost_cap_behavior: CostCapBehavior::Halt,
            max_parallelism: None,
        },
        phases: Default::default(),
        layer_overrides: StrMap::new(),
        review: None,
        seams: None,
    }
}

fn check(id: &str, category: &str, layers: &[&str]) -> SeamCheck {
    SeamCheck {
        id: id.into(),
        category: category.into(),
        layers: layers.iter().map(|s| s.to_string()).collect(),
    }
}

fn sample_registry() -> Registry {
    Registry {
        checks: vec![
            check("config_mismatch", "1", &["infrastructure", "deployment"]),
            check("openapi_compliance", "2", &["backend", "frontend"]),
            check("schema_drift", "3", &["backend", "database"]),
        ],
    }
}

fn seams(entries: &[(&str, &[&str])]) -> Option<StrMap<Vec<String>>> {
    let mut map = StrMap::new();
    for (k, v) in entries {
        map.insert(k.to_string(), v.iter().map(|s| s.to_string()).collect());
    }
    Some(map)
}

#[test]
fn valid_workflow_passes() {
    let cfg = embedded_defaults();
    let layers = sample_layers();
    let report = validate_all(&cfg, Some(&layers), Some(&["sonnet".into()]), None);
    assert!(report.is_ok(), "unexpected errors: {:?}", report.errors);
}

#[test]
fn bad_schema_version_errors() {
    let mut cfg = embedded_defaults();
    cfg.schema_version = "0.1".into();
    let report = validate_schema_only(&cfg);
    assert!(!report.is_ok());
    assert!(report.errors.iter().any(|e| e.field == "schema_version"));
}

#[test]
fn trigger_syntax_error_has_line_col() {
    let mut cfg = embedded_defaults();
    cfg.review = Some(ReviewConfig {
        enabled: true,
        trigger: Some("tier ==".into()),
        ..Default::default()
    });
    let report = validate_triggers(&cfg);
    assert!(!report.is_ok());
    let err = &report.errors[0];
    assert_eq!(err.field, "review.trigger");
    assert!(err.line.is_some());
    assert!(err.column.is_some());
}

#[test]
fn unknown_layer_in_overrides_errors() {
    let mut cfg = embedded_defaults();
    cfg.layer_overrides
        .insert("ghost_layer".into(), LayerOverride { tier: Some(3), ..Default::default() });
    let layers = sample_layers();
    let report = validate_cross_references(&cfg, &layers);
    assert!(!report.is_ok());
    let err = &report.errors[0];
    assert!(err.message.contains("ghost_layer"));
    assert!(err.message.contains("backend"));
}

#[test]
fn defs_only_ghost_layer_rejected() {
    let mut layers = sample_layers();
    layers.layers.defs.insert("defs_only_ghost".into(), def("whatever/**", false));

    let mut cfg = embedded_defaults();
    cfg.layer_overrides
        .insert("defs_only_ghost".into(), LayerOverride { tier: Some(3), ..Default::default() });
    let report = validate_cross_references(&cfg, &layers);
    assert!(!report.is_ok(), "defs-only ghost should be rejected");
    assert!(report.errors[0].message.contains("defs_only_ghost"));
}

#[test]
fn order_only_ghost_layer_rejected() {
    let mut layers = sample_layers();
    layers.layers.order.push("ghost_in_order".into());

    let mut cfg = embedded_defaults();
    cfg.layer_overrides
        .insert("ghost_in_order".into(), LayerOverride { tier: Some(3), ..Default::default() });
    let report = validate_cross_references(&cfg, &layers);
    assert!(!report.is_ok(), "expected order-only ghost to be rejected");
    assert!(report.errors[0].message.contains("ghost_in_order"));
}

#[test]
fn unknown_seam_boundary_errors() {
    let mut cfg = embedded_defaults();
    cfg.seams = seams(&[("backend-nonexistent", &["check1"])]);
    let layers = sample_layers();
    let report = validate_cross_references(&cfg, &layers);
    assert!(!report.is_ok());
    assert!(report.errors.iter().any(|e| e.field.starts_with("seams.")));
}

#[test]
fn known_seam_boundary_passes() {
    let mut cfg = embedded_defaults();
    cfg.seams = seams(&[("backend-frontend", &["check1"])]);
    let layers = sample_layers();
    let report = validate_cross_references(&cfg, &layers);
    assert!(report.is_ok(), "{:?}", report.errors);
}

#[test]
fn unknown_model_with_known_list_errors() {
    let mut cfg = embedded_defaults();
    cfg.defaults.model = "ghost".into();
    let report = validate_models(&cfg, Some(&["sonnet".into(), "opus".into()]));
    assert!(!report.is_ok());
    assert!(report.errors[0].message.contains("ghost"));
}

#[test]
fn unknown_model_without_list_warns() {
    let mut cfg = embedded_defaults();
    cfg.defaults.model = "ghost".into();
    let report = validate_models(&cfg, None);
    assert!(report.is_ok());
    assert_eq!(report.warnings.len(), 1);
}

#[test]
fn multiple_errors_collected() {
    let mut cfg = embedded_defaults();
    cfg.schema_version = "0.1".into();
    cfg.defaults.min_confidence = Decimal { mantissa: 20, scale: 1 };
    cfg.defaults.tier = 9;
    let report = validate_schema_only(&cfg);
    assert!(report.errors.len() >= 3);
}

// ─── Seam validation tests ──────────────────────────────────────────

#[test]
fn seam_validator_accepts_well_formed_boundary() {
    let mut cfg = embedded_defaults();
    cfg.seams = seams(&[("backend↔infrastructure", &["config_mismatch"])]);
    let report = validate_seams(&cfg, &sample_layers(), &sample_registry());
    assert!(report.is_ok(), "errors: {:?}", report.errors);
}

#[test]
fn seam_validator_rejects_missing_separator() {
    let mut cfg = embedded_defaults();
    cfg.seams = seams(&[("backendinfra", &["config_mismatch"])]);
    let report = validate_seams(&cfg, &sample_layers(), &sample_registry());
    assert!(!report.is_ok());
    assert!(report.errors[0].message.contains("'↔'"));
}

#[test]
fn seam_validator_rejects_self_boundary() {
    let mut cfg = embedded_defaults();
    cfg.seams = seams(&[("backend↔backend", &["config_mismatch"])]);
    let report = validate_seams(&cfg, &sample_layers(), &sample_registry());
    assert!(!report.is_ok());
    assert!(report.errors[0].message.contains("same layer"));
}

#[test]
fn seam_validator_rejects_unknown_layer() {
    let mut cfg = embedded_defaults();
    cfg.seams = seams(&[("ghost↔backend", &["config_mismatch"])]);
    let report = validate_seams(&cfg, &sample_layers(), &sample_registry());
    assert!(!report.is_ok());
    assert!(report.errors.iter().any(|e| e.message.contains("ghost")));
}

#[test]
fn seam_validator_rejects_unknown_check_id() {
    let mut cfg = embedded_defaults();
    cfg.seams = seams(&[("backend↔infrastructure", &["does_not_exist"])]);
    let report = validate_seams(&cfg, &sample_layers(), &sample_registry());
    assert!(!report.is_ok());
    assert!(report.errors[0].message.contains("unknown seam check id 'does_not_exist'"));
}

#[test]
fn seam_validator_rejects_duplicate_check_id_in_boundary() {
    let mut cfg = embedded_defaults();
    cfg.seams = seams(&[("backend↔infrastructure", &["config_mismatch", "config_mismatch"])]);
    let report = validate_seams(&cfg, &sample_layers(), &sample_registry());
    assert!(!report.is_ok());
    assert!(report.errors[0].message.contains("duplicate seam check id 'config_mismatch'"));
}

#[test]
fn seam_validator_rejects_inverted_duplicate_boundary() {
    let mut cfg = embedded_defaults();
    cfg.seams = seams(&[
        ("backend↔frontend", &["openapi_compliance"]),
        ("frontend↔backend", &["openapi_compliance"]),
    ]);
    let report = validate_seams(&cfg, &sample_layers(), &sample_registry());
    assert!(!report.is_ok());
    assert!(
        report.errors.iter().any(|e| e.message.contains("inverted duplicate")),
        "expected inverted duplicate error, got: {:?}",
        report.errors
    );
}

#[test]
fn seam_validator_rejects_check_that_does_not_apply() {
    let mut cfg = embedded_defaults();
    cfg.seams = seams(&[("backend↔frontend", &["config_mismatch"])]);
    let report = validate_seams(&cfg, &sample_layers(), &sample_registry());
    assert!(!report.is_ok());
    let err = report
        .errors
        .iter()
        .find(|e| e.message.contains("does not apply"))
        .unwrap_or_else(|| panic!("expected applies_to error, got: {:?}", report.errors));
    assert!(err.message.contains("config_mismatch"));
    assert!(err.message.contains("backend"));
    assert!(err.message.contains("frontend"));
}

#[test]
fn seam_validator_collects_all_errors() {
    let mut cfg = embedded_defaults();
    cfg.seams = seams(&[("ghost↔other_ghost", &["unknown_check", "unknown_check"])]);
    let report = validate_seams(&cfg, &sample_layers(), &sample_registry());
    assert!(!report.is_ok());
    assert!(
        report.errors.len() >= 3,
        "expected multiple errors collected, got {}: {:?}",
        report.errors.len(),
        report.errors
    );
}

#[test]
fn seam_validator_accepts_ascii_separator() {
    let mut cfg = embedded_defaults();
    cfg.seams = seams(&[("backend<->infrastructure", &["config_mismatch"])]);
    let report = validate_seams(&cfg, &sample_layers(), &sample_registry());
    assert!(report.is_ok(), "errors: {:?}", report.errors);
}

// ─── Further cases ──────────────────────────────────────────────────

#[test]
fn schema_messages_are_exact() {
    let mut cfg = embedded_defaults();
    cfg.schema_version = "0.1".into();
    cfg.defaults.min_confidence = Decimal { mantissa: 15, scale: 1 };
    cfg.defaults.tier = 0;
    cfg.defaults.budget_usd = Decimal { mantissa: -5, scale: 1 };
    cfg.defaults.max_passes = 0;
    let report = validate_schema_only(&cfg);
    let got: Vec<(String, String)> =
        report.errors.iter().map(|e| (e.field.clone(), e.message.clone())).collect();
    assert_eq!(
        got,
        vec![
            (
                "schema_version".to_string(),
                "schema_version \"0.1\" is not supported; expected \"0.2\"".to_string()
            ),
            (
                "defaults.min_confidence".to_string(),
                "min_confidence must be between 0 and 1; got 1.5".to_string()
            ),
            ("defaults.tier".to_string(), "tier must be 1, 2, or 3; got 0".to_string()),
            (
                "defaults.budget_usd".to_string(),
                "budget_usd must be non-negative; got -0.5".to_string()
            ),
            ("defaults.max_passes".to_string(), "max_passes must be ≥ 1".to_string()),
        ]
    );
}

#[test]
fn layer_override_ranges_checked() {
    let mut cfg = embedded_defaults();
    cfg.layer_overrides.insert(
        "backend".into(),
        LayerOverride {
            tier: Some(4),
            min_confidence: Some(Decimal { mantissa: -1, scale: 0 }),
            budget_usd: Some(Decimal { mantissa: -3, scale: 0 }),
            ..Default::default()
        },
    );
    let report = validate_schema_only(&cfg);
    let fields: Vec<&str> = report.errors.iter().map(|e| e.field.as_str()).collect();
    assert_eq!(
        fields,
        vec![
            "layer_overrides.backend.tier",
            "layer_overrides.backend.min_confidence",
            "layer_overrides.backend.budget_usd"
        ]
    );
    assert_eq!(report.errors[1].message, "min_confidence must be between 0 and 1; got -1");
}

#[test]
fn confidence_bounds_are_inclusive() {
    let mut cfg = embedded_defaults();
    cfg.defaults.min_confidence = Decimal { mantissa: 100, scale: 2 };
    assert!(validate_schema_only(&cfg).is_ok());
    cfg.defaults.min_confidence = Decimal { mantissa: 0, scale: 0 };
    assert!(validate_schema_only(&cfg).is_ok());
    cfg.defaults.min_confidence = Decimal { mantissa: 1001, scale: 3 };
    assert!(!validate_schema_only(&cfg).is_ok());
}

#[test]
fn layer_trigger_error_names_layer() {
    let mut cfg = embedded_defaults();
    cfg.layer_overrides.insert(
        "infrastructure".into(),
        LayerOverride { trigger: Some("tier >= ".into()), ..Default::default() },
    );
    let report = validate_triggers(&cfg);
    assert_eq!(report.errors.len(), 1);
    assert_eq!(report.errors[0].field, "layer_overrides.infrastructure.trigger");
}

#[test]
fn unknown_layer_message_lists_known_layers_sorted() {
    let mut cfg = embedded_defaults();
    cfg.layer_overrides.insert("ghost".into(), LayerOverride::default());
    let report = validate_cross_references(&cfg, &sample_layers());
    assert_eq!(report.errors[0].field, "layer_overrides.ghost");
    assert_eq!(
        report.errors[0].message,
        "unknown layer 'ghost'; known layers in .pice/layers.toml: backend, deployment, frontend, infrastructure"
    );
}

#[test]
fn model_override_checks() {
    let mut cfg = embedded_defaults();
    cfg.phases.evaluate.model_override.insert("ghost".into(), "opus".into());
    let report = validate_cross_references(&cfg, &sample_layers());
    assert_eq!(report.errors[0].field, "phases.evaluate.model_override.ghost");
    assert!(report.errors[0].message.contains("(set to 'opus')"));
    let models = validate_models(&cfg, Some(&["sonnet".into()]));
    assert_eq!(models.errors.len(), 1);
    assert_eq!(models.errors[0].message, "unknown model 'opus'; provider reports: sonnet");
}

#[test]
fn validate_all_without_layers_warns() {
    let cfg = embedded_defaults();
    let report = validate_all(&cfg, None, None, None);
    assert!(report.is_ok());
    assert_eq!(report.warnings.len(), 2);
    assert_eq!(report.warnings[0].field, "layers.toml");
    assert_eq!(report.warnings[1].field, "defaults.model");
}

#[test]
fn validate_all_without_registry_warns_about_seams() {
    let mut cfg = embedded_defaults();
    cfg.seams = seams(&[("backend↔frontend", &["openapi_compliance"])]);
    let report = validate_all(&cfg, Some(&sample_layers()), Some(&["sonnet".into()]), None);
    assert!(report.is_ok());
    assert_eq!(report.warnings.len(), 1);
    assert_eq!(report.warnings[0].field, "seams");
    let with_reg = validate_all(
        &cfg,
        Some(&sample_layers()),
        Some(&["sonnet".into()]),
        Some(&sample_registry()),
    );
    assert!(with_reg.is_ok());
    assert!(with_reg.warnings.is_empty());
}

#[test]
fn report_extend_appends() {
    let mut a = ValidationReport::default();
    let mut cfg = embedded_defaults();
    cfg.defaults.tier = 7;
    a.extend(validate_schema_only(&cfg));
    a.extend(validate_models(&cfg, None));
    assert_eq!(a.errors.len(), 1);
    assert_eq!(a.warnings.len(), 1);
    assert!(!a.is_ok());
}

#[test]
fn seam_name_too_long_rejected() {
    let long = "a".repeat(65);
    let key = format!("{long}↔backend");
    let mut cfg = embedded_defaults();
    cfg.seams = seams(&[(key.as_str(), &["config_mismatch"])]);
    let report = validate_seams(&cfg, &sample_layers(), &sample_registry());
    assert_eq!(report.errors.len(), 1);
    assert_eq!(report.errors[0].message, "boundary layer name exceeds 64 characters");
}

#[test]
fn max_parallelism_above_cap_warns() {
    let mut cfg = embedded_defaults();
    cfg.defaults.max_parallelism = Some(32);
    let r = validate_schema_only(&cfg);
    assert!(r.is_ok());
    assert_eq!(r.warnings.len(), 1);
    assert_eq!(r.warnings[0].field, "defaults.max_parallelism");
    assert_eq!(
        r.warnings[0].message,
        "max_parallelism 32 exceeds the hard cap of 16; it will be clamped to 16"
    );
    cfg.defaults.max_parallelism = Some(16);
    assert!(validate_schema_only(&cfg).warnings.is_empty());
}

#[test]
fn boundary_errors_carry_their_payload() {
    assert_eq!(
        LayerBoundary::parse("backendinfra"),
        Err(ParseBoundaryError::MissingSeparator("backendinfra".into()))
    );
    assert_eq!(
        LayerBoundary::parse("a↔b<->c"),
        Err(ParseBoundaryError::TooManySeparators("a↔b<->c".into()))
    );
    assert_eq!(LayerBoundary::parse("↔b"), Err(ParseBoundaryError::EmptySide("↔b".into())));
    assert_eq!(LayerBoundary::parse("x<->x"), Err(ParseBoundaryError::SelfBoundary("x".into())));
    let long = "n".repeat(65);
    assert_eq!(
        LayerBoundary::parse(&format!("a↔{long}")),
        Err(ParseBoundaryError::NameTooLong { name: long.clone(), limit: 64 })
    );
    assert_eq!(
        LayerBoundary::parse("z<->a"),
        Ok(LayerBoundary { a: "a".into(), b: "z".into() })
    );
}
