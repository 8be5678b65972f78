use pice_core::evaluation::{
    evaluation_exit_code, evaluation_report, mid_loop_persist_failures, seam_finding_rows,
    stack_passed, CheckStatus, LayerOutcome, ManifestStatus, SeamCheckResult,
};
use pice_core::gate::LayerStatus;

fn check(name: &str, boundary: &str, status: CheckStatus, category: Option<u8>) -> SeamCheckResult {
    SeamCheckResult {
        name: name.to_string(),
        boundary: boundary.to_string(),
        status,
        category,
        details: Some(format!("{} details", name)),
    }
}

fn layer(name: &str, status: LayerStatus, checks: Vec<SeamCheckResult>) -> LayerOutcome {
    LayerOutcome { name: name.to_string(), status, halted_by: None, seam_checks: checks }
}

#[test]
fn stack_passes_only_when_every_layer_passed_or_skipped() {
    let ok = vec![
        layer("backend", LayerStatus::Passed, vec![]),
        layer("docs", LayerStatus::Skipped, vec![]),
    ];
    assert!(stack_passed(&ok));
    assert_eq!(evaluation_exit_code(&ok), 0);
    let pending = vec![layer("backend", LayerStatus::Pending, vec![])];
    assert!(!stack_passed(&pending));
    assert_eq!(evaluation_exit_code(&pending), 0);
    let failed = vec![
        layer("backend", LayerStatus::Passed, vec![]),
        layer("frontend", LayerStatus::Failed, vec![]),
    ];
    assert!(!stack_passed(&failed));
    assert_eq!(evaluation_exit_code(&failed), 2);
    let seam_failed = vec![layer(
        "backend",
        LayerStatus::Passed,
        vec![check("schema_match", "backend<->database", CheckStatus::Failed, Some(1))],
    )];
    assert!(!stack_passed(&seam_failed));
    assert!(stack_passed(&Vec::new()));
}

#[test]
fn metrics_failures_that_halted_layers_are_collected() {
    let mut a = layer("backend", LayerStatus::Pending, vec![]);
    a.halted_by = Some("metrics_persist_failed: disk full".to_string());
    let mut b = layer("frontend", LayerStatus::Pending, vec![]);
    b.halted_by = Some("budget exhausted".to_string());
    let mut c = layer("infra", LayerStatus::Pending, vec![]);
    c.halted_by = Some("metrics_persist_failed:locked".to_string());
    let got = mid_loop_persist_failures(&vec![a, b, c]);
    assert_eq!(got, vec!["metrics_persist_failed: disk full", "metrics_persist_failed:locked"]);
    assert!(mid_loop_persist_failures(&vec![layer("x", LayerStatus::Passed, vec![])]).is_empty());
}

#[test]
fn seam_findings_are_recorded_once_per_boundary_check() {
    let layers = vec![
        layer(
            "backend",
            LayerStatus::Passed,
            vec![
                check("schema_match", "backend<->database", CheckStatus::Passed, Some(1)),
                check("skipped", "backend<->database", CheckStatus::Skipped, Some(2)),
                check("unregistered", "backend<->database", CheckStatus::Failed, None),
            ],
        ),
        layer(
            "database",
            LayerStatus::Failed,
            vec![
                check("schema_match", "backend<->database", CheckStatus::Failed, Some(1)),
                check("latency", "backend<->database", CheckStatus::Warning, Some(7)),
            ],
        ),
    ];
    let rows = seam_finding_rows(&layers);
    assert_eq!(rows.len(), 2);
    assert_eq!(rows[0].layer, "backend");
    assert_eq!(rows[0].check_id, "schema_match");
    assert_eq!(rows[0].status, "passed");
    assert_eq!(rows[0].category, 1);
    assert_eq!(rows[0].details, Some("schema_match details"));
    assert_eq!(rows[1].layer, "database");
    assert_eq!(rows[1].check_id, "latency");
    assert_eq!(rows[1].status, "warning");
    assert_eq!(rows[1].category, 7);
}

#[test]
fn evaluation_report_lists_layers_checks_and_totals() {
    let mut backend = layer(
        "backend",
        LayerStatus::Failed,
        vec![
            check("schema_match", "backend<->database", CheckStatus::Failed, Some(1)),
            check("latency", "backend<->database", CheckStatus::Warning, Some(7)),
            check("auth", "backend<->api", CheckStatus::Passed, Some(2)),
        ],
    );
    backend.halted_by = Some("seam check failed".to_string());
    let layers = vec![backend, layer("docs", LayerStatus::Skipped, vec![])];
    let expected = format!(
        "\nStack Loops Evaluation — 2 layers\n{}\n  [FAIL] backend — seam check failed\n    seam: 1/3 passed\n      ✗ schema_match (backend<->database): schema_match details\n      ! latency (backend<->database): latency details\n  [SKIP] docs\n\nSeam checks: 2/3 passed (1 failed)\n\nOverall: FAIL\n",
        "=".repeat(39)
    );
    assert_eq!(evaluation_report(&layers, ManifestStatus::Failed), expected);
    let quiet = vec![layer("backend", LayerStatus::Passed, vec![])];
    assert_eq!(
        evaluation_report(&quiet, ManifestStatus::Passed),
        format!("\nStack Loops Evaluation — 1 layers\n{}\n  [PASS] backend\n\nOverall: PASS\n", "=".repeat(39))
    );
    assert!(evaluation_report(&quiet, ManifestStatus::InProgress).ends_with("Overall: IN-PROGRESS\n"));
}

use pice_core::evaluation::{
    persist_refusal, plan_refusal, seam_refusal, validation_refusal, EvaluateRefusal, PlanLoad,
};
use pice_core::workflow::merge::FloorViolation;
use pice_core::workflow::validate::ValidationError;

#[test]
fn plan_problems_stop_the_evaluation() {
    let r = plan_refusal(&PlanLoad::Missing, "/p/plan.md").unwrap();
    assert_eq!((r.code, r.status), (1, EvaluateRefusal::PlanNotFound));
    assert_eq!(r.message, "plan file not found: /p/plan.md");
    let r = plan_refusal(&PlanLoad::Unparsable("bad yaml".to_string()), "/p/plan.md").unwrap();
    assert_eq!((r.code, r.status), (1, EvaluateRefusal::PlanParseFailed));
    assert_eq!(r.message, "failed to parse plan: bad yaml");
    let r = plan_refusal(&PlanLoad::NoContract, "/p/plan.md").unwrap();
    assert_eq!((r.code, r.status), (2, EvaluateRefusal::NoContractSection));
    assert_eq!(r.message, "no contract section found in /p/plan.md");
    assert!(plan_refusal(&PlanLoad::Ready, "/p/plan.md").is_none());
}

#[test]
fn workflow_and_seam_problems_stop_the_evaluation() {
    assert!(validation_refusal(&Vec::new()).is_none());
    let errors = vec![ValidationError {
        field: "defaults.tier".to_string(),
        message: "must be 1-3".to_string(),
        line: None,
        column: None,
    }];
    let r = validation_refusal(&errors).unwrap();
    assert_eq!((r.code, r.status), (1, EvaluateRefusal::WorkflowValidationFailed));
    assert_eq!(
        r.message,
        "workflow.yaml has validation errors:\n  - defaults.tier: must be 1-3\n\nRun `pice validate` for full details.\n"
    );
    assert!(seam_refusal(&Vec::new()).is_none());
    let vs = vec![FloorViolation {
        field: "seams.a<->b".to_string(),
        project: "[\"x\"]".to_string(),
        user: "[]".to_string(),
        reason: "cannot be empty".to_string(),
    }];
    let r = seam_refusal(&vs).unwrap();
    assert_eq!((r.code, r.status), (1, EvaluateRefusal::SeamFloorViolation));
    assert_eq!(
        r.message,
        "seam configuration floor violations:\n  - seams.a<->b: cannot be empty (project: [\"x\"], user: [])\n\nworkflow.yaml [seams] may REPLACE a layers.toml boundary's check list but cannot empty-list it. Omit the key to inherit the project list.\n"
    );
    let r = persist_refusal(&vec!["finalize_evaluation: locked".to_string()]);
    assert_eq!((r.code, r.status), (1, EvaluateRefusal::MetricsPersistFailed));
    assert_eq!(
        r.message,
        "evaluation halted: metrics persistence failed:\n  - finalize_evaluation: locked\n\nThe verification manifest is authoritative; the audit trail is incomplete. See daemon logs for the SQLite error.\n"
    );
}
