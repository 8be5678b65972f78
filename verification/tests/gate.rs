use pice_core::gate::{
    decide_exit_code, decide_transition, format_pending, list_pending, GateDecision, GateRow,
    GateStatus, LayerStatus,
};

#[test]
fn approve_and_skip_pass_the_layer() {
    let t = decide_transition(GateDecision::Approve, 2);
    assert_eq!(t.gate_status, GateStatus::Approved);
    assert_eq!(t.layer_status, LayerStatus::Passed);
    assert_eq!(t.reject_attempts_remaining, 2);
    assert!(!t.halted);
    let s = decide_transition(GateDecision::Skip, 0);
    assert_eq!(s.gate_status, GateStatus::Skipped);
    assert_eq!(s.layer_status, LayerStatus::Passed);
    assert_eq!(decide_exit_code(&s), 0);
}

#[test]
fn reject_spends_budget_then_halts() {
    let t = decide_transition(GateDecision::Reject, 1);
    assert_eq!(t.gate_status, GateStatus::Rejected);
    assert_eq!(t.layer_status, LayerStatus::Pending);
    assert_eq!(t.reject_attempts_remaining, 0);
    assert_eq!(decide_exit_code(&t), 0);
    let h = decide_transition(GateDecision::Reject, t.reject_attempts_remaining);
    assert_eq!(h.layer_status, LayerStatus::Failed);
    assert!(h.halted);
    assert_eq!(decide_exit_code(&h), 2);
}

fn row(id: &str, feature: &str, requested_at: &str, status: GateStatus) -> GateRow {
    GateRow {
        id: id.to_string(),
        feature_id: feature.to_string(),
        layer: "infrastructure".to_string(),
        trigger_expression: "layer == infrastructure".to_string(),
        requested_at: requested_at.to_string(),
        timeout_at: "2026-01-02T00:00:00Z".to_string(),
        reject_attempts_remaining: 1,
        status,
    }
}

#[test]
fn pending_gates_are_filtered_and_ordered_by_request_time() {
    let rows = vec![
        row("c", "feat", "2026-01-01T03:00:00Z", GateStatus::Pending),
        row("a", "feat", "2026-01-01T01:00:00Z", GateStatus::Pending),
        row("x", "feat", "2026-01-01T00:00:00Z", GateStatus::Approved),
        row("o", "other", "2026-01-01T02:00:00Z", GateStatus::Pending),
        row("b", "feat", "2026-01-01T03:00:00Z", GateStatus::Pending),
    ];
    let all: Vec<String> = list_pending(rows.clone(), None).into_iter().map(|g| g.id).collect();
    assert_eq!(all, vec!["a", "o", "c", "b"]);
    let feat: Vec<String> = list_pending(rows.clone(), Some("feat".to_string()))
        .into_iter()
        .map(|g| g.id)
        .collect();
    assert_eq!(feat, vec!["a", "c", "b"]);
    assert!(list_pending(rows, Some("none".to_string())).is_empty());
}

#[test]
fn pending_gate_listing_text() {
    assert_eq!(format_pending(&Vec::new()), "No pending review gates.\n");
    let gates = vec![row("feat:infrastructure:0001", "feat", "2026-01-01T00:00:00Z", GateStatus::Pending)];
    let expected = format!(
        "Pending review gates:\n\n  \u{23f8} {} (feature: {}, layer: {})\n      id: {}\n      trigger: {}\n      timeout_at: {}\n      reject budget: {}\n",
        "infrastructure", "feat", "infrastructure", "feat:infrastructure:0001",
        "layer == infrastructure", "2026-01-02T00:00:00Z", 1,
    );
    assert_eq!(format_pending(&gates), expected);
}

use pice_core::gate::{
    decide_step, failure_status, failure_text, AuditInsert, AuditRecord, DecideEvent,
    DecideFailure, DecideFailureStatus, DecideState,
};

fn start(d: GateDecision, text: &str) -> DecideState {
    DecideState::Locating { requested: d, requested_text: text.to_string() }
}

fn loaded(
    gate: Option<(GateStatus, u32)>,
    prior: Option<(AuditRecord, Option<GateDecision>)>,
    timeout: Option<(GateDecision, String)>,
) -> DecideEvent {
    DecideEvent::Loaded { gate, prior, timeout }
}

#[test]
fn decide_records_then_applies_the_transition() {
    let s = decide_step(start(GateDecision::Approve, "approve"), DecideEvent::Located(true));
    let s = decide_step(s, loaded(Some((GateStatus::Pending, 1)), None, None));
    assert_eq!(
        s,
        DecideState::Recording {
            outcome: GateDecision::Approve,
            outcome_text: "approve".to_string(),
            budget: 1
        }
    );
    let s = decide_step(s, DecideEvent::Inserted(AuditInsert::Written(7)));
    match s {
        DecideState::Decided { transition, outcome_text, audit_id } => {
            assert_eq!(transition, decide_transition(GateDecision::Approve, 1));
            assert_eq!(outcome_text, "approve");
            assert_eq!(audit_id, 7);
        }
        other => panic!("unexpected {:?}", other),
    }
}

#[test]
fn decide_reject_without_budget_halts() {
    let s = decide_step(start(GateDecision::Reject, "reject"), DecideEvent::Located(true));
    let s = decide_step(s, loaded(Some((GateStatus::Pending, 0)), None, None));
    let s = decide_step(s, DecideEvent::Inserted(AuditInsert::NoDatabase));
    match s {
        DecideState::Decided { transition, audit_id, .. } => {
            assert!(transition.halted);
            assert_eq!(decide_exit_code(&transition), 2);
            assert_eq!(audit_id, 0);
        }
        other => panic!("unexpected {:?}", other),
    }
}

#[test]
fn decide_refusals_and_their_messages() {
    let nf = decide_step(start(GateDecision::Approve, "approve"), DecideEvent::Located(false));
    assert_eq!(nf, DecideState::Failed(DecideFailure::NotFound));
    assert_eq!(failure_text("g1", &DecideFailure::NotFound), "no pending gate found with id 'g1'");

    let checking = decide_step(start(GateDecision::Approve, "approve"), DecideEvent::Located(true));
    let raced = decide_step(checking.clone(), loaded(None, None, None));
    assert_eq!(raced, DecideState::Failed(DecideFailure::Raced));
    assert_eq!(failure_text("g1", &DecideFailure::Raced), "gate 'g1' not present in manifest (race)");

    let done = decide_step(checking.clone(), loaded(Some((GateStatus::Approved, 1)), None, None));
    assert_eq!(done, DecideState::Failed(DecideFailure::AlreadyDecided(GateStatus::Approved)));
    assert_eq!(
        failure_text("g1", &DecideFailure::AlreadyDecided(GateStatus::Approved)),
        "gate 'g1' already decided (status: Approved)"
    );

    let prior = AuditRecord { decision: "reject".to_string(), id: 3 };
    let mismatch = decide_step(
        checking.clone(),
        loaded(Some((GateStatus::Pending, 1)), Some((prior.clone(), Some(GateDecision::Reject))), None),
    );
    let f = DecideFailure::PriorMismatch { prior: "reject".to_string(), requested: "approve".to_string() };
    assert_eq!(mismatch, DecideState::Failed(f.clone()));
    assert_eq!(
        failure_text("g1", &f),
        "gate 'g1' already decided as 'reject' by prior actor (requested: 'approve')"
    );
    assert_eq!(failure_status(&f), DecideFailureStatus::ReviewGateConflict);

    let odd = AuditRecord { decision: "maybe".to_string(), id: 4 };
    let unreadable =
        decide_step(checking, loaded(Some((GateStatus::Pending, 1)), Some((odd, None)), None));
    let f = DecideFailure::UnrecognizedAudit { prior: "maybe".to_string() };
    assert_eq!(unreadable, DecideState::Failed(f.clone()));
    assert_eq!(failure_text("g1", &f), "gate 'g1' has audit row with unrecognized decision 'maybe'");
}

#[test]
fn decide_recovers_a_matching_audit_row() {
    let checking = decide_step(start(GateDecision::Reject, "reject"), DecideEvent::Located(true));
    let prior = AuditRecord { decision: "reject".to_string(), id: 9 };
    let s = decide_step(
        checking,
        loaded(Some((GateStatus::Pending, 2)), Some((prior, Some(GateDecision::Reject))), None),
    );
    match s {
        DecideState::Decided { transition, outcome_text, audit_id } => {
            assert_eq!(transition.reject_attempts_remaining, 1);
            assert_eq!(outcome_text, "reject");
            assert_eq!(audit_id, 9);
        }
        other => panic!("unexpected {:?}", other),
    }
}

#[test]
fn decide_expired_timeout_overrides_the_request() {
    let checking = decide_step(start(GateDecision::Approve, "approve"), DecideEvent::Located(true));
    let s = decide_step(
        checking,
        loaded(Some((GateStatus::Pending, 0)), None, Some((GateDecision::Reject, "timeout_reject".to_string()))),
    );
    assert_eq!(
        s,
        DecideState::Recording {
            outcome: GateDecision::Reject,
            outcome_text: "timeout_reject".to_string(),
            budget: 0
        }
    );
}

#[test]
fn decide_audit_insert_races() {
    let recording = DecideState::Recording {
        outcome: GateDecision::Skip,
        outcome_text: "skip".to_string(),
        budget: 1,
    };
    let same = AuditRecord { decision: "skip".to_string(), id: 5 };
    match decide_step(recording.clone(), DecideEvent::Inserted(AuditInsert::Duplicate(Some(same)))) {
        DecideState::Decided { audit_id, .. } => assert_eq!(audit_id, 5),
        other => panic!("unexpected {:?}", other),
    }
    let other = AuditRecord { decision: "approve".to_string(), id: 6 };
    let f = DecideFailure::ConcurrentMismatch { prior: "approve".to_string(), requested: "skip".to_string() };
    assert_eq!(
        decide_step(recording.clone(), DecideEvent::Inserted(AuditInsert::Duplicate(Some(other)))),
        DecideState::Failed(f.clone())
    );
    assert_eq!(
        failure_text("g2", &f),
        "gate 'g2' already decided as 'approve' by concurrent actor (requested: 'skip')"
    );
    assert_eq!(
        decide_step(recording.clone(), DecideEvent::Inserted(AuditInsert::Duplicate(None))),
        DecideState::Failed(DecideFailure::RowMissing)
    );
    assert_eq!(
        failure_text("g2", &DecideFailure::RowMissing),
        "gate 'g2' UNIQUE violated but row not found on re-read"
    );
    let f = DecideFailure::PersistFailed { error: "disk full".to_string() };
    assert_eq!(
        decide_step(recording.clone(), DecideEvent::Inserted(AuditInsert::Error("disk full".to_string()))),
        DecideState::Failed(f.clone())
    );
    assert_eq!(failure_text("g2", &f), "failed to write gate audit row: disk full");
    assert_eq!(failure_status(&f), DecideFailureStatus::MetricsPersistFailed);
    // An event that does not belong to the state leaves it unchanged.
    assert_eq!(decide_step(recording.clone(), DecideEvent::Located(true)), recording);
}

#[test]
fn decided_report_text() {
    let t = decide_transition(GateDecision::Reject, 1);
    let text = pice_core::gate::decided_report(
        "reject",
        "feat:infrastructure:0001",
        "infrastructure",
        &t,
        pice_core::evaluation::ManifestStatus::InProgress,
    );
    assert_eq!(
        text,
        "Decision 'reject' recorded for gate feat:infrastructure:0001\nLayer: infrastructure → Pending\nManifest: InProgress\nReject budget remaining: 0\n"
    );
}
