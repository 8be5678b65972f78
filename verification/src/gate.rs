//! How a decision on a pending gate changes its status, its layer's status
//! and the number of rejections the layer may still take.
use crate::text::{
    chars_to_string, nat_text, push_str, push_u64_text, str_eq, str_to_chars, string_of,
};
use crate::evaluation::ManifestStatus;
use vstd::prelude::*;

verus! {

/// The decision taken on a pending gate.
#[derive(Clone, Copy, Debug, PartialEq, Eq, Structural)]
pub enum GateDecision {
    Approve,
    Reject,
    Skip,
}

/// The state of a gate.
#[derive(Clone, Copy, Debug, PartialEq, Eq, Structural)]
pub enum GateStatus {
    Pending,
    Approved,
    Rejected,
    Skipped,
}

/// The state of a layer in the verification manifest.
#[derive(Clone, Copy, Debug, PartialEq, Eq, Structural)]
pub enum LayerStatus {
    Pending,
    InProgress,
    Passed,
    Failed,
    Skipped,
}

/// The effect of one decision.
#[derive(Clone, Copy, Debug, PartialEq, Eq, Structural)]
pub struct GateTransition {
    pub gate_status: GateStatus,
    pub layer_status: LayerStatus,
    pub reject_attempts_remaining: u32,
    /// The feature halts: a rejection with no retries left.
    pub halted: bool,
}

/// Approve and skip pass the layer and keep the budget; a rejection with
/// budget left sends the layer back to pending and spends one retry; a
/// rejection with none left fails the layer and halts the feature.
pub open spec fn gate_transition(decision: GateDecision, budget: u32) -> GateTransition {
    match decision {
        GateDecision::Approve => GateTransition {
            gate_status: GateStatus::Approved,
            layer_status: LayerStatus::Passed,
            reject_attempts_remaining: budget,
            halted: false,
        },
        GateDecision::Skip => GateTransition {
            gate_status: GateStatus::Skipped,
            layer_status: LayerStatus::Passed,
            reject_attempts_remaining: budget,
            halted: false,
        },
        GateDecision::Reject => if budget > 0 {
            GateTransition {
                gate_status: GateStatus::Rejected,
                layer_status: LayerStatus::Pending,
                reject_attempts_remaining: (budget - 1) as u32,
                halted: false,
            }
        } else {
            GateTransition {
                gate_status: GateStatus::Rejected,
                layer_status: LayerStatus::Failed,
                reject_attempts_remaining: 0,
                halted: true,
            }
        },
    }
}

/// The effect of `decision` on a gate whose layer has `reject_budget`
/// retries left.
pub fn decide_transition(decision: GateDecision, reject_budget: u32) -> (t: GateTransition)
    ensures
        t == gate_transition(decision, reject_budget),
{
    match decision {
        GateDecision::Approve => GateTransition {
            gate_status: GateStatus::Approved,
            layer_status: LayerStatus::Passed,
            reject_attempts_remaining: reject_budget,
            halted: false,
        },
        GateDecision::Skip => GateTransition {
            gate_status: GateStatus::Skipped,
            layer_status: LayerStatus::Passed,
            reject_attempts_remaining: reject_budget,
            halted: false,
        },
        GateDecision::Reject => {
            if reject_budget > 0 {
                GateTransition {
                    gate_status: GateStatus::Rejected,
                    layer_status: LayerStatus::Pending,
                    reject_attempts_remaining: reject_budget - 1,
                    halted: false,
                }
            } else {
                GateTransition {
                    gate_status: GateStatus::Rejected,
                    layer_status: LayerStatus::Failed,
                    reject_attempts_remaining: 0,
                    halted: true,
                }
            }
        },
    }
}

/// The process exit code after a decision: 2 when the feature halted,
/// else 0.
pub fn decide_exit_code(t: &GateTransition) -> (code: i32)
    ensures
        code == (if t.halted {
            2i32
        } else {
            0i32
        }),
{
    if t.halted {
        2
    } else {
        0
    }
}

/// A run of rejections: starting from `budget` retries, each rejection
/// spends one until none is left, and the rejection after that (and only
/// that one) halts the feature. The budget never rises.
pub proof fn lemma_reject_budget(budget: u32)
    ensures
        gate_transition(GateDecision::Reject, budget).reject_attempts_remaining <= budget,
        budget > 0 ==> gate_transition(GateDecision::Reject, budget).reject_attempts_remaining
            == budget - 1 && !gate_transition(GateDecision::Reject, budget).halted,
        gate_transition(GateDecision::Reject, budget).halted <==> budget == 0,
        gate_transition(GateDecision::Reject, budget).halted ==> gate_transition(
            GateDecision::Reject,
            budget,
        ).layer_status == LayerStatus::Failed,
{
}

/// Only a rejection fails or re-opens the layer; approve and skip pass it
/// and leave the reject budget as it was.
pub proof fn lemma_non_reject_passes(decision: GateDecision, budget: u32)
    requires
        decision != GateDecision::Reject,
    ensures
        gate_transition(decision, budget).layer_status == LayerStatus::Passed,
        gate_transition(decision, budget).reject_attempts_remaining == budget,
        !gate_transition(decision, budget).halted,
{
}

// ─── Pending gates ─────────────────────────────────────────────────────────

/// A gate as the pending list reads it, with the feature it belongs to.
#[derive(Clone, Debug, PartialEq, Eq)]
pub struct GateRow {
    pub id: String,
    pub feature_id: String,
    pub layer: String,
    pub trigger_expression: String,
    /// RFC 3339 time of the request; the list is ordered by this text.
    pub requested_at: String,
    pub timeout_at: String,
    pub reject_attempts_remaining: u32,
    pub status: GateStatus,
}

/// `a` sorts strictly before `b`: the first differing character decides,
/// and a proper prefix comes first (the order of `String`, since UTF-8
/// bytes sort as the code points they encode).
pub open spec fn text_lt(a: Seq<char>, b: Seq<char>) -> bool
    decreases a.len(),
{
    if b.len() == 0 {
        false
    } else if a.len() == 0 {
        true
    } else if a[0] != b[0] {
        a[0] < b[0]
    } else {
        text_lt(a.drop_first(), b.drop_first())
    }
}

/// A gate is listed when it is pending and, with a feature filter, belongs
/// to that feature.
pub open spec fn is_listed(g: GateRow, feature: Option<Seq<char>>) -> bool {
    &&& g.status == GateStatus::Pending
    &&& match feature {
        Some(f) => g.feature_id@ == f,
        None => true,
    }
}

/// Where a gate requested at `key` goes in `s`: after every entry that
/// does not sort after it, so that equal request times keep their order.
pub open spec fn insert_pos(s: Seq<GateRow>, key: Seq<char>) -> nat
    decreases s.len(),
{
    if s.len() == 0 {
        0
    } else if text_lt(key, s.last().requested_at@) {
        insert_pos(s.drop_last(), key)
    } else {
        s.len()
    }
}

/// The listed gates of `rows`, stably ordered by request time.
pub open spec fn pending_sorted(rows: Seq<GateRow>, feature: Option<Seq<char>>) -> Seq<GateRow>
    decreases rows.len(),
{
    if rows.len() == 0 {
        Seq::empty()
    } else {
        let rest = pending_sorted(rows.drop_last(), feature);
        let g = rows.last();
        if is_listed(g, feature) {
            rest.insert(insert_pos(rest, g.requested_at@) as int, g)
        } else {
            rest
        }
    }
}

pub open spec fn option_text(o: Option<String>) -> Option<Seq<char>> {
    match o {
        Some(s) => Some(s@),
        None => None,
    }
}


proof fn lemma_text_lt_irreflexive(a: Seq<char>)
    ensures
        !text_lt(a, a),
    decreases a.len(),
{
    if a.len() > 0 {
        lemma_text_lt_irreflexive(a.drop_first());
    }
}

proof fn lemma_text_lt_transitive(a: Seq<char>, b: Seq<char>, c: Seq<char>)
    requires
        text_lt(a, b),
        text_lt(b, c),
    ensures
        text_lt(a, c),
    decreases a.len(),
{
    if a.len() > 0 && a[0] == b[0] && b[0] == c[0] {
        lemma_text_lt_transitive(a.drop_first(), b.drop_first(), c.drop_first());
    }
}

proof fn lemma_text_lt_total(a: Seq<char>, b: Seq<char>)
    requires
        a != b,
    ensures
        text_lt(a, b) || text_lt(b, a),
    decreases a.len(),
{
    if a.len() > 0 && b.len() > 0 && a[0] == b[0] {
        if a.drop_first() == b.drop_first() {
            assert(a =~= seq![a[0]] + a.drop_first());
            assert(b =~= seq![b[0]] + b.drop_first());
        }
        lemma_text_lt_total(a.drop_first(), b.drop_first());
    } else if a.len() == 0 && b.len() == 0 {
        assert(a =~= b);
    }
}

/// `a` does not sort after `b`, and `b` not after `c`: then `a` does not
/// sort after `c`.
proof fn lemma_text_le_transitive(a: Seq<char>, b: Seq<char>, c: Seq<char>)
    requires
        !text_lt(b, a),
        !text_lt(c, b),
    ensures
        !text_lt(c, a),
{
    if text_lt(c, a) {
        if a != b {
            lemma_text_lt_total(a, b);
            lemma_text_lt_transitive(c, a, b);
        }
    }
}

/// No entry of `s` sorts before an earlier one.
pub open spec fn ordered_by_request(s: Seq<GateRow>) -> bool {
    forall|i: int, j: int|
        0 <= i < j < s.len() ==> !text_lt(#[trigger] s[j].requested_at@, #[trigger] s[i].requested_at@)
}

proof fn lemma_insert_pos(s: Seq<GateRow>, key: Seq<char>)
    ensures
        insert_pos(s, key) <= s.len(),
        forall|i: int| insert_pos(s, key) <= i < s.len() ==> text_lt(key, #[trigger] s[i].requested_at@),
        insert_pos(s, key) > 0 ==> !text_lt(key, s[insert_pos(s, key) - 1].requested_at@),
    decreases s.len(),
{
    if s.len() > 0 && text_lt(key, s.last().requested_at@) {
        let t = s.drop_last();
        lemma_insert_pos(t, key);
        assert forall|i: int| insert_pos(s, key) <= i < s.len() implies text_lt(
            key,
            #[trigger] s[i].requested_at@,
        ) by {
            if i < t.len() {
                assert(s[i] == t[i]);
            }
        }
        if insert_pos(s, key) > 0 {
            assert(s[insert_pos(s, key) - 1] == t[insert_pos(t, key) - 1]);
        }
    }
}

proof fn lemma_insert_keeps_order(s: Seq<GateRow>, g: GateRow)
    requires
        ordered_by_request(s),
    ensures
        ordered_by_request(s.insert(insert_pos(s, g.requested_at@) as int, g)),
{
    let key = g.requested_at@;
    let p = insert_pos(s, key) as int;
    lemma_insert_pos(s, key);
    let r = s.insert(p, g);
    assert forall|i: int, j: int| 0 <= i < j < r.len() implies !text_lt(
        #[trigger] r[j].requested_at@,
        #[trigger] r[i].requested_at@,
    ) by {
        if j == p {
            assert(!text_lt(key, s[p - 1].requested_at@));
            if i < p - 1 {
                lemma_text_le_transitive(s[i].requested_at@, s[p - 1].requested_at@, key);
            }
        } else if i == p {
            assert(text_lt(key, s[j - 1].requested_at@));
            if text_lt(s[j - 1].requested_at@, key) {
                lemma_text_lt_transitive(key, s[j - 1].requested_at@, key);
                lemma_text_lt_irreflexive(key);
            }
        } else {
            let si = if i < p { i } else { i - 1 };
            let sj = if j < p { j } else { j - 1 };
            assert(r[i] == s[si] && r[j] == s[sj]);
        }
    }
}

/// The pending list is ordered by request time and holds only pending gates
/// (of the requested feature), each one taken from `rows`.
pub proof fn lemma_pending_sorted_ordered(rows: Seq<GateRow>, feature: Option<Seq<char>>)
    ensures
        ordered_by_request(pending_sorted(rows, feature)),
        forall|i: int|
            0 <= i < pending_sorted(rows, feature).len() ==> is_listed(
                #[trigger] pending_sorted(rows, feature)[i],
                feature,
            ) && rows.contains(pending_sorted(rows, feature)[i]),
    decreases rows.len(),
{
    if rows.len() > 0 {
        let rest = pending_sorted(rows.drop_last(), feature);
        lemma_pending_sorted_ordered(rows.drop_last(), feature);
        let g = rows.last();
        assert forall|i: int| 0 <= i < rest.len() implies rows.contains(#[trigger] rest[i]) by {
            let k = choose|k: int| 0 <= k < rows.drop_last().len() && rows.drop_last()[k] == rest[i];
            assert(rows[k] == rest[i]);
        }
        assert(rows[rows.len() - 1] == g);
        if is_listed(g, feature) {
            lemma_insert_keeps_order(rest, g);
            lemma_insert_pos(rest, g.requested_at@);
        }
    }
}

/// A decision is recorded as itself: approving marks a gate approved,
/// skipping skipped, rejecting rejected — whatever the budget.
pub proof fn lemma_decision_recorded(budget: u32)
    ensures
        gate_transition(GateDecision::Approve, budget).gate_status == GateStatus::Approved,
        gate_transition(GateDecision::Skip, budget).gate_status == GateStatus::Skipped,
        gate_transition(GateDecision::Reject, budget).gate_status == GateStatus::Rejected,
{
}

/// The number of gates of `rows` the pending list shows.
pub open spec fn listed_count(rows: Seq<GateRow>, feature: Option<Seq<char>>) -> nat
    decreases rows.len(),
{
    if rows.len() == 0 {
        0
    } else {
        listed_count(rows.drop_last(), feature) + if is_listed(rows.last(), feature) {
            1nat
        } else {
            0nat
        }
    }
}

/// Every pending gate (of the asked feature) is listed: the list is as
/// long as the number of such gates among `rows`, and each of them is in it.
pub proof fn lemma_pending_list_complete(rows: Seq<GateRow>, feature: Option<Seq<char>>)
    ensures
        pending_sorted(rows, feature).len() == listed_count(rows, feature),
        forall|i: int|
            0 <= i < rows.len() && is_listed(#[trigger] rows[i], feature) ==> pending_sorted(
                rows,
                feature,
            ).contains(rows[i]),
    decreases rows.len(),
{
    if rows.len() > 0 {
        let d = rows.drop_last();
        lemma_pending_list_complete(d, feature);
        let rest = pending_sorted(d, feature);
        let g = rows.last();
        if is_listed(g, feature) {
            lemma_insert_pos(rest, g.requested_at@);
            let p = insert_pos(rest, g.requested_at@) as int;
            let r = rest.insert(p, g);
            assert(r[p] == g);
            assert forall|i: int| 0 <= i < rows.len() && is_listed(#[trigger] rows[i], feature) implies r.contains(rows[i]) by {
                if i < d.len() {
                    assert(d[i] == rows[i]);
                    let k = choose|k: int| 0 <= k < rest.len() && rest[k] == d[i];
                    if k < p {
                        assert(r[k] == rest[k]);
                    } else {
                        assert(r[k + 1] == rest[k]);
                    }
                }
            }
        } else {
            assert forall|i: int| 0 <= i < rows.len() && is_listed(#[trigger] rows[i], feature) implies rest.contains(rows[i]) by {
                assert(i < d.len());
                assert(d[i] == rows[i]);
            }
        }
    }
}

fn chars_lt(a: &Vec<char>, b: &Vec<char>) -> (r: bool)
    ensures
        r == text_lt(a@, b@),
{
    let mut i: usize = 0;
    assert(a@.skip(0) =~= a@);
    assert(b@.skip(0) =~= b@);
    while i < a.len() && i < b.len() && a[i] == b[i]
        invariant
            i <= a@.len(),
            i <= b@.len(),
            text_lt(a@, b@) == text_lt(a@.skip(i as int), b@.skip(i as int)),
        decreases a@.len() - i,
    {
        assert(a@.skip(i as int).drop_first() =~= a@.skip(i + 1));
        assert(b@.skip(i as int).drop_first() =~= b@.skip(i + 1));
        i = i + 1;
    }
    if i == b.len() {
        false
    } else if i == a.len() {
        true
    } else {
        a[i] < b[i]
    }
}

/// The pending gates of `rows` (of `feature` alone when one is given),
/// ordered by request time; gates requested at the same time keep their
/// order.
pub fn list_pending(rows: Vec<GateRow>, feature: Option<String>) -> (r: Vec<GateRow>)
    ensures
        r@ == pending_sorted(rows@, option_text(feature)),
{
    let ghost orig = rows@;
    let ghost fv = option_text(feature);
    let mut rest = rows;
    let mut out: Vec<GateRow> = Vec::new();
    let n = rest.len();
    let mut k: usize = 0;
    while k < n
        invariant
            n == orig.len(),
            k <= n,
            rest@ == orig.skip(k as int),
            out@ == pending_sorted(orig.take(k as int), fv),
            fv == option_text(feature),
        decreases n - k,
    {
        let g = rest.remove(0);
        assert(orig.take(k + 1).drop_last() =~= orig.take(k as int));
        assert(orig.skip(k as int).remove(0) =~= orig.skip(k + 1));
        let keep = match &feature {
            Some(f) => g.status == GateStatus::Pending && str_eq(g.feature_id.as_str(), f.as_str()),
            None => g.status == GateStatus::Pending,
        };
        if keep {
            let key = str_to_chars(g.requested_at.as_str());
            let ghost o = out@;
            let mut j: usize = out.len();
            assert(o.take(o.len() as int) =~= o);
            while j > 0
                invariant
                    j <= o.len(),
                    out@ == o,
                    key@ == g.requested_at@,
                    insert_pos(o, key@) == insert_pos(o.take(j as int), key@),
                ensures
                    j == insert_pos(o, key@),
                decreases j,
            {
                let other = str_to_chars(out[j - 1].requested_at.as_str());
                assert(o.take(j as int).last() == o[j - 1]);
                assert(o.take(j as int).drop_last() =~= o.take(j - 1));
                if !chars_lt(&key, &other) {
                    break;
                }
                j = j - 1;
            }
            assert(is_listed(g, fv));
            out.insert(j, g);
            assert(out@ == pending_sorted(orig.take(k + 1), fv));
        } else {
            assert(!is_listed(g, fv));
        }
        k = k + 1;
    }
    assert(orig.take(n as int) =~= orig);
    out
}

/// One entry of the pending-gate listing.
pub open spec fn pending_entry_text(g: GateRow) -> Seq<char> {
    "  \u{23f8} "@ + g.layer@ + " (feature: "@ + g.feature_id@ + ", layer: "@ + g.layer@
        + ")\n      id: "@ + g.id@ + "\n      trigger: "@ + g.trigger_expression@
        + "\n      timeout_at: "@ + g.timeout_at@ + "\n      reject budget: "@ + nat_text(
        g.reject_attempts_remaining as nat,
    ) + "\n"@
}

pub open spec fn pending_entries_text(gs: Seq<GateRow>) -> Seq<char>
    decreases gs.len(),
{
    if gs.len() == 0 {
        Seq::empty()
    } else {
        pending_entries_text(gs.drop_last()) + pending_entry_text(gs.last())
    }
}

/// The text listing of pending gates.
pub open spec fn pending_list_text(gs: Seq<GateRow>) -> Seq<char> {
    if gs.len() == 0 {
        "No pending review gates.\n"@
    } else {
        "Pending review gates:\n\n"@ + pending_entries_text(gs)
    }
}

/// The text listing of `gates`, one entry each, in the order given.
pub fn format_pending(gates: &Vec<GateRow>) -> (s: String)
    ensures
        s@ == pending_list_text(gates@),
{
    if gates.len() == 0 {
        return string_of("No pending review gates.\n");
    }
    let mut v: Vec<char> = Vec::new();
    push_str(&mut v, "Pending review gates:\n\n");
    let ghost head = v@;
    let mut i: usize = 0;
    while i < gates.len()
        invariant
            i <= gates@.len(),
            v@ == head + pending_entries_text(gates@.take(i as int)),
        decreases gates@.len() - i,
    {
        let g = &gates[i];
        let ghost before = v@;
        push_str(&mut v, "  \u{23f8} ");
        push_str(&mut v, g.layer.as_str());
        push_str(&mut v, " (feature: ");
        push_str(&mut v, g.feature_id.as_str());
        push_str(&mut v, ", layer: ");
        push_str(&mut v, g.layer.as_str());
        push_str(&mut v, ")\n      id: ");
        push_str(&mut v, g.id.as_str());
        push_str(&mut v, "\n      trigger: ");
        push_str(&mut v, g.trigger_expression.as_str());
        push_str(&mut v, "\n      timeout_at: ");
        push_str(&mut v, g.timeout_at.as_str());
        push_str(&mut v, "\n      reject budget: ");
        push_u64_text(&mut v, g.reject_attempts_remaining as u64);
        push_str(&mut v, "\n");
        assert(v@ =~= before + pending_entry_text(*g));
        assert(gates@.take(i + 1).drop_last() =~= gates@.take(i as int));
        i = i + 1;
    }
    assert(gates@.take(gates@.len() as int) =~= gates@);
    chars_to_string(v.as_slice())
}

// ─── Deciding a gate ───────────────────────────────────────────────────────

/// An audit row already recorded for a gate.
#[derive(Clone, Debug, PartialEq, Eq)]
pub struct AuditRecord {
    /// The decision as the audit log spells it.
    pub decision: String,
    pub id: i64,
}

/// Why a decision on a gate was refused.
#[derive(Clone, Debug, PartialEq, Eq)]
pub enum DecideFailure {
    /// No manifest of the project holds a gate with that id.
    NotFound,
    /// That id left the manifest between the scan and the locked reload.
    Raced,
    /// This gate is no longer pending.
    AlreadyDecided(GateStatus),
    /// An earlier decision is in the audit log and differs from this one.
    PriorMismatch { prior: String, requested: String },
    /// The audit log holds a decision this version cannot read.
    UnrecognizedAudit { prior: String },
    /// A concurrent decision won the audit insert and differs from this one.
    ConcurrentMismatch { prior: String, requested: String },
    /// The audit insert hit the unique gate id, but no row was found after.
    RowMissing,
    /// Writing the audit row failed.
    PersistFailed { error: String },
}

/// Where a decision on a gate stands. Each state names the work the
/// daemon does next and the event it reports back.
#[derive(Clone, Debug, PartialEq, Eq)]
pub enum DecideState {
    /// Find the manifest that holds this gate; report `Located`.
    Locating { requested: GateDecision, requested_text: String },
    /// Lock and reload the manifest, read this gate, the audit log and its
    /// timeout; report `Loaded`.
    Checking { requested: GateDecision, requested_text: String },
    /// Write the audit row for this outcome; report `Inserted`.
    Recording { outcome: GateDecision, outcome_text: String, budget: u32 },
    /// Apply the transition to the manifest, save it and answer.
    Decided { transition: GateTransition, outcome_text: String, audit_id: i64 },
    /// Answer with the failure (exit code 1).
    Failed(DecideFailure),
}

/// What the audit insert came to.
#[derive(Clone, Debug, PartialEq, Eq)]
pub enum AuditInsert {
    Written(i64),
    /// The project has no metrics database; nothing is recorded.
    NoDatabase,
    /// That gate id was already taken; the row read back after, if any.
    Duplicate(Option<AuditRecord>),
    Error(String),
}

/// What the daemon reports after doing the work its state names.
#[derive(Clone, Debug, PartialEq, Eq)]
pub enum DecideEvent {
    Located(bool),
    Loaded {
        /// This gate's status and reject budget, if the reloaded manifest
        /// still holds it.
        gate: Option<(GateStatus, u32)>,
        /// The audit row already recorded for this gate, and the decision it
        /// reads as (`None` when unreadable).
        prior: Option<(AuditRecord, Option<GateDecision>)>,
        /// The outcome this gate's timeout imposes, when it has expired.
        timeout: Option<(GateDecision, String)>,
    },
    Inserted(AuditInsert),
}

/// One step of deciding a gate. A gate that is gone or no longer pending
/// is refused; an audit row already recorded completes the decision it
/// holds when it matches the request (crash recovery) and is refused
/// otherwise; an expired timeout decides in place of the request; a lost
/// race on the audit insert completes the winner's decision when it
/// matches. An event that does not belong to the state leaves it as it is.
pub open spec fn decide_next(state: DecideState, event: DecideEvent) -> DecideState {
    match (state, event) {
        (DecideState::Locating { requested, requested_text }, DecideEvent::Located(found)) => {
            if found {
                DecideState::Checking { requested, requested_text }
            } else {
                DecideState::Failed(DecideFailure::NotFound)
            }
        },
        (
            DecideState::Checking { requested, requested_text },
            DecideEvent::Loaded { gate, prior, timeout },
        ) => match gate {
            None => DecideState::Failed(DecideFailure::Raced),
            Some((status, budget)) => if status != GateStatus::Pending {
                DecideState::Failed(DecideFailure::AlreadyDecided(status))
            } else {
                match prior {
                    Some((record, Some(recovered))) => if record.decision@ != requested_text@ {
                        DecideState::Failed(
                            DecideFailure::PriorMismatch {
                                prior: record.decision,
                                requested: requested_text,
                            },
                        )
                    } else {
                        DecideState::Decided {
                            transition: gate_transition(recovered, budget),
                            outcome_text: record.decision,
                            audit_id: record.id,
                        }
                    },
                    Some((record, None)) => DecideState::Failed(
                        DecideFailure::UnrecognizedAudit { prior: record.decision },
                    ),
                    None => match timeout {
                        Some((d, text)) => DecideState::Recording {
                            outcome: d,
                            outcome_text: text,
                            budget,
                        },
                        None => DecideState::Recording {
                            outcome: requested,
                            outcome_text: requested_text,
                            budget,
                        },
                    },
                }
            },
        },
        (
            DecideState::Recording { outcome, outcome_text, budget },
            DecideEvent::Inserted(result),
        ) => match result {
            AuditInsert::Written(id) => DecideState::Decided {
                transition: gate_transition(outcome, budget),
                outcome_text,
                audit_id: id,
            },
            AuditInsert::NoDatabase => DecideState::Decided {
                transition: gate_transition(outcome, budget),
                outcome_text,
                audit_id: 0,
            },
            AuditInsert::Duplicate(Some(winner)) => if winner.decision@ != outcome_text@ {
                DecideState::Failed(
                    DecideFailure::ConcurrentMismatch {
                        prior: winner.decision,
                        requested: outcome_text,
                    },
                )
            } else {
                DecideState::Decided {
                    transition: gate_transition(outcome, budget),
                    outcome_text,
                    audit_id: winner.id,
                }
            },
            AuditInsert::Duplicate(None) => DecideState::Failed(DecideFailure::RowMissing),
            AuditInsert::Error(e) => DecideState::Failed(DecideFailure::PersistFailed { error: e }),
        },
        (state, _) => state,
    }
}

/// Advance a gate decision by one event.
pub fn decide_step(state: DecideState, event: DecideEvent) -> (r: DecideState)
    ensures
        r == decide_next(state, event),
{
    match state {
        DecideState::Locating { requested, requested_text } => match event {
            DecideEvent::Located(found) => {
                if found {
                    DecideState::Checking { requested, requested_text }
                } else {
                    DecideState::Failed(DecideFailure::NotFound)
                }
            },
            _ => DecideState::Locating { requested, requested_text },
        },
        DecideState::Checking { requested, requested_text } => match event {
            DecideEvent::Loaded { gate, prior, timeout } => match gate {
                None => DecideState::Failed(DecideFailure::Raced),
                Some((status, budget)) => {
                    if status != GateStatus::Pending {
                        DecideState::Failed(DecideFailure::AlreadyDecided(status))
                    } else {
                        match prior {
                            Some((record, Some(recovered))) => {
                                if !str_eq(record.decision.as_str(), requested_text.as_str()) {
                                    DecideState::Failed(
                                        DecideFailure::PriorMismatch {
                                            prior: record.decision,
                                            requested: requested_text,
                                        },
                                    )
                                } else {
                                    DecideState::Decided {
                                        transition: decide_transition(recovered, budget),
                                        outcome_text: record.decision,
                                        audit_id: record.id,
                                    }
                                }
                            },
                            Some((record, None)) => DecideState::Failed(
                                DecideFailure::UnrecognizedAudit { prior: record.decision },
                            ),
                            None => match timeout {
                                Some((d, text)) => DecideState::Recording {
                                    outcome: d,
                                    outcome_text: text,
                                    budget,
                                },
                                None => DecideState::Recording {
                                    outcome: requested,
                                    outcome_text: requested_text,
                                    budget,
                                },
                            },
                        }
                    }
                },
            },
            _ => DecideState::Checking { requested, requested_text },
        },
        DecideState::Recording { outcome, outcome_text, budget } => match event {
            DecideEvent::Inserted(result) => match result {
                AuditInsert::Written(id) => DecideState::Decided {
                    transition: decide_transition(outcome, budget),
                    outcome_text,
                    audit_id: id,
                },
                AuditInsert::NoDatabase => DecideState::Decided {
                    transition: decide_transition(outcome, budget),
                    outcome_text,
                    audit_id: 0,
                },
                AuditInsert::Duplicate(Some(winner)) => {
                    if !str_eq(winner.decision.as_str(), outcome_text.as_str()) {
                        DecideState::Failed(
                            DecideFailure::ConcurrentMismatch {
                                prior: winner.decision,
                                requested: outcome_text,
                            },
                        )
                    } else {
                        DecideState::Decided {
                            transition: decide_transition(outcome, budget),
                            outcome_text,
                            audit_id: winner.id,
                        }
                    }
                },
                AuditInsert::Duplicate(None) => DecideState::Failed(DecideFailure::RowMissing),
                AuditInsert::Error(e) => DecideState::Failed(
                    DecideFailure::PersistFailed { error: e },
                ),
            },
            _ => DecideState::Recording { outcome, outcome_text, budget },
        },
        other => other,
    }
}

/// Only a pending gate can be decided: a gate found in any other status is
/// refused as already decided, whatever the audit log and timeout say.
pub proof fn lemma_decided_gate_is_refused(
    requested: GateDecision,
    requested_text: String,
    status: GateStatus,
    budget: u32,
    prior: Option<(AuditRecord, Option<GateDecision>)>,
    timeout: Option<(GateDecision, String)>,
)
    requires
        status != GateStatus::Pending,
    ensures
        decide_next(
            DecideState::Checking { requested, requested_text },
            DecideEvent::Loaded { gate: Some((status, budget)), prior, timeout },
        ) == DecideState::Failed(DecideFailure::AlreadyDecided(status)),
{
}

/// A check that goes on to record or decide found this gate pending; a gate
/// missing from the manifest is refused as a race.
pub proof fn lemma_decide_needs_pending_gate(
    requested: GateDecision,
    requested_text: String,
    gate: Option<(GateStatus, u32)>,
    prior: Option<(AuditRecord, Option<GateDecision>)>,
    timeout: Option<(GateDecision, String)>,
)
    ensures
        gate is None ==> decide_next(
            DecideState::Checking { requested, requested_text },
            DecideEvent::Loaded { gate, prior, timeout },
        ) == DecideState::Failed(DecideFailure::Raced),
        ({
            let next = decide_next(
                DecideState::Checking { requested, requested_text },
                DecideEvent::Loaded { gate, prior, timeout },
            );
            next is Recording || next is Decided
        }) ==> (match gate {
            Some((st, _)) => st == GateStatus::Pending,
            None => false,
        }),
{
}

/// A decided or refused gate stays so: no event moves it on.
pub proof fn lemma_decide_final(state: DecideState, event: DecideEvent)
    requires
        state is Decided || state is Failed,
    ensures
        decide_next(state, event) == state,
{
}

/// The `Debug` name of a gate status.
pub open spec fn gate_status_text(st: GateStatus) -> Seq<char> {
    match st {
        GateStatus::Pending => "Pending"@,
        GateStatus::Approved => "Approved"@,
        GateStatus::Rejected => "Rejected"@,
        GateStatus::Skipped => "Skipped"@,
    }
}

/// The message a refused decision on gate `id` answers with.
pub open spec fn failure_message(id: Seq<char>, f: DecideFailure) -> Seq<char> {
    match f {
        DecideFailure::NotFound => "no pending gate found with id '"@ + id + "'"@,
        DecideFailure::Raced => "gate '"@ + id + "' not present in manifest (race)"@,
        DecideFailure::AlreadyDecided(st) => "gate '"@ + id + "' already decided (status: "@
            + gate_status_text(st) + ")"@,
        DecideFailure::PriorMismatch { prior, requested } => "gate '"@ + id
            + "' already decided as '"@ + prior@ + "' by prior actor (requested: '"@
            + requested@ + "')"@,
        DecideFailure::UnrecognizedAudit { prior } => "gate '"@ + id
            + "' has audit row with unrecognized decision '"@ + prior@ + "'"@,
        DecideFailure::ConcurrentMismatch { prior, requested } => "gate '"@ + id
            + "' already decided as '"@ + prior@ + "' by concurrent actor (requested: '"@
            + requested@ + "')"@,
        DecideFailure::RowMissing => "gate '"@ + id
            + "' UNIQUE violated but row not found on re-read"@,
        DecideFailure::PersistFailed { error } => "failed to write gate audit row: "@ + error@,
    }
}

/// The status a refused decision reports.
#[derive(Clone, Copy, Debug, PartialEq, Eq, Structural)]
pub enum DecideFailureStatus {
    ReviewGateConflict,
    MetricsPersistFailed,
}

/// A failed audit write is reported as a persistence failure; every other
/// refusal as a review-gate conflict.
pub fn failure_status(f: &DecideFailure) -> (st: DecideFailureStatus)
    ensures
        st == (if f is PersistFailed {
            DecideFailureStatus::MetricsPersistFailed
        } else {
            DecideFailureStatus::ReviewGateConflict
        }),
{
    match f {
        DecideFailure::PersistFailed { .. } => DecideFailureStatus::MetricsPersistFailed,
        _ => DecideFailureStatus::ReviewGateConflict,
    }
}

/// The message a refused decision on gate `gate_id` answers with.
pub fn failure_text(gate_id: &str, f: &DecideFailure) -> (s: String)
    ensures
        s@ == failure_message(gate_id@, *f),
{
    let mut v: Vec<char> = Vec::new();
    match f {
        DecideFailure::NotFound => {
            push_str(&mut v, "no pending gate found with id '");
            push_str(&mut v, gate_id);
            push_str(&mut v, "'");
        },
        DecideFailure::PersistFailed { error } => {
            push_str(&mut v, "failed to write gate audit row: ");
            push_str(&mut v, error.as_str());
        },
        _ => {
            push_str(&mut v, "gate '");
            push_str(&mut v, gate_id);
            match f {
                DecideFailure::Raced => push_str(&mut v, "' not present in manifest (race)"),
                DecideFailure::AlreadyDecided(st) => {
                    push_str(&mut v, "' already decided (status: ");
                    match st {
                        GateStatus::Pending => push_str(&mut v, "Pending"),
                        GateStatus::Approved => push_str(&mut v, "Approved"),
                        GateStatus::Rejected => push_str(&mut v, "Rejected"),
                        GateStatus::Skipped => push_str(&mut v, "Skipped"),
                    }
                    push_str(&mut v, ")");
                },
                DecideFailure::PriorMismatch { prior, requested } => {
                    push_str(&mut v, "' already decided as '");
                    push_str(&mut v, prior.as_str());
                    push_str(&mut v, "' by prior actor (requested: '");
                    push_str(&mut v, requested.as_str());
                    push_str(&mut v, "')");
                },
                DecideFailure::UnrecognizedAudit { prior } => {
                    push_str(&mut v, "' has audit row with unrecognized decision '");
                    push_str(&mut v, prior.as_str());
                    push_str(&mut v, "'");
                },
                DecideFailure::ConcurrentMismatch { prior, requested } => {
                    push_str(&mut v, "' already decided as '");
                    push_str(&mut v, prior.as_str());
                    push_str(&mut v, "' by concurrent actor (requested: '");
                    push_str(&mut v, requested.as_str());
                    push_str(&mut v, "')");
                },
                _ => push_str(&mut v, "' UNIQUE violated but row not found on re-read"),
            }
        },
    }
    assert(v@ =~= failure_message(gate_id@, *f));
    chars_to_string(v.as_slice())
}

/// The `Debug` name of a layer status.
pub open spec fn layer_status_text(st: LayerStatus) -> Seq<char> {
    match st {
        LayerStatus::Pending => "Pending"@,
        LayerStatus::InProgress => "InProgress"@,
        LayerStatus::Passed => "Passed"@,
        LayerStatus::Failed => "Failed"@,
        LayerStatus::Skipped => "Skipped"@,
    }
}

/// The `Debug` name of a manifest status.
pub open spec fn manifest_status_text(st: ManifestStatus) -> Seq<char> {
    match st {
        ManifestStatus::InProgress => "InProgress"@,
        ManifestStatus::Passed => "Passed"@,
        ManifestStatus::Failed => "Failed"@,
        ManifestStatus::PendingReview => "PendingReview"@,
    }
}

/// The answer to a recorded decision: the decision, the layer's new
/// status, the manifest's status and the reject budget left.
pub open spec fn decided_text(
    decision: Seq<char>,
    gate_id: Seq<char>,
    layer: Seq<char>,
    t: GateTransition,
    manifest: ManifestStatus,
) -> Seq<char> {
    "Decision '"@ + decision + "' recorded for gate "@ + gate_id + "\nLayer: "@ + layer
        + " \u{2192} "@ + layer_status_text(t.layer_status) + "\nManifest: "@
        + manifest_status_text(manifest) + "\nReject budget remaining: "@ + nat_text(
        t.reject_attempts_remaining as nat,
    ) + "\n"@
}

/// The answer to a recorded decision (see `decided_text`).
pub fn decided_report(
    decision: &str,
    gate_id: &str,
    layer: &str,
    t: &GateTransition,
    manifest: ManifestStatus,
) -> (s: String)
    ensures
        s@ == decided_text(decision@, gate_id@, layer@, *t, manifest),
{
    let mut v: Vec<char> = Vec::new();
    push_str(&mut v, "Decision '");
    push_str(&mut v, decision);
    push_str(&mut v, "' recorded for gate ");
    push_str(&mut v, gate_id);
    push_str(&mut v, "\nLayer: ");
    push_str(&mut v, layer);
    push_str(&mut v, " \u{2192} ");
    match t.layer_status {
        LayerStatus::Pending => push_str(&mut v, "Pending"),
        LayerStatus::InProgress => push_str(&mut v, "InProgress"),
        LayerStatus::Passed => push_str(&mut v, "Passed"),
        LayerStatus::Failed => push_str(&mut v, "Failed"),
        LayerStatus::Skipped => push_str(&mut v, "Skipped"),
    }
    push_str(&mut v, "\nManifest: ");
    match manifest {
        ManifestStatus::InProgress => push_str(&mut v, "InProgress"),
        ManifestStatus::Passed => push_str(&mut v, "Passed"),
        ManifestStatus::Failed => push_str(&mut v, "Failed"),
        ManifestStatus::PendingReview => push_str(&mut v, "PendingReview"),
    }
    push_str(&mut v, "\nReject budget remaining: ");
    push_u64_text(&mut v, t.reject_attempts_remaining as u64);
    push_str(&mut v, "\n");
    assert(v@ =~= decided_text(decision@, gate_id@, layer@, *t, manifest));
    chars_to_string(v.as_slice())
}

} // verus!
