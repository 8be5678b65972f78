//! The end of a stack evaluation: whether the stack passed, the exit code,
//! the seam findings recorded once per boundary check, and the text report.
use crate::gate::LayerStatus;
use crate::metrics::SeamFindingRow;
use crate::workflow::merge::FloorViolation;
use crate::workflow::validate::ValidationError;
use crate::text::{chars_to_string, nat_text, push_str, push_u64_text, str_eq};
use vstd::prelude::*;

verus! {

/// The result of one seam check.
#[derive(Clone, Copy, Debug, PartialEq, Eq, Structural)]
pub enum CheckStatus {
    Passed,
    Warning,
    Failed,
    Skipped,
}

/// A seam check as a layer reports it.
#[derive(Clone, Debug, PartialEq, Eq)]
pub struct SeamCheckResult {
    pub name: String,
    pub boundary: String,
    pub status: CheckStatus,
    /// The seam category (1 to 12); none for a check that is not registered.
    pub category: Option<u8>,
    pub details: Option<String>,
}

/// A layer's entry in the verification manifest, as far as the end of an
/// evaluation reads it.
#[derive(Clone, Debug, PartialEq, Eq)]
pub struct LayerOutcome {
    pub name: String,
    pub status: LayerStatus,
    pub halted_by: Option<String>,
    pub seam_checks: Vec<SeamCheckResult>,
}

pub open spec fn any_layer_failed(layers: Seq<LayerOutcome>) -> bool {
    exists|i: int| 0 <= i < layers.len() && (#[trigger] layers[i]).status == LayerStatus::Failed
}

/// The number of failed seam checks of `checks`.
pub open spec fn failed_checks(checks: Seq<SeamCheckResult>) -> nat
    decreases checks.len(),
{
    if checks.len() == 0 {
        0
    } else {
        failed_checks(checks.drop_last()) + (if checks.last().status == CheckStatus::Failed {
            1nat
        } else {
            0nat
        })
    }
}

/// The number of failed seam checks over all layers.
pub open spec fn failed_seam_checks(layers: Seq<LayerOutcome>) -> nat
    decreases layers.len(),
{
    if layers.len() == 0 {
        0
    } else {
        failed_seam_checks(layers.drop_last()) + failed_checks(layers.last().seam_checks@)
    }
}

/// The stack passed: every layer passed or was skipped, none failed, and
/// no seam check failed. A layer left pending was not graded, so the stack
/// has not passed.
pub open spec fn spec_stack_passed(layers: Seq<LayerOutcome>) -> bool {
    &&& forall|i: int|
        0 <= i < layers.len() ==> (#[trigger] layers[i]).status == LayerStatus::Passed
            || layers[i].status == LayerStatus::Skipped
    &&& !any_layer_failed(layers)
    &&& failed_seam_checks(layers) == 0
}

/// The exit code of an evaluation: 2 when a layer failed (a failed seam
/// check fails its layer), else 0.
pub fn evaluation_exit_code(layers: &Vec<LayerOutcome>) -> (code: i32)
    ensures
        code == (if any_layer_failed(layers@) {
            2i32
        } else {
            0i32
        }),
{
    let mut i: usize = 0;
    while i < layers.len()
        invariant
            i <= layers@.len(),
            forall|k: int| 0 <= k < i ==> (#[trigger] layers@[k]).status != LayerStatus::Failed,
        decreases layers@.len() - i,
    {
        if layers[i].status == LayerStatus::Failed {
            return 2;
        }
        i = i + 1;
    }
    0
}

/// The prefix of a layer's halt reason when writing its metrics failed.
pub open spec fn persist_failed_prefix() -> Seq<char> {
    "metrics_persist_failed:"@
}

/// The halt reasons of `layers` that report a failed metrics write, in
/// layer order.
pub open spec fn persist_failures(layers: Seq<LayerOutcome>) -> Seq<Seq<char>>
    decreases layers.len(),
{
    if layers.len() == 0 {
        Seq::empty()
    } else {
        let prev = persist_failures(layers.drop_last());
        match layers.last().halted_by {
            Some(h) => if persist_failed_prefix().is_prefix_of(h@) {
                prev.push(h@)
            } else {
                prev
            },
            None => prev,
        }
    }
}

pub open spec fn texts_view(v: Seq<String>) -> Seq<Seq<char>> {
    v.map_values(|s: String| s@)
}

fn starts_with_persist_failed(h: &String) -> (r: bool)
    ensures
        r == persist_failed_prefix().is_prefix_of(h@),
{
    let p = crate::text::str_to_chars("metrics_persist_failed:");
    let cs = crate::text::str_to_chars(h.as_str());
    if cs.len() < p.len() {
        return false;
    }
    let mut i: usize = 0;
    while i < p.len()
        invariant
            i <= p@.len() <= cs@.len(),
            p@ == persist_failed_prefix(),
            cs@ == h@,
            forall|k: int| 0 <= k < i ==> p@[k] == cs@[k],
        decreases p@.len() - i,
    {
        if p[i] != cs[i] {
            assert(h@.subrange(0, p@.len() as int)[i as int] != p@[i as int]);
            return false;
        }
        i = i + 1;
    }
    assert(cs@.subrange(0, p@.len() as int) =~= p@);
    true
}

/// The metrics-write failures that halted layers mid-loop; when there are
/// any, the evaluation answers with them (exit 1) before any pass/fail
/// accounting.
pub fn mid_loop_persist_failures(layers: &Vec<LayerOutcome>) -> (r: Vec<String>)
    ensures
        texts_view(r@) == persist_failures(layers@),
{
    let mut out: Vec<String> = Vec::new();
    let mut i: usize = 0;
    while i < layers.len()
        invariant
            i <= layers@.len(),
            texts_view(out@) == persist_failures(layers@.take(i as int)),
        decreases layers@.len() - i,
    {
        assert(layers@.take(i + 1).drop_last() =~= layers@.take(i as int));
        assert(layers@.take(i + 1).last() == layers@[i as int]);
        match &layers[i].halted_by {
            Some(h) => {
                if starts_with_persist_failed(h) {
                    let ghost before = out@;
                    out.push(h.clone());
                    assert(texts_view(out@) =~= texts_view(before).push(h@));
                }
            },
            None => {},
        }
        i = i + 1;
    }
    assert(layers@.take(layers@.len() as int) =~= layers@);
    out
}

/// A seam-finding row as plain text and numbers.
pub struct FindingView {
    pub layer: Seq<char>,
    pub boundary: Seq<char>,
    pub check_id: Seq<char>,
    pub category: u8,
    pub status: Seq<char>,
    pub details: Option<Seq<char>>,
}

pub open spec fn finding_view(r: SeamFindingRow) -> FindingView {
    FindingView {
        layer: r.layer@,
        boundary: r.boundary@,
        check_id: r.check_id@,
        category: r.category,
        status: r.status@,
        details: match r.details {
            Some(d) => Some(d@),
            None => None,
        },
    }
}

pub open spec fn findings_view(rows: Seq<SeamFindingRow>) -> Seq<FindingView> {
    rows.map_values(|r: SeamFindingRow| finding_view(r))
}

/// The wire form of a check status the findings table accepts.
pub open spec fn status_wire(st: CheckStatus) -> Seq<char> {
    match st {
        CheckStatus::Passed => "passed"@,
        CheckStatus::Warning => "warning"@,
        _ => "failed"@,
    }
}

/// Some row of `rows` is for this boundary and check.
pub open spec fn has_finding(rows: Seq<FindingView>, boundary: Seq<char>, check_id: Seq<char>) -> bool {
    exists|k: int|
        0 <= k < rows.len() && (#[trigger] rows[k]).boundary == boundary && rows[k].check_id
            == check_id
}

/// `rows` with the findings of `checks` of layer `layer` added: a skipped
/// check, or one with no category, is not recorded, and a boundary check
/// already recorded (both sides of a boundary report it) is not recorded
/// again.
pub open spec fn add_findings(rows: Seq<FindingView>, layer: Seq<char>, checks: Seq<SeamCheckResult>) -> Seq<FindingView>
    decreases checks.len(),
{
    if checks.len() == 0 {
        rows
    } else {
        let acc = add_findings(rows, layer, checks.drop_last());
        let c = checks.last();
        if c.status != CheckStatus::Skipped && c.category is Some && !has_finding(
            acc,
            c.boundary@,
            c.name@,
        ) {
            acc.push(
                FindingView {
                    layer,
                    boundary: c.boundary@,
                    check_id: c.name@,
                    category: c.category->0,
                    status: status_wire(c.status),
                    details: match c.details {
                        Some(d) => Some(d@),
                        None => None,
                    },
                },
            )
        } else {
            acc
        }
    }
}

/// The seam findings of an evaluation, layer by layer in manifest order,
/// each boundary check recorded once (for the first layer that reports it).
pub open spec fn seam_findings(layers: Seq<LayerOutcome>) -> Seq<FindingView>
    decreases layers.len(),
{
    if layers.len() == 0 {
        Seq::empty()
    } else {
        add_findings(
            seam_findings(layers.drop_last()),
            layers.last().name@,
            layers.last().seam_checks@,
        )
    }
}

/// No two rows are for the same boundary check.
pub open spec fn one_row_per_check(rows: Seq<FindingView>) -> bool {
    forall|i: int, j: int|
        0 <= i < j < rows.len() ==> !((#[trigger] rows[i]).boundary == (#[trigger] rows[j]).boundary
            && rows[i].check_id == rows[j].check_id)
}

proof fn lemma_add_findings_one_row(rows: Seq<FindingView>, layer: Seq<char>, checks: Seq<SeamCheckResult>)
    requires
        one_row_per_check(rows),
    ensures
        one_row_per_check(add_findings(rows, layer, checks)),
    decreases checks.len(),
{
    if checks.len() > 0 {
        let acc = add_findings(rows, layer, checks.drop_last());
        lemma_add_findings_one_row(rows, layer, checks.drop_last());
        let r = add_findings(rows, layer, checks);
        if r != acc {
            assert forall|i: int, j: int| 0 <= i < j < r.len() implies !((#[trigger] r[i]).boundary
                == (#[trigger] r[j]).boundary && r[i].check_id == r[j].check_id) by {
                if j == acc.len() {
                    assert(r[i] == acc[i]);
                    if r[i].boundary == r[j].boundary && r[i].check_id == r[j].check_id {
                        assert(has_finding(acc, r[j].boundary, r[j].check_id));
                    }
                } else {
                    assert(r[i] == acc[i] && r[j] == acc[j]);
                }
            }
        }
    }
}

/// Each boundary check is recorded at most once per evaluation, however
/// many layers report it.
pub proof fn lemma_seam_findings_one_row_per_check(layers: Seq<LayerOutcome>)
    ensures
        one_row_per_check(seam_findings(layers)),
    decreases layers.len(),
{
    if layers.len() > 0 {
        lemma_seam_findings_one_row_per_check(layers.drop_last());
        lemma_add_findings_one_row(
            seam_findings(layers.drop_last()),
            layers.last().name@,
            layers.last().seam_checks@,
        );
    }
}

/// A check the findings table takes: not skipped, and with a category.
pub open spec fn recordable(c: SeamCheckResult) -> bool {
    c.status != CheckStatus::Skipped && c.category is Some
}

proof fn lemma_add_findings_covers(
    rows: Seq<FindingView>,
    layer: Seq<char>,
    checks: Seq<SeamCheckResult>,
    b: Seq<char>,
    n: Seq<char>,
)
    ensures
        has_finding(rows, b, n) ==> has_finding(add_findings(rows, layer, checks), b, n),
        (exists|i: int|
            0 <= i < checks.len() && recordable(#[trigger] checks[i]) && checks[i].boundary@ == b
                && checks[i].name@ == n) ==> has_finding(add_findings(rows, layer, checks), b, n),
    decreases checks.len(),
{
    if checks.len() > 0 {
        let d = checks.drop_last();
        lemma_add_findings_covers(rows, layer, d, b, n);
        let acc = add_findings(rows, layer, d);
        let r = add_findings(rows, layer, checks);
        assert forall|k: int| 0 <= k < acc.len() implies r[k] == acc[k] by {}
        if has_finding(acc, b, n) {
            let k = choose|k: int|
                0 <= k < acc.len() && (#[trigger] acc[k]).boundary == b && acc[k].check_id == n;
            assert(r[k] == acc[k]);
        }
        if exists|i: int|
            0 <= i < checks.len() && recordable(#[trigger] checks[i]) && checks[i].boundary@ == b
                && checks[i].name@ == n {
            let i = choose|i: int|
                0 <= i < checks.len() && recordable(#[trigger] checks[i]) && checks[i].boundary@
                    == b && checks[i].name@ == n;
            if i < d.len() {
                assert(d[i] == checks[i]);
            } else if !has_finding(acc, b, n) {
                assert(r[acc.len() as int].boundary == b);
            }
        }
    }
}

/// Every recordable seam check is recorded: for each check of each layer
/// that is not skipped and has a category, the findings hold a row for its
/// boundary and check id (once, by the law above).
pub proof fn lemma_seam_findings_complete(layers: Seq<LayerOutcome>, j: int, i: int)
    requires
        0 <= j < layers.len(),
        0 <= i < layers[j].seam_checks@.len(),
        recordable(layers[j].seam_checks@[i]),
    ensures
        has_finding(
            seam_findings(layers),
            layers[j].seam_checks@[i].boundary@,
            layers[j].seam_checks@[i].name@,
        ),
    decreases layers.len(),
{
    let c = layers[j].seam_checks@[i];
    let d = layers.drop_last();
    let l = layers.last();
    if j < d.len() {
        assert(d[j] == layers[j]);
        lemma_seam_findings_complete(d, j, i);
        lemma_add_findings_covers(seam_findings(d), l.name@, l.seam_checks@, c.boundary@, c.name@);
    } else {
        lemma_add_findings_covers(seam_findings(d), l.name@, l.seam_checks@, c.boundary@, c.name@);
    }
}

fn has_finding_row(rows: &Vec<SeamFindingRow>, boundary: &str, check_id: &str) -> (r: bool)
    ensures
        r == has_finding(findings_view(rows@), boundary@, check_id@),
{
    let ghost fv = findings_view(rows@);
    let mut k: usize = 0;
    while k < rows.len()
        invariant
            k <= rows@.len(),
            fv == findings_view(rows@),
            forall|m: int|
                0 <= m < k ==> !((#[trigger] fv[m]).boundary == boundary@ && fv[m].check_id
                    == check_id@),
        decreases rows@.len() - k,
    {
        if str_eq(rows[k].boundary, boundary) && str_eq(rows[k].check_id, check_id) {
            assert(fv[k as int].boundary == boundary@);
            return true;
        }
        k = k + 1;
    }
    false
}

/// The seam-finding rows to record for an evaluation (see `seam_findings`).
pub fn seam_finding_rows<'a>(layers: &'a Vec<LayerOutcome>) -> (r: Vec<SeamFindingRow<'a>>)
    ensures
        findings_view(r@) == seam_findings(layers@),
{
    let mut out: Vec<SeamFindingRow<'a>> = Vec::new();
    let mut i: usize = 0;
    while i < layers.len()
        invariant
            i <= layers@.len(),
            findings_view(out@) == seam_findings(layers@.take(i as int)),
        decreases layers@.len() - i,
    {
        let l = &layers[i];
        assert(layers@.take(i + 1).drop_last() =~= layers@.take(i as int));
        assert(layers@.take(i + 1).last() == layers@[i as int]);
        let ghost start = findings_view(out@);
        let mut j: usize = 0;
        while j < l.seam_checks.len()
            invariant
                j <= l.seam_checks@.len(),
                findings_view(out@) == add_findings(start, l.name@, l.seam_checks@.take(j as int)),
            decreases l.seam_checks@.len() - j,
        {
            let c = &l.seam_checks[j];
            assert(l.seam_checks@.take(j + 1).drop_last() =~= l.seam_checks@.take(j as int));
            assert(l.seam_checks@.take(j + 1).last() == l.seam_checks@[j as int]);
            if c.status != CheckStatus::Skipped {
                match c.category {
                    Some(category) => {
                        if !has_finding_row(&out, c.boundary.as_str(), c.name.as_str()) {
                            let status: &str = match c.status {
                                CheckStatus::Passed => "passed",
                                CheckStatus::Warning => "warning",
                                _ => "failed",
                            };
                            let details: Option<&str> = match &c.details {
                                Some(d) => Some(d.as_str()),
                                None => None,
                            };
                            let row = SeamFindingRow {
                                layer: l.name.as_str(),
                                boundary: c.boundary.as_str(),
                                check_id: c.name.as_str(),
                                category,
                                status,
                                details,
                            };
                            let ghost before = out@;
                            out.push(row);
                            assert(findings_view(out@) =~= findings_view(before).push(
                                finding_view(row),
                            ));
                        }
                    },
                    None => {},
                }
            }
            j = j + 1;
        }
        assert(l.seam_checks@.take(l.seam_checks@.len() as int) =~= l.seam_checks@);
        i = i + 1;
    }
    assert(layers@.take(layers@.len() as int) =~= layers@);
    out
}

fn count_failed_checks(checks: &Vec<SeamCheckResult>) -> (n: u64)
    requires
        checks@.len() <= u64::MAX,
    ensures
        n == failed_checks(checks@),
{
    let mut n: u64 = 0;
    let mut i: usize = 0;
    while i < checks.len()
        invariant
            i <= checks@.len(),
            checks@.len() <= u64::MAX,
            n == failed_checks(checks@.take(i as int)),
            n <= i,
        decreases checks@.len() - i,
    {
        assert(checks@.take(i + 1).drop_last() =~= checks@.take(i as int));
        if checks[i].status == CheckStatus::Failed {
            n = n + 1;
        }
        i = i + 1;
    }
    assert(checks@.take(checks@.len() as int) =~= checks@);
    n
}

/// Whether the stack passed (see `spec_stack_passed`).
pub fn stack_passed(layers: &Vec<LayerOutcome>) -> (r: bool)
    ensures
        r == spec_stack_passed(layers@),
{
    let mut all_passed = true;
    let mut any_failed = false;
    let mut no_failed_checks = true;
    let mut i: usize = 0;
    while i < layers.len()
        invariant
            i <= layers@.len(),
            all_passed == (forall|k: int|
                0 <= k < i ==> (#[trigger] layers@[k]).status == LayerStatus::Passed
                    || layers@[k].status == LayerStatus::Skipped),
            any_failed == any_layer_failed(layers@.take(i as int)),
            no_failed_checks == (failed_seam_checks(layers@.take(i as int)) == 0),
        decreases layers@.len() - i,
    {
        let l = &layers[i];
        assert(layers@.take(i + 1).drop_last() =~= layers@.take(i as int));
        assert(layers@.take(i + 1).last() == layers@[i as int]);
        if !(l.status == LayerStatus::Passed || l.status == LayerStatus::Skipped) {
            all_passed = false;
        }
        if l.status == LayerStatus::Failed {
            any_failed = true;
            assert(layers@.take(i + 1)[i as int] == layers@[i as int]);
        }
        let mut j: usize = 0;
        let mut none: bool = true;
        while j < l.seam_checks.len()
            invariant
                j <= l.seam_checks@.len(),
                none == (failed_checks(l.seam_checks@.take(j as int)) == 0),
            decreases l.seam_checks@.len() - j,
        {
            assert(l.seam_checks@.take(j + 1).drop_last() =~= l.seam_checks@.take(j as int));
            if l.seam_checks[j].status == CheckStatus::Failed {
                none = false;
            }
            j = j + 1;
        }
        assert(l.seam_checks@.take(l.seam_checks@.len() as int) =~= l.seam_checks@);
        if !none {
            no_failed_checks = false;
        }
        assert(any_failed == any_layer_failed(layers@.take(i + 1))) by {
            if any_layer_failed(layers@.take(i + 1)) && l.status != LayerStatus::Failed {
                let k = choose|k: int|
                    0 <= k < i + 1 && (#[trigger] layers@.take(i + 1)[k]).status
                        == LayerStatus::Failed;
                assert(layers@.take(i + 1)[k] == layers@.take(i as int)[k]);
            }
            if any_layer_failed(layers@.take(i as int)) {
                let k = choose|k: int|
                    0 <= k < i && (#[trigger] layers@.take(i as int)[k]).status
                        == LayerStatus::Failed;
                assert(layers@.take(i + 1)[k] == layers@.take(i as int)[k]);
            }
        }
        i = i + 1;
    }
    assert(layers@.take(layers@.len() as int) =~= layers@);
    all_passed && !any_failed && no_failed_checks
}

// ─── Before the evaluation runs ────────────────────────────────────────────

/// The plan file as the evaluate handler found it.
#[derive(Clone, Debug, PartialEq, Eq)]
pub enum PlanLoad {
    Missing,
    /// It does not parse; the parser's error text.
    Unparsable(String),
    /// It parses but has no contract section.
    NoContract,
    Ready,
}

/// Why an evaluation is refused before it runs (the status of its
/// structured answer).
#[derive(Clone, Copy, Debug, PartialEq, Eq, Structural)]
pub enum EvaluateRefusal {
    PlanNotFound,
    PlanParseFailed,
    NoContractSection,
    WorkflowValidationFailed,
    SeamFloorViolation,
    MetricsPersistFailed,
}

/// A refusal: exit code, status, and the text answer.
#[derive(Clone, Debug, PartialEq, Eq)]
pub struct Refusal {
    pub code: i32,
    pub status: EvaluateRefusal,
    pub message: String,
}

pub open spec fn refusal_view(r: Option<Refusal>) -> Option<(i32, EvaluateRefusal, Seq<char>)> {
    match r {
        Some(x) => Some((x.code, x.status, x.message@)),
        None => None,
    }
}

/// A missing or unparsable plan exits 1; a plan without a contract exits 2.
pub open spec fn plan_refusal_spec(plan: PlanLoad, path: Seq<char>) -> Option<(i32, EvaluateRefusal, Seq<char>)> {
    match plan {
        PlanLoad::Missing => Some(
            (1, EvaluateRefusal::PlanNotFound, "plan file not found: "@ + path),
        ),
        PlanLoad::Unparsable(e) => Some(
            (1, EvaluateRefusal::PlanParseFailed, "failed to parse plan: "@ + e@),
        ),
        PlanLoad::NoContract => Some(
            (2, EvaluateRefusal::NoContractSection, "no contract section found in "@ + path),
        ),
        PlanLoad::Ready => None,
    }
}

fn refusal_of(code: i32, status: EvaluateRefusal, head: &str, tail: &str) -> (r: Refusal)
    ensures
        r.code == code,
        r.status == status,
        r.message@ == head@ + tail@,
{
    let mut v: Vec<char> = Vec::new();
    push_str(&mut v, head);
    push_str(&mut v, tail);
    Refusal { code, status, message: chars_to_string(v.as_slice()) }
}

/// Whether the plan at `plan_path` stops the evaluation (see
/// `plan_refusal_spec`).
pub fn plan_refusal(plan: &PlanLoad, plan_path: &str) -> (r: Option<Refusal>)
    ensures
        refusal_view(r) == plan_refusal_spec(*plan, plan_path@),
{
    match plan {
        PlanLoad::Missing => Some(
            refusal_of(1, EvaluateRefusal::PlanNotFound, "plan file not found: ", plan_path),
        ),
        PlanLoad::Unparsable(e) => Some(
            refusal_of(1, EvaluateRefusal::PlanParseFailed, "failed to parse plan: ", e.as_str()),
        ),
        PlanLoad::NoContract => Some(
            refusal_of(
                2,
                EvaluateRefusal::NoContractSection,
                "no contract section found in ",
                plan_path,
            ),
        ),
        PlanLoad::Ready => None,
    }
}

pub open spec fn error_lines(errors: Seq<ValidationError>) -> Seq<char>
    decreases errors.len(),
{
    if errors.len() == 0 {
        Seq::empty()
    } else {
        error_lines(errors.drop_last()) + "  - "@ + errors.last().field@ + ": "@
            + errors.last().message@ + "\n"@
    }
}

/// A workflow with validation errors fails closed: exit 1, each error on a
/// line.
pub open spec fn validation_refusal_spec(errors: Seq<ValidationError>) -> Option<
    (i32, EvaluateRefusal, Seq<char>),
> {
    if errors.len() == 0 {
        None
    } else {
        Some(
            (
                1,
                EvaluateRefusal::WorkflowValidationFailed,
                "workflow.yaml has validation errors:\n"@ + error_lines(errors)
                    + "\nRun `pice validate` for full details.\n"@,
            ),
        )
    }
}

/// Whether the workflow's validation errors stop the evaluation (see
/// `validation_refusal_spec`).
pub fn validation_refusal(errors: &Vec<ValidationError>) -> (r: Option<Refusal>)
    ensures
        refusal_view(r) == validation_refusal_spec(errors@),
{
    if errors.len() == 0 {
        return None;
    }
    let mut v: Vec<char> = Vec::new();
    push_str(&mut v, "workflow.yaml has validation errors:\n");
    let ghost head = v@;
    let mut i: usize = 0;
    while i < errors.len()
        invariant
            i <= errors@.len(),
            v@ == head + error_lines(errors@.take(i as int)),
        decreases errors@.len() - i,
    {
        let e = &errors[i];
        push_str(&mut v, "  - ");
        push_str(&mut v, e.field.as_str());
        push_str(&mut v, ": ");
        push_str(&mut v, e.message.as_str());
        push_str(&mut v, "\n");
        assert(errors@.take(i + 1).drop_last() =~= errors@.take(i as int));
        assert(v@ =~= head + error_lines(errors@.take(i + 1)));
        i = i + 1;
    }
    assert(errors@.take(errors@.len() as int) =~= errors@);
    push_str(&mut v, "\nRun `pice validate` for full details.\n");
    Some(
        Refusal {
            code: 1,
            status: EvaluateRefusal::WorkflowValidationFailed,
            message: chars_to_string(v.as_slice()),
        },
    )
}

pub open spec fn violation_lines(vs: Seq<FloorViolation>) -> Seq<char>
    decreases vs.len(),
{
    if vs.len() == 0 {
        Seq::empty()
    } else {
        violation_lines(vs.drop_last()) + "  - "@ + vs.last().field@ + ": "@ + vs.last().reason@
            + " (project: "@ + vs.last().project@ + ", user: "@ + vs.last().user@ + ")\n"@
    }
}

/// A seam floor violation between `layers.toml` and the workflow stops the
/// evaluation: exit 1, each violation on a line, then the rule.
pub open spec fn seam_refusal_spec(vs: Seq<FloorViolation>) -> Option<(i32, EvaluateRefusal, Seq<char>)> {
    if vs.len() == 0 {
        None
    } else {
        Some(
            (
                1,
                EvaluateRefusal::SeamFloorViolation,
                "seam configuration floor violations:\n"@ + violation_lines(vs)
                    + "\nworkflow.yaml [seams] may REPLACE a layers.toml boundary's check list but cannot empty-list it. Omit the key to inherit the project list.\n"@,
            ),
        )
    }
}

/// Whether seam floor violations stop the evaluation (see
/// `seam_refusal_spec`).
pub fn seam_refusal(vs: &Vec<FloorViolation>) -> (r: Option<Refusal>)
    ensures
        refusal_view(r) == seam_refusal_spec(vs@),
{
    if vs.len() == 0 {
        return None;
    }
    let mut v: Vec<char> = Vec::new();
    push_str(&mut v, "seam configuration floor violations:\n");
    let ghost head = v@;
    let mut i: usize = 0;
    while i < vs.len()
        invariant
            i <= vs@.len(),
            v@ == head + violation_lines(vs@.take(i as int)),
        decreases vs@.len() - i,
    {
        let x = &vs[i];
        push_str(&mut v, "  - ");
        push_str(&mut v, x.field.as_str());
        push_str(&mut v, ": ");
        push_str(&mut v, x.reason.as_str());
        push_str(&mut v, " (project: ");
        push_str(&mut v, x.project.as_str());
        push_str(&mut v, ", user: ");
        push_str(&mut v, x.user.as_str());
        push_str(&mut v, ")\n");
        assert(vs@.take(i + 1).drop_last() =~= vs@.take(i as int));
        assert(v@ =~= head + violation_lines(vs@.take(i + 1)));
        i = i + 1;
    }
    assert(vs@.take(vs@.len() as int) =~= vs@);
    push_str(
        &mut v,
        "\nworkflow.yaml [seams] may REPLACE a layers.toml boundary's check list but cannot empty-list it. Omit the key to inherit the project list.\n",
    );
    Some(
        Refusal {
            code: 1,
            status: EvaluateRefusal::SeamFloorViolation,
            message: chars_to_string(v.as_slice()),
        },
    )
}

pub open spec fn persist_error_lines(errors: Seq<String>) -> Seq<char>
    decreases errors.len(),
{
    if errors.len() == 0 {
        Seq::empty()
    } else {
        persist_error_lines(errors.drop_last()) + "  - "@ + errors.last()@ + "\n"@
    }
}

/// A failed metrics write halts the evaluation with exit 1: the state in
/// the verification manifest stands, the audit trail is incomplete.
pub open spec fn persist_refusal_text(errors: Seq<String>) -> Seq<char> {
    "evaluation halted: metrics persistence failed:\n"@ + persist_error_lines(errors)
        + "\nThe verification manifest is authoritative; the audit trail is incomplete. See daemon logs for the SQLite error.\n"@
}

/// The refusal for failed metrics writes (see `persist_refusal_text`).
pub fn persist_refusal(errors: &Vec<String>) -> (r: Refusal)
    ensures
        r.code == 1,
        r.status == EvaluateRefusal::MetricsPersistFailed,
        r.message@ == persist_refusal_text(errors@),
{
    let mut v: Vec<char> = Vec::new();
    push_str(&mut v, "evaluation halted: metrics persistence failed:\n");
    let ghost head = v@;
    let mut i: usize = 0;
    while i < errors.len()
        invariant
            i <= errors@.len(),
            v@ == head + persist_error_lines(errors@.take(i as int)),
        decreases errors@.len() - i,
    {
        push_str(&mut v, "  - ");
        push_str(&mut v, errors[i].as_str());
        push_str(&mut v, "\n");
        assert(errors@.take(i + 1).drop_last() =~= errors@.take(i as int));
        assert(v@ =~= head + persist_error_lines(errors@.take(i + 1)));
        i = i + 1;
    }
    assert(errors@.take(errors@.len() as int) =~= errors@);
    push_str(
        &mut v,
        "\nThe verification manifest is authoritative; the audit trail is incomplete. See daemon logs for the SQLite error.\n",
    );
    Refusal {
        code: 1,
        status: EvaluateRefusal::MetricsPersistFailed,
        message: chars_to_string(v.as_slice()),
    }
}

// ─── The text report ───────────────────────────────────────────────────────

/// The overall status of a verification manifest.
#[derive(Clone, Copy, Debug, PartialEq, Eq, Structural)]
pub enum ManifestStatus {
    InProgress,
    Passed,
    Failed,
    PendingReview,
}

pub open spec fn layer_label(st: LayerStatus) -> Seq<char> {
    match st {
        LayerStatus::Passed => "PASS"@,
        LayerStatus::Failed => "FAIL"@,
        LayerStatus::Pending => "PENDING"@,
        LayerStatus::InProgress => "IN-PROGRESS"@,
        LayerStatus::Skipped => "SKIP"@,
    }
}

/// The number of passed seam checks of `checks`.
pub open spec fn passed_checks(checks: Seq<SeamCheckResult>) -> nat
    decreases checks.len(),
{
    if checks.len() == 0 {
        0
    } else {
        passed_checks(checks.drop_last()) + (if checks.last().status == CheckStatus::Passed {
            1nat
        } else {
            0nat
        })
    }
}

/// The number of seam checks over all layers.
pub open spec fn total_seam_checks(layers: Seq<LayerOutcome>) -> nat
    decreases layers.len(),
{
    if layers.len() == 0 {
        0
    } else {
        total_seam_checks(layers.drop_last()) + layers.last().seam_checks@.len()
    }
}

pub open spec fn opt_text(o: Option<String>) -> Seq<char> {
    match o {
        Some(s) => s@,
        None => Seq::empty(),
    }
}

/// A failed check is listed with a cross, a warning with `!`; others are
/// not listed.
pub open spec fn check_line(c: SeamCheckResult) -> Seq<char> {
    if c.status == CheckStatus::Failed {
        "      \u{2717} "@ + c.name@ + " ("@ + c.boundary@ + "): "@ + opt_text(c.details) + "\n"@
    } else if c.status == CheckStatus::Warning {
        "      ! "@ + c.name@ + " ("@ + c.boundary@ + "): "@ + opt_text(c.details) + "\n"@
    } else {
        Seq::empty()
    }
}

pub open spec fn check_lines(checks: Seq<SeamCheckResult>) -> Seq<char>
    decreases checks.len(),
{
    if checks.len() == 0 {
        Seq::empty()
    } else {
        check_lines(checks.drop_last()) + check_line(checks.last())
    }
}

/// A layer's lines: its status, name and halt reason, then its seam
/// checks when it has any.
pub open spec fn layer_block(l: LayerOutcome) -> Seq<char> {
    "  ["@ + layer_label(l.status) + "] "@ + l.name@ + (match l.halted_by {
        Some(r) => " \u{2014} "@ + r@,
        None => Seq::empty(),
    }) + "\n"@ + seam_summary(l.seam_checks@)
}

pub open spec fn layer_blocks(layers: Seq<LayerOutcome>) -> Seq<char>
    decreases layers.len(),
{
    if layers.len() == 0 {
        Seq::empty()
    } else {
        layer_blocks(layers.drop_last()) + layer_block(layers.last())
    }
}

/// The text report of a stack evaluation.
pub open spec fn evaluation_report_text(layers: Seq<LayerOutcome>, overall: ManifestStatus) -> Seq<char> {
    let total = total_seam_checks(layers);
    let failed = failed_seam_checks(layers);
    "\nStack Loops Evaluation \u{2014} "@ + nat_text(layers.len()) + " layers\n"@
        + "=======================================\n"@ + layer_blocks(layers) + (if total > 0 {
        "\nSeam checks: "@ + nat_text((total - failed) as nat) + "/"@ + nat_text(total)
            + " passed ("@ + nat_text(failed) + " failed)\n"@
    } else {
        Seq::empty()
    }) + "\nOverall: "@ + (match overall {
        ManifestStatus::Passed => "PASS"@,
        ManifestStatus::InProgress => "IN-PROGRESS"@,
        _ => "FAIL"@,
    }) + "\n"@
}

proof fn lemma_check_counts(checks: Seq<SeamCheckResult>)
    ensures
        passed_checks(checks) + failed_checks(checks) <= checks.len(),
    decreases checks.len(),
{
    if checks.len() > 0 {
        lemma_check_counts(checks.drop_last());
    }
}

proof fn lemma_failed_le_total(layers: Seq<LayerOutcome>)
    ensures
        failed_seam_checks(layers) <= total_seam_checks(layers),
    decreases layers.len(),
{
    if layers.len() > 0 {
        lemma_failed_le_total(layers.drop_last());
        lemma_check_counts(layers.last().seam_checks@);
    }
}

/// The seam lines of a layer's block.
pub open spec fn seam_summary(checks: Seq<SeamCheckResult>) -> Seq<char> {
    if checks.len() > 0 {
        "    seam: "@ + nat_text(passed_checks(checks)) + "/"@ + nat_text(checks.len())
            + " passed\n"@ + check_lines(checks)
    } else {
        Seq::empty()
    }
}

fn push_check_line(v: &mut Vec<char>, c: &SeamCheckResult)
    ensures
        final(v)@ == old(v)@ + check_line(*c),
{
    let ghost before = v@;
    if c.status == CheckStatus::Failed || c.status == CheckStatus::Warning {
        if c.status == CheckStatus::Failed {
            push_str(v, "      \u{2717} ");
        } else {
            push_str(v, "      ! ");
        }
        push_str(v, c.name.as_str());
        push_str(v, " (");
        push_str(v, c.boundary.as_str());
        push_str(v, "): ");
        match &c.details {
            Some(d) => push_str(v, d.as_str()),
            None => {},
        }
        push_str(v, "\n");
    }
    assert(v@ =~= before + check_line(*c));
}

fn push_seam_summary(v: &mut Vec<char>, checks: &Vec<SeamCheckResult>)
    ensures
        final(v)@ == old(v)@ + seam_summary(checks@),
{
    let ghost v0 = v@;
    let n = checks.len();
    if n > 0 {
        let mut passed: u64 = 0;
        let mut j: usize = 0;
        while j < n
            invariant
                n == checks@.len(),
                j <= n,
                passed == passed_checks(checks@.take(j as int)),
                passed <= j,
            decreases n - j,
        {
            assert(checks@.take(j + 1).drop_last() =~= checks@.take(j as int));
            if checks[j].status == CheckStatus::Passed {
                passed = passed + 1;
            }
            j = j + 1;
        }
        assert(checks@.take(n as int) =~= checks@);
        push_str(v, "    seam: ");
        push_u64_text(v, passed);
        push_str(v, "/");
        push_u64_text(v, n as u64);
        push_str(v, " passed\n");
        let ghost head = v@;
        let mut k: usize = 0;
        while k < n
            invariant
                n == checks@.len(),
                k <= n,
                v@ == head + check_lines(checks@.take(k as int)),
            decreases n - k,
        {
            push_check_line(v, &checks[k]);
            assert(checks@.take(k + 1).drop_last() =~= checks@.take(k as int));
            k = k + 1;
        }
        assert(checks@.take(n as int) =~= checks@);
        assert(v@ =~= v0 + seam_summary(checks@));
    } else {
        assert(v@ =~= v0 + seam_summary(checks@));
    }
}

fn push_layer_block(v: &mut Vec<char>, l: &LayerOutcome)
    ensures
        final(v)@ == old(v)@ + layer_block(*l),
{
    let ghost v0 = v@;
    push_str(v, "  [");
    match l.status {
        LayerStatus::Passed => push_str(v, "PASS"),
        LayerStatus::Failed => push_str(v, "FAIL"),
        LayerStatus::Pending => push_str(v, "PENDING"),
        LayerStatus::InProgress => push_str(v, "IN-PROGRESS"),
        LayerStatus::Skipped => push_str(v, "SKIP"),
    }
    push_str(v, "] ");
    push_str(v, l.name.as_str());
    match &l.halted_by {
        Some(r) => {
            push_str(v, " \u{2014} ");
            push_str(v, r.as_str());
        },
        None => {},
    }
    push_str(v, "\n");
    let ghost mid = v@;
    push_seam_summary(v, &l.seam_checks);
    assert(v@ =~= v0 + layer_block(*l));
}

/// The text report of a stack evaluation (see `evaluation_report_text`).
pub fn evaluation_report(layers: &Vec<LayerOutcome>, overall: ManifestStatus) -> (s: String)
    requires
        total_seam_checks(layers@) <= u64::MAX,
    ensures
        s@ == evaluation_report_text(layers@, overall),
{
    let mut v: Vec<char> = Vec::new();
    push_str(&mut v, "\nStack Loops Evaluation \u{2014} ");
    push_u64_text(&mut v, layers.len() as u64);
    push_str(&mut v, " layers\n");
    push_str(&mut v, "=======================================\n");
    let ghost head = v@;
    let mut total: u64 = 0;
    let mut failed: u64 = 0;
    let mut i: usize = 0;
    while i < layers.len()
        invariant
            i <= layers@.len(),
            total_seam_checks(layers@) <= u64::MAX,
            v@ == head + layer_blocks(layers@.take(i as int)),
            total == total_seam_checks(layers@.take(i as int)),
            failed == failed_seam_checks(layers@.take(i as int)),
        decreases layers@.len() - i,
    {
        let l = &layers[i];
        assert(layers@.take(i + 1).drop_last() =~= layers@.take(i as int));
        assert(layers@.take(i + 1).last() == layers@[i as int]);
        push_layer_block(&mut v, l);
        proof {
            lemma_total_prefix(layers@, i + 1);
            lemma_failed_le_total(layers@.take(i + 1));
        }
        total = total + l.seam_checks.len() as u64;
        failed = failed + count_failed_checks(&l.seam_checks);
        i = i + 1;
    }
    assert(layers@.take(layers@.len() as int) =~= layers@);
    proof {
        lemma_failed_le_total(layers@);
    }
    if total > 0 {
        push_str(&mut v, "\nSeam checks: ");
        push_u64_text(&mut v, total - failed);
        push_str(&mut v, "/");
        push_u64_text(&mut v, total);
        push_str(&mut v, " passed (");
        push_u64_text(&mut v, failed);
        push_str(&mut v, " failed)\n");
    }
    push_str(&mut v, "\nOverall: ");
    match overall {
        ManifestStatus::Passed => push_str(&mut v, "PASS"),
        ManifestStatus::InProgress => push_str(&mut v, "IN-PROGRESS"),
        _ => push_str(&mut v, "FAIL"),
    }
    push_str(&mut v, "\n");
    assert(v@ =~= evaluation_report_text(layers@, overall));
    chars_to_string(v.as_slice())
}

proof fn lemma_total_prefix(layers: Seq<LayerOutcome>, k: int)
    requires
        0 <= k <= layers.len(),
    ensures
        total_seam_checks(layers.take(k)) <= total_seam_checks(layers),
    decreases layers.len(),
{
    if k < layers.len() {
        assert(layers.drop_last().take(k) =~= layers.take(k));
        lemma_total_prefix(layers.drop_last(), k);
    } else {
        assert(layers.take(k) =~= layers);
    }
}

} // verus!
