//! Workflow validation — schema, triggers, cross-references, seams, models.
//!
//! Each pass collects every problem it finds before returning, in the order
//! the configuration is walked, so a caller can print them all at once.
use crate::decimal::{dec_lt, decimal_lt, decimal_text, push_decimal_text, Decimal};
use crate::layers::LayersConfig;
use crate::seam::{
    canonical_text, check_applies, check_ids, lookup_check, spec_parse_boundary, strings_view, LayerBoundary,
    ParseBoundaryError, Registry, SeamCheck, SpecBoundaryError,
};
use crate::strmap::{has_key, lemma_has_key, lookup, lower_bound, sorted_keys, StrMap};
use crate::text::{chars_to_string, nat_text, push_chars, push_str, push_u64_text, str_eq, str_to_chars};
use crate::workflow::schema::{LayerOverride, WorkflowConfig, MAX_PARALLELISM_HARD_CAP, SCHEMA_VERSION};
use crate::workflow::trigger::parse::{parse, spec_parse};
use vstd::prelude::*;

verus! {

/// A validation error: the field path, a message, and for trigger syntax
/// errors the 1-based line and column inside the expression.
#[derive(Clone, Debug, PartialEq)]
pub struct ValidationError {
    pub field: String,
    pub message: String,
    pub line: Option<usize>,
    pub column: Option<usize>,
}

/// A non-fatal finding.
#[derive(Clone, Debug, PartialEq)]
pub struct ValidationWarning {
    pub field: String,
    pub message: String,
}

/// Everything one or more passes found.
#[derive(Clone, Debug, PartialEq)]
pub struct ValidationReport {
    pub errors: Vec<ValidationError>,
    pub warnings: Vec<ValidationWarning>,
}

/// A finding as plain text (warnings carry no position).
pub struct SpecIssue {
    pub field: Seq<char>,
    pub message: Seq<char>,
    pub line: Option<int>,
    pub column: Option<int>,
}

#[verifier::ext_equal]
pub struct SpecReport {
    pub errors: Seq<SpecIssue>,
    pub warnings: Seq<SpecIssue>,
}

pub open spec fn opt_int(o: Option<usize>) -> Option<int> {
    match o {
        Some(x) => Some(x as int),
        None => None,
    }
}

impl View for ValidationError {
    type V = SpecIssue;

    open spec fn view(&self) -> SpecIssue {
        SpecIssue {
            field: self.field@,
            message: self.message@,
            line: opt_int(self.line),
            column: opt_int(self.column),
        }
    }
}

impl View for ValidationWarning {
    type V = SpecIssue;

    open spec fn view(&self) -> SpecIssue {
        SpecIssue { field: self.field@, message: self.message@, line: None, column: None }
    }
}

pub open spec fn errors_view(v: Seq<ValidationError>) -> Seq<SpecIssue> {
    v.map_values(|e: ValidationError| e@)
}

pub open spec fn warnings_view(v: Seq<ValidationWarning>) -> Seq<SpecIssue> {
    v.map_values(|w: ValidationWarning| w@)
}

impl View for ValidationReport {
    type V = SpecReport;

    open spec fn view(&self) -> SpecReport {
        SpecReport { errors: errors_view(self.errors@), warnings: warnings_view(self.warnings@) }
    }
}

/// A finding with no position.
pub open spec fn issue(field: Seq<char>, message: Seq<char>) -> SpecIssue {
    SpecIssue { field, message, line: None, column: None }
}

pub open spec fn only_errors(e: Seq<SpecIssue>) -> SpecReport {
    SpecReport { errors: e, warnings: Seq::empty() }
}

pub open spec fn join_reports(a: SpecReport, b: SpecReport) -> SpecReport {
    SpecReport { errors: a.errors + b.errors, warnings: a.warnings + b.warnings }
}

impl Default for ValidationReport {
    fn default() -> (r: Self)
        ensures
            r@.errors.len() == 0,
            r@.warnings.len() == 0,
    {
        ValidationReport { errors: Vec::new(), warnings: Vec::new() }
    }
}

impl ValidationReport {
    /// No errors (warnings allowed).
    pub fn is_ok(&self) -> (r: bool)
        ensures
            r == (self.errors@.len() == 0),
    {
        self.errors.len() == 0
    }

    /// Append `other`'s errors and warnings after this report's.
    pub fn extend(&mut self, other: ValidationReport)
        ensures
            final(self)@ == join_reports(old(self)@, other@),
    {
        let ValidationReport { errors, warnings } = other;
        let mut errors = errors;
        let mut warnings = warnings;
        let ghost e0 = self.errors@;
        let ghost o0 = errors@;
        let ghost w0 = self.warnings@;
        let ghost ow = warnings@;
        self.errors.append(&mut errors);
        self.warnings.append(&mut warnings);
        assert(errors_view(self.errors@) =~= errors_view(e0) + errors_view(o0));
        assert(warnings_view(self.warnings@) =~= warnings_view(w0) + warnings_view(ow));
    }
}

fn new_report() -> (r: ValidationReport)
    ensures
        r@ == only_errors(Seq::empty()),
{
    let r = ValidationReport { errors: Vec::new(), warnings: Vec::new() };
    assert(r@.errors =~= Seq::<SpecIssue>::empty());
    assert(r@.warnings =~= Seq::<SpecIssue>::empty());
    r
}

fn push_error(r: &mut ValidationReport, field: &Vec<char>, message: &Vec<char>)
    ensures
        final(r)@.errors == old(r)@.errors.push(issue(field@, message@)),
        final(r)@.warnings == old(r)@.warnings,
{
    let ghost e0 = errors_view(r.errors@);
    r.errors.push(
        ValidationError {
            field: chars_to_string(field),
            message: chars_to_string(message),
            line: None,
            column: None,
        },
    );
    assert(errors_view(r.errors@) =~= e0.push(issue(field@, message@)));
}

fn push_warning(r: &mut ValidationReport, field: &Vec<char>, message: &Vec<char>)
    ensures
        final(r)@.warnings == old(r)@.warnings.push(issue(field@, message@)),
        final(r)@.errors == old(r)@.errors,
{
    let ghost w0 = warnings_view(r.warnings@);
    r.warnings.push(
        ValidationWarning { field: chars_to_string(field), message: chars_to_string(message) },
    );
    assert(warnings_view(r.warnings@) =~= w0.push(issue(field@, message@)));
}

fn chars_of(s: &str) -> (v: Vec<char>)
    ensures
        v@ == s@,
{
    str_to_chars(s)
}

fn cat(a: &str, b: &str) -> (v: Vec<char>)
    ensures
        v@ == a@ + b@,
{
    let mut v = str_to_chars(a);
    push_str(&mut v, b);
    v
}

// ─── Schema-only checks ────────────────────────────────────────────────────

/// `d` lies in `[0, 1]`.
pub open spec fn in_unit(d: Decimal) -> bool {
    !dec_lt(d, Decimal { mantissa: 0, scale: 0 }) && !dec_lt(Decimal { mantissa: 1, scale: 0 }, d)
}

pub open spec fn is_negative(d: Decimal) -> bool {
    dec_lt(d, Decimal { mantissa: 0, scale: 0 })
}

pub open spec fn tier_ok(t: u8) -> bool {
    1 <= t <= 3
}

pub open spec fn confidence_message(d: Decimal) -> Seq<char> {
    "min_confidence must be between 0 and 1; got "@ + decimal_text(d)
}

pub open spec fn tier_message(t: u8) -> Seq<char> {
    "tier must be 1, 2, or 3; got "@ + nat_text(t as nat)
}

pub open spec fn budget_message(d: Decimal) -> Seq<char> {
    "budget_usd must be non-negative; got "@ + decimal_text(d)
}

pub open spec fn when(c: bool, i: SpecIssue) -> Seq<SpecIssue> {
    if c {
        seq![i]
    } else {
        Seq::empty()
    }
}

pub open spec fn layer_field(layer: Seq<char>, name: Seq<char>) -> Seq<char> {
    "layer_overrides."@ + layer + "."@ + name
}

/// Range errors of one layer override.
pub open spec fn layer_range_errors(layer: Seq<char>, o: LayerOverride) -> Seq<SpecIssue> {
    (match o.tier {
        Some(t) => when(!tier_ok(t), issue(layer_field(layer, "tier"@), tier_message(t))),
        None => Seq::empty(),
    }) + (match o.min_confidence {
        Some(m) => when(
            !in_unit(m),
            issue(layer_field(layer, "min_confidence"@), confidence_message(m)),
        ),
        None => Seq::empty(),
    }) + (match o.budget_usd {
        Some(b) => when(is_negative(b), issue(layer_field(layer, "budget_usd"@), budget_message(b))),
        None => Seq::empty(),
    })
}

pub open spec fn layers_range_errors(s: Seq<(String, LayerOverride)>) -> Seq<SpecIssue>
    decreases s.len(),
{
    if s.len() == 0 {
        Seq::empty()
    } else {
        layers_range_errors(s.drop_last()) + layer_range_errors(s.last().0@, s.last().1)
    }
}

/// The errors about `schema_version` and `defaults`, in check order.
pub open spec fn schema_head_errors(cfg: WorkflowConfig) -> Seq<SpecIssue> {
    when(
        cfg.schema_version@ != SCHEMA_VERSION@,
        issue(
            "schema_version"@,
            "schema_version \""@ + cfg.schema_version@ + "\" is not supported; expected \""@
                + SCHEMA_VERSION@ + "\""@,
        ),
    ) + when(
        !in_unit(cfg.defaults.min_confidence),
        issue("defaults.min_confidence"@, confidence_message(cfg.defaults.min_confidence)),
    ) + when(
        !tier_ok(cfg.defaults.tier),
        issue("defaults.tier"@, tier_message(cfg.defaults.tier)),
    ) + when(
        is_negative(cfg.defaults.budget_usd),
        issue("defaults.budget_usd"@, budget_message(cfg.defaults.budget_usd)),
    ) + when(cfg.defaults.max_passes == 0, issue("defaults.max_passes"@, "max_passes must be ≥ 1"@))

}

/// Every schema error of `cfg`, in check order.
pub open spec fn schema_errors(cfg: WorkflowConfig) -> Seq<SpecIssue> {
    schema_head_errors(cfg) + layers_range_errors(cfg.layer_overrides.kv())
}

/// A warning when `defaults.max_parallelism` asks for more than the hard
/// cap (dispatch clamps it to the cap).
pub open spec fn parallelism_warnings(cfg: WorkflowConfig) -> Seq<SpecIssue> {
    match cfg.defaults.max_parallelism {
        Some(n) => when(
            n > MAX_PARALLELISM_HARD_CAP,
            issue(
                "defaults.max_parallelism"@,
                "max_parallelism "@ + nat_text(n as nat) + " exceeds the hard cap of "@ + nat_text(
                    MAX_PARALLELISM_HARD_CAP as nat,
                ) + "; it will be clamped to "@ + nat_text(MAX_PARALLELISM_HARD_CAP as nat),
            ),
        ),
        None => Seq::empty(),
    }
}

/// The report of `validate_schema_only`.
pub open spec fn schema_report(cfg: WorkflowConfig) -> SpecReport {
    SpecReport { errors: schema_errors(cfg), warnings: parallelism_warnings(cfg) }
}

proof fn lemma_contains_concat(a: Seq<SpecIssue>, b: Seq<SpecIssue>, e: SpecIssue)
    ensures
        (a + b).contains(e) <==> (a.contains(e) || b.contains(e)),
{
    if (a + b).contains(e) {
        let i = choose|i: int| 0 <= i < (a + b).len() && (a + b)[i] == e;
        if i < a.len() {
            assert(a[i] == e);
        } else {
            assert(b[i - a.len()] == e);
        }
    }
    if a.contains(e) {
        let i = choose|i: int| 0 <= i < a.len() && a[i] == e;
        assert((a + b)[i] == e);
    }
    if b.contains(e) {
        let i = choose|i: int| 0 <= i < b.len() && b[i] == e;
        assert((a + b)[a.len() + i] == e);
    }
}

proof fn lemma_layers_range_errors_members(s: Seq<(String, LayerOverride)>, e: SpecIssue)
    ensures
        layers_range_errors(s).contains(e) <==> exists|j: int|
            0 <= j < s.len() && #[trigger] layer_range_errors(s[j].0@, s[j].1).contains(e),
    decreases s.len(),
{
    if s.len() > 0 {
        let d = s.drop_last();
        lemma_layers_range_errors_members(d, e);
        lemma_contains_concat(layers_range_errors(d), layer_range_errors(s.last().0@, s.last().1), e);
        if exists|j: int| 0 <= j < s.len() && #[trigger] layer_range_errors(s[j].0@, s[j].1).contains(e) {
            let j = choose|j: int| 0 <= j < s.len() && #[trigger] layer_range_errors(s[j].0@, s[j].1).contains(e);
            if j < d.len() {
                assert(d[j] == s[j]);
            }
        }
        if exists|j: int| 0 <= j < d.len() && #[trigger] layer_range_errors(d[j].0@, d[j].1).contains(e) {
            let j = choose|j: int| 0 <= j < d.len() && #[trigger] layer_range_errors(d[j].0@, d[j].1).contains(e);
            assert(d[j] == s[j]);
        }
    }
}

proof fn lemma_layer_field_is_tier(a: Seq<char>, n: Seq<char>, b: Seq<char>)
    requires
        n == "tier"@ || n == "min_confidence"@ || n == "budget_usd"@,
        layer_field(a, n) == layer_field(b, "tier"@),
    ensures
        n == "tier"@,
        a == b,
{
    reveal_strlit("tier");
    reveal_strlit("min_confidence");
    reveal_strlit("budget_usd");
    reveal_strlit("layer_overrides.");
    reveal_strlit(".");
    let x = layer_field(a, n);
    let y = layer_field(b, "tier"@);
    assert(x.last() == n.last());
    assert(y.last() == 'r');
    assert(n == "tier"@);
    assert(a.len() == b.len());
    assert(a =~= x.subrange(16, 16 + a.len() as int));
    assert(b =~= y.subrange(16, 16 + b.len() as int));
}

/// The range check on a layer's tier: `validate_schema_only` reports
/// `tier must be 1, 2, or 3; got <t>` at `layer_overrides.<layer>.tier`
/// exactly when the layer's tier is outside 1..=3 (the same range as
/// `defaults.tier`); a tier inside the range draws no error at that field.
proof fn lemma_head_fields(cfg: WorkflowConfig, e: SpecIssue)
    requires
        schema_head_errors(cfg).contains(e),
    ensures
        e.field.len() > 0 && e.field[0] != 'l',
{
    reveal_strlit("schema_version");
    reveal_strlit("defaults.min_confidence");
    reveal_strlit("defaults.tier");
    reveal_strlit("defaults.budget_usd");
    reveal_strlit("defaults.max_passes");
    let h = choose|h: int| 0 <= h < schema_head_errors(cfg).len() && schema_head_errors(cfg)[h] == e;
}

proof fn lemma_no_tier_error_in_range(s: Seq<(String, LayerOverride)>, i: int, e: SpecIssue)
    requires
        sorted_keys(s),
        0 <= i < s.len(),
        s[i].1.tier matches Some(t) && 1 <= t <= 3,
        layers_range_errors(s).contains(e),
    ensures
        e.field != layer_field(s[i].0@, "tier"@),
{
    let k = s[i].0@;
    lemma_has_key(s, k);
    lemma_layers_range_errors_members(s, e);
    let j = choose|j: int| 0 <= j < s.len() && #[trigger] layer_range_errors(s[j].0@, s[j].1).contains(e);
    let kj = s[j].0@;
    let oj = s[j].1;
    let a = match oj.tier {
        Some(tj) => when(!tier_ok(tj), issue(layer_field(kj, "tier"@), tier_message(tj))),
        None => Seq::empty(),
    };
    let bb = match oj.min_confidence {
        Some(m) => when(!in_unit(m), issue(layer_field(kj, "min_confidence"@), confidence_message(m))),
        None => Seq::empty(),
    };
    let c = match oj.budget_usd {
        Some(m) => when(is_negative(m), issue(layer_field(kj, "budget_usd"@), budget_message(m))),
        None => Seq::empty(),
    };
    assert(layer_range_errors(kj, oj) == a + bb + c);
    lemma_contains_concat(a + bb, c, e);
    lemma_contains_concat(a, bb, e);
    if e.field == layer_field(k, "tier"@) {
        reveal_strlit("tier");
        reveal_strlit("min_confidence");
        reveal_strlit("budget_usd");
        if a.contains(e) {
            lemma_layer_field_is_tier(kj, "tier"@, k);
            assert(j == i);
            assert(a.len() == 0);
        } else if bb.contains(e) {
            lemma_layer_field_is_tier(kj, "min_confidence"@, k);
        } else {
            lemma_layer_field_is_tier(kj, "budget_usd"@, k);
        }
    }
}

/// The range check on a layer's tier: `validate_schema_only` reports
/// `tier must be 1, 2, or 3; got <t>` at `layer_overrides.<layer>.tier`
/// exactly when the layer's tier is outside 1..=3 (the same range as
/// `defaults.tier`); a tier inside the range draws no error at that field.
pub proof fn lemma_layer_tier_range(cfg: WorkflowConfig, k: Seq<char>, t: u8)
    requires
        sorted_keys(cfg.layer_overrides.kv()),
        has_key(cfg.layer_overrides.kv(), k),
        lookup(cfg.layer_overrides.kv(), k).unwrap().tier == Some(t),
    ensures
        !(1 <= t <= 3) ==> schema_report(cfg).errors.contains(
            issue(
                "layer_overrides."@ + k + ".tier"@,
                "tier must be 1, 2, or 3; got "@ + nat_text(t as nat),
            ),
        ),
        (1 <= t <= 3) ==> forall|e: SpecIssue|
            #[trigger] schema_report(cfg).errors.contains(e) ==> e.field != "layer_overrides."@ + k
                + ".tier"@,
{
    let s = cfg.layer_overrides.kv();
    lemma_has_key(s, k);
    let i = lower_bound(s, k);
    let o = s[i].1;
    assert(s[i].0@ == k);
    assert("layer_overrides."@ + k + ".tier"@ =~= layer_field(k, "tier"@)) by {
        reveal_strlit(".tier");
        reveal_strlit(".");
        reveal_strlit("tier");
    }
    let head = schema_head_errors(cfg);
    assert(schema_report(cfg).errors == head + layers_range_errors(s));
    let target = issue(layer_field(k, "tier"@), tier_message(t));
    if !(1 <= t <= 3) {
        assert(layer_range_errors(k, o)[0] == target);
        assert(layer_range_errors(s[i].0@, s[i].1).contains(target));
        lemma_layers_range_errors_members(s, target);
        lemma_contains_concat(head, layers_range_errors(s), target);
    } else {
        assert forall|e: SpecIssue| #[trigger] schema_report(cfg).errors.contains(e) implies e.field
            != layer_field(k, "tier"@) by {
            lemma_contains_concat(head, layers_range_errors(s), e);
            if head.contains(e) {
                lemma_head_fields(cfg, e);
                reveal_strlit("layer_overrides.");
                assert(layer_field(k, "tier"@)[0] == 'l');
            } else {
                lemma_no_tier_error_in_range(s, i, e);
            }
        }
    }
}

proof fn lemma_layer_field_eq(a: Seq<char>, n1: Seq<char>, b: Seq<char>, n2: Seq<char>)
    requires
        n1 == "tier"@ || n1 == "min_confidence"@ || n1 == "budget_usd"@,
        n2 == "tier"@ || n2 == "min_confidence"@ || n2 == "budget_usd"@,
        layer_field(a, n1) == layer_field(b, n2),
    ensures
        n1 == n2,
        a == b,
{
    reveal_strlit("tier");
    reveal_strlit("min_confidence");
    reveal_strlit("budget_usd");
    reveal_strlit("layer_overrides.");
    reveal_strlit(".");
    let x = layer_field(a, n1);
    let y = layer_field(b, n2);
    assert(x.last() == n1.last());
    assert(y.last() == n2.last());
    assert(n1 == n2);
    assert(a.len() == b.len());
    assert(a =~= x.subrange(16, 16 + a.len() as int));
    assert(b =~= y.subrange(16, 16 + b.len() as int));
}

/// Layer `s[i]`'s value for `n` is out of its range.
pub open spec fn layer_value_bad(o: LayerOverride, n: Seq<char>) -> bool {
    if n == "tier"@ {
        match o.tier {
            Some(t) => !(1 <= t <= 3),
            None => false,
        }
    } else if n == "min_confidence"@ {
        match o.min_confidence {
            Some(m) => dec_lt(m, Decimal { mantissa: 0, scale: 0 }) || dec_lt(
                Decimal { mantissa: 1, scale: 0 },
                m,
            ),
            None => false,
        }
    } else {
        match o.budget_usd {
            Some(b) => dec_lt(b, Decimal { mantissa: 0, scale: 0 }),
            None => false,
        }
    }
}

proof fn lemma_layer_error_only_if_bad(
    s: Seq<(String, LayerOverride)>,
    i: int,
    n: Seq<char>,
    e: SpecIssue,
)
    requires
        sorted_keys(s),
        0 <= i < s.len(),
        n == "tier"@ || n == "min_confidence"@ || n == "budget_usd"@,
        layers_range_errors(s).contains(e),
        e.field == layer_field(s[i].0@, n),
    ensures
        layer_value_bad(s[i].1, n),
{
    let k = s[i].0@;
    lemma_has_key(s, k);
    lemma_layers_range_errors_members(s, e);
    let j = choose|j: int| 0 <= j < s.len() && #[trigger] layer_range_errors(s[j].0@, s[j].1).contains(e);
    let kj = s[j].0@;
    let oj = s[j].1;
    let a = match oj.tier {
        Some(tj) => when(!tier_ok(tj), issue(layer_field(kj, "tier"@), tier_message(tj))),
        None => Seq::empty(),
    };
    let bb = match oj.min_confidence {
        Some(m) => when(!in_unit(m), issue(layer_field(kj, "min_confidence"@), confidence_message(m))),
        None => Seq::empty(),
    };
    let c = match oj.budget_usd {
        Some(m) => when(is_negative(m), issue(layer_field(kj, "budget_usd"@), budget_message(m))),
        None => Seq::empty(),
    };
    assert(layer_range_errors(kj, oj) == a + bb + c);
    lemma_contains_concat(a + bb, c, e);
    lemma_contains_concat(a, bb, e);
    reveal_strlit("tier");
    reveal_strlit("min_confidence");
    reveal_strlit("budget_usd");
    if a.contains(e) {
        lemma_layer_field_eq(kj, "tier"@, k, n);
    } else if bb.contains(e) {
        lemma_layer_field_eq(kj, "min_confidence"@, k, n);
    } else {
        lemma_layer_field_eq(kj, "budget_usd"@, k, n);
    }
    assert(j == i);
}

/// The range checks on a layer override: `validate_schema_only` reports an
/// error at `layer_overrides.<layer>.<field>` for the layer's tier,
/// `min_confidence` and `budget_usd` exactly when the layer sets that field
/// to a value out of range — a tier outside 1..=3, a confidence below 0 or
/// above 1, a negative budget — with the message naming the value.
pub proof fn lemma_layer_ranges(cfg: WorkflowConfig, k: Seq<char>)
    requires
        sorted_keys(cfg.layer_overrides.kv()),
        has_key(cfg.layer_overrides.kv(), k),
    ensures
        ({
            let o = lookup(cfg.layer_overrides.kv(), k).unwrap();
            let errs = schema_report(cfg).errors;
            &&& (match o.tier {
                Some(t) => !(1 <= t <= 3) ==> errs.contains(
                    issue(
                        "layer_overrides."@ + k + ".tier"@,
                        "tier must be 1, 2, or 3; got "@ + nat_text(t as nat),
                    ),
                ),
                None => true,
            })
            &&& (match o.min_confidence {
                Some(m) => (dec_lt(m, Decimal { mantissa: 0, scale: 0 }) || dec_lt(
                    Decimal { mantissa: 1, scale: 0 },
                    m,
                )) ==> errs.contains(
                    issue(
                        "layer_overrides."@ + k + ".min_confidence"@,
                        "min_confidence must be between 0 and 1; got "@ + decimal_text(m),
                    ),
                ),
                None => true,
            })
            &&& (match o.budget_usd {
                Some(b) => dec_lt(b, Decimal { mantissa: 0, scale: 0 }) ==> errs.contains(
                    issue(
                        "layer_overrides."@ + k + ".budget_usd"@,
                        "budget_usd must be non-negative; got "@ + decimal_text(b),
                    ),
                ),
                None => true,
            })
        }),
        forall|e: SpecIssue|
            #[trigger] schema_report(cfg).errors.contains(e) && e.field == "layer_overrides."@ + k
                + ".tier"@ ==> layer_value_bad(lookup(cfg.layer_overrides.kv(), k).unwrap(), "tier"@),
        forall|e: SpecIssue|
            #[trigger] schema_report(cfg).errors.contains(e) && e.field == "layer_overrides."@ + k
                + ".min_confidence"@ ==> layer_value_bad(
                lookup(cfg.layer_overrides.kv(), k).unwrap(),
                "min_confidence"@,
            ),
        forall|e: SpecIssue|
            #[trigger] schema_report(cfg).errors.contains(e) && e.field == "layer_overrides."@ + k
                + ".budget_usd"@ ==> layer_value_bad(
                lookup(cfg.layer_overrides.kv(), k).unwrap(),
                "budget_usd"@,
            ),
{
    let s = cfg.layer_overrides.kv();
    lemma_has_key(s, k);
    let i = lower_bound(s, k);
    let o = s[i].1;
    assert(s[i].0@ == k);
    reveal_strlit(".tier");
    reveal_strlit(".min_confidence");
    reveal_strlit(".budget_usd");
    reveal_strlit(".");
    reveal_strlit("tier");
    reveal_strlit("min_confidence");
    reveal_strlit("budget_usd");
    assert("layer_overrides."@ + k + ".tier"@ =~= layer_field(k, "tier"@));
    assert("layer_overrides."@ + k + ".min_confidence"@ =~= layer_field(k, "min_confidence"@));
    assert("layer_overrides."@ + k + ".budget_usd"@ =~= layer_field(k, "budget_usd"@));
    let head = schema_head_errors(cfg);
    let lr = layer_range_errors(k, o);
    assert(lr == layer_range_errors(s[i].0@, s[i].1));
    assert forall|e: SpecIssue| #[trigger] lr.contains(e) implies schema_report(cfg).errors.contains(e) by {
        lemma_layers_range_errors_members(s, e);
        lemma_contains_concat(head, layers_range_errors(s), e);
    }
    let a = match o.tier {
        Some(tj) => when(!tier_ok(tj), issue(layer_field(k, "tier"@), tier_message(tj))),
        None => Seq::empty(),
    };
    let bb = match o.min_confidence {
        Some(m) => when(!in_unit(m), issue(layer_field(k, "min_confidence"@), confidence_message(m))),
        None => Seq::empty(),
    };
    let c = match o.budget_usd {
        Some(m) => when(is_negative(m), issue(layer_field(k, "budget_usd"@), budget_message(m))),
        None => Seq::empty(),
    };
    assert(lr == a + bb + c);
    if let Some(t) = o.tier {
        if !(1 <= t <= 3) {
            assert(lr[0] == a[0]);
            assert(lr.contains(a[0]));
        }
    }
    if let Some(m) = o.min_confidence {
        if !in_unit(m) {
            assert(lr[a.len() as int] == bb[0]);
            assert(lr.contains(bb[0]));
        }
    }
    if let Some(m) = o.budget_usd {
        if is_negative(m) {
            assert(lr[(a.len() + bb.len()) as int] == c[0]);
            assert(lr.contains(c[0]));
        }
    }
    assert forall|e: SpecIssue|
        #[trigger] schema_report(cfg).errors.contains(e) && e.field == "layer_overrides."@ + k
            + ".tier"@ implies layer_value_bad(lookup(cfg.layer_overrides.kv(), k).unwrap(), "tier"@) by {
        lemma_contains_concat(head, layers_range_errors(s), e);
        if head.contains(e) {
            lemma_head_fields(cfg, e);
            reveal_strlit("layer_overrides.");
            assert(layer_field(k, "tier"@)[0] == 'l');
        } else {
            lemma_layer_error_only_if_bad(s, i, "tier"@, e);
        }
    }
    assert forall|e: SpecIssue|
        #[trigger] schema_report(cfg).errors.contains(e) && e.field == "layer_overrides."@ + k
            + ".min_confidence"@ implies layer_value_bad(lookup(cfg.layer_overrides.kv(), k).unwrap(), "min_confidence"@) by {
        lemma_contains_concat(head, layers_range_errors(s), e);
        if head.contains(e) {
            lemma_head_fields(cfg, e);
            reveal_strlit("layer_overrides.");
            assert(layer_field(k, "min_confidence"@)[0] == 'l');
        } else {
            lemma_layer_error_only_if_bad(s, i, "min_confidence"@, e);
        }
    }
    assert forall|e: SpecIssue|
        #[trigger] schema_report(cfg).errors.contains(e) && e.field == "layer_overrides."@ + k
            + ".budget_usd"@ implies layer_value_bad(lookup(cfg.layer_overrides.kv(), k).unwrap(), "budget_usd"@) by {
        lemma_contains_concat(head, layers_range_errors(s), e);
        if head.contains(e) {
            lemma_head_fields(cfg, e);
            reveal_strlit("layer_overrides.");
            assert(layer_field(k, "budget_usd"@)[0] == 'l');
        } else {
            lemma_layer_error_only_if_bad(s, i, "budget_usd"@, e);
        }
    }
}

proof fn lemma_layer_errors_field_start(s: Seq<(String, LayerOverride)>, e: SpecIssue)
    requires
        layers_range_errors(s).contains(e),
    ensures
        e.field.len() > 0 && e.field[0] == 'l',
{
    reveal_strlit("layer_overrides.");
    lemma_layers_range_errors_members(s, e);
    let j = choose|j: int| 0 <= j < s.len() && #[trigger] layer_range_errors(s[j].0@, s[j].1).contains(e);
    let kj = s[j].0@;
    let oj = s[j].1;
    let a = match oj.tier {
        Some(tj) => when(!tier_ok(tj), issue(layer_field(kj, "tier"@), tier_message(tj))),
        None => Seq::empty(),
    };
    let bb = match oj.min_confidence {
        Some(m) => when(!in_unit(m), issue(layer_field(kj, "min_confidence"@), confidence_message(m))),
        None => Seq::empty(),
    };
    let c = match oj.budget_usd {
        Some(m) => when(is_negative(m), issue(layer_field(kj, "budget_usd"@), budget_message(m))),
        None => Seq::empty(),
    };
    assert(layer_range_errors(kj, oj) == a + bb + c);
    lemma_contains_concat(a + bb, c, e);
    lemma_contains_concat(a, bb, e);
}

proof fn lemma_defaults_error_source(cfg: WorkflowConfig, e: SpecIssue)
    requires
        schema_report(cfg).errors.contains(e),
    ensures
        e.field == "defaults.tier"@ ==> !tier_ok(cfg.defaults.tier),
        e.field == "defaults.min_confidence"@ ==> !in_unit(cfg.defaults.min_confidence),
        e.field == "defaults.budget_usd"@ ==> is_negative(cfg.defaults.budget_usd),
        e.field == "defaults.max_passes"@ ==> cfg.defaults.max_passes == 0,
{
    let d = cfg.defaults;
    let w0 = when(
        cfg.schema_version@ != SCHEMA_VERSION@,
        issue(
            "schema_version"@,
            "schema_version \""@ + cfg.schema_version@ + "\" is not supported; expected \""@
                + SCHEMA_VERSION@ + "\""@,
        ),
    );
    let w1 = when(!in_unit(d.min_confidence), issue("defaults.min_confidence"@, confidence_message(d.min_confidence)));
    let w2 = when(!tier_ok(d.tier), issue("defaults.tier"@, tier_message(d.tier)));
    let w3 = when(is_negative(d.budget_usd), issue("defaults.budget_usd"@, budget_message(d.budget_usd)));
    let w4 = when(d.max_passes == 0, issue("defaults.max_passes"@, "max_passes must be ≥ 1"@));
    let head = schema_head_errors(cfg);
    let s = cfg.layer_overrides.kv();
    assert(head == w0 + w1 + w2 + w3 + w4);
    reveal_strlit("schema_version");
    reveal_strlit("defaults.min_confidence");
    reveal_strlit("defaults.tier");
    reveal_strlit("defaults.budget_usd");
    reveal_strlit("defaults.max_passes");
    assert("schema_version"@.len() == 14 && "defaults.tier"@.len() == 13
        && "defaults.min_confidence"@.len() == 23 && "defaults.budget_usd"@.len() == 19
        && "defaults.max_passes"@.len() == 19);
    assert("defaults.budget_usd"@[9] != "defaults.max_passes"@[9]);
    lemma_contains_concat(head, layers_range_errors(s), e);
    if layers_range_errors(s).contains(e) {
        lemma_layer_errors_field_start(s, e);
    } else {
        lemma_contains_concat(w0 + w1 + w2 + w3, w4, e);
        lemma_contains_concat(w0 + w1 + w2, w3, e);
        lemma_contains_concat(w0 + w1, w2, e);
        lemma_contains_concat(w0, w1, e);
        if w0.contains(e) {
            assert(e == w0[0]);
        }
        if w1.contains(e) {
            assert(e == w1[0]);
        }
        if w2.contains(e) {
            assert(e == w2[0]);
        }
        if w3.contains(e) {
            assert(e == w3[0]);
        }
        if w4.contains(e) {
            assert(e == w4[0]);
        }
    }
}

/// The range checks on `defaults`: `validate_schema_only` reports an error
/// at `defaults.tier`, `defaults.min_confidence`, `defaults.budget_usd` or
/// `defaults.max_passes` exactly when that value is out of range — a tier
/// outside 1..=3, a confidence below 0 or above 1, a negative budget, zero
/// passes.
pub proof fn lemma_defaults_ranges(cfg: WorkflowConfig)
    ensures
        ({
            let d = cfg.defaults;
            let errs = schema_report(cfg).errors;
            &&& (!(1 <= d.tier <= 3) ==> errs.contains(
                issue("defaults.tier"@, "tier must be 1, 2, or 3; got "@ + nat_text(d.tier as nat)),
            ))
            &&& ((dec_lt(d.min_confidence, Decimal { mantissa: 0, scale: 0 }) || dec_lt(
                Decimal { mantissa: 1, scale: 0 },
                d.min_confidence,
            )) ==> errs.contains(
                issue(
                    "defaults.min_confidence"@,
                    "min_confidence must be between 0 and 1; got "@ + decimal_text(d.min_confidence),
                ),
            ))
            &&& (dec_lt(d.budget_usd, Decimal { mantissa: 0, scale: 0 }) ==> errs.contains(
                issue(
                    "defaults.budget_usd"@,
                    "budget_usd must be non-negative; got "@ + decimal_text(d.budget_usd),
                ),
            ))
            &&& (d.max_passes == 0 ==> errs.contains(
                issue("defaults.max_passes"@, "max_passes must be ≥ 1"@),
            ))
        }),
        forall|e: SpecIssue|
            #[trigger] schema_report(cfg).errors.contains(e) && e.field == "defaults.tier"@ ==> !(1
                <= cfg.defaults.tier <= 3),
        forall|e: SpecIssue|
            #[trigger] schema_report(cfg).errors.contains(e) && e.field == "defaults.min_confidence"@
                ==> dec_lt(cfg.defaults.min_confidence, Decimal { mantissa: 0, scale: 0 }) || dec_lt(
                Decimal { mantissa: 1, scale: 0 },
                cfg.defaults.min_confidence,
            ),
        forall|e: SpecIssue|
            #[trigger] schema_report(cfg).errors.contains(e) && e.field == "defaults.budget_usd"@
                ==> dec_lt(cfg.defaults.budget_usd, Decimal { mantissa: 0, scale: 0 }),
        forall|e: SpecIssue|
            #[trigger] schema_report(cfg).errors.contains(e) && e.field == "defaults.max_passes"@
                ==> cfg.defaults.max_passes == 0,
{
    let d = cfg.defaults;
    let w0 = when(
        cfg.schema_version@ != SCHEMA_VERSION@,
        issue(
            "schema_version"@,
            "schema_version \""@ + cfg.schema_version@ + "\" is not supported; expected \""@
                + SCHEMA_VERSION@ + "\""@,
        ),
    );
    let w1 = when(!in_unit(d.min_confidence), issue("defaults.min_confidence"@, confidence_message(d.min_confidence)));
    let w2 = when(!tier_ok(d.tier), issue("defaults.tier"@, tier_message(d.tier)));
    let w3 = when(is_negative(d.budget_usd), issue("defaults.budget_usd"@, budget_message(d.budget_usd)));
    let w4 = when(d.max_passes == 0, issue("defaults.max_passes"@, "max_passes must be ≥ 1"@));
    let head = schema_head_errors(cfg);
    let s = cfg.layer_overrides.kv();
    assert(head == w0 + w1 + w2 + w3 + w4);
    assert forall|e: SpecIssue| #[trigger] schema_report(cfg).errors.contains(e) implies (e.field
        == "defaults.tier"@ ==> !tier_ok(d.tier)) && (e.field == "defaults.min_confidence"@
        ==> !in_unit(d.min_confidence)) && (e.field == "defaults.budget_usd"@ ==> is_negative(
        d.budget_usd,
    )) && (e.field == "defaults.max_passes"@ ==> d.max_passes == 0) by {
        lemma_defaults_error_source(cfg, e);
    }
    let errs = schema_report(cfg).errors;
    assert forall|x: SpecIssue| #[trigger] head.contains(x) implies errs.contains(x) by {
        lemma_contains_concat(head, layers_range_errors(s), x);
    }
    if !tier_ok(d.tier) {
        assert(head[(w0.len() + w1.len()) as int] == w2[0]);
        assert(head.contains(w2[0]));
    }
    if !in_unit(d.min_confidence) {
        assert(head[w0.len() as int] == w1[0]);
        assert(head.contains(w1[0]));
    }
    if is_negative(d.budget_usd) {
        assert(head[(w0.len() + w1.len() + w2.len()) as int] == w3[0]);
        assert(head.contains(w3[0]));
    }
    if d.max_passes == 0 {
        assert(head[(w0.len() + w1.len() + w2.len() + w3.len()) as int] == w4[0]);
        assert(head.contains(w4[0]));
    }
}

fn in_unit_exec(d: &Decimal) -> (b: bool)
    ensures
        b == in_unit(*d),
{
    !decimal_lt(d, &Decimal { mantissa: 0, scale: 0 }) && !decimal_lt(
        &Decimal { mantissa: 1, scale: 0 },
        d,
    )
}

fn decimal_message(prefix: &str, d: &Decimal) -> (v: Vec<char>)
    ensures
        v@ == prefix@ + decimal_text(*d),
{
    let mut v = str_to_chars(prefix);
    push_decimal_text(&mut v, d);
    v
}

fn tier_message_exec(t: u8) -> (v: Vec<char>)
    ensures
        v@ == tier_message(t),
{
    let mut v = str_to_chars("tier must be 1, 2, or 3; got ");
    push_u64_text(&mut v, t as u64);
    v
}

fn layer_field_exec(layer: &String, name: &str) -> (v: Vec<char>)
    ensures
        v@ == layer_field(layer@, name@),
{
    let mut v = str_to_chars("layer_overrides.");
    push_str(&mut v, layer.as_str());
    push_str(&mut v, ".");
    push_str(&mut v, name);
    assert(v@ =~= layer_field(layer@, name@));
    v
}

fn check_layer_ranges(r: &mut ValidationReport, layer: &String, o: &LayerOverride)
    ensures
        final(r)@ == join_reports(old(r)@, only_errors(layer_range_errors(layer@, *o))),
{
    let ghost r0 = r@;
    if let Some(t) = o.tier {
        if !(1 <= t && t <= 3) {
            push_error(r, &layer_field_exec(layer, "tier"), &tier_message_exec(t));
        }
    }
    let ghost r1 = r@;
    if let Some(m) = o.min_confidence {
        if !in_unit_exec(&m) {
            push_error(
                r,
                &layer_field_exec(layer, "min_confidence"),
                &decimal_message("min_confidence must be between 0 and 1; got ", &m),
            );
        }
    }
    let ghost r2 = r@;
    if let Some(b) = o.budget_usd {
        if decimal_lt(&b, &Decimal { mantissa: 0, scale: 0 }) {
            push_error(
                r,
                &layer_field_exec(layer, "budget_usd"),
                &decimal_message("budget_usd must be non-negative; got ", &b),
            );
        }
    }
    assert(r@.errors =~= r0.errors + layer_range_errors(layer@, *o));
    assert(r@.warnings =~= r0.warnings + Seq::<SpecIssue>::empty());
}

/// Check `schema_version`, the value ranges of `defaults`, and the ranges
/// of every layer override's tier, confidence and budget; warn when
/// `max_parallelism` exceeds the hard cap.
pub fn validate_schema_only(cfg: &WorkflowConfig) -> (r: ValidationReport)
    ensures
        r@ == schema_report(*cfg),
{
    let mut r = new_report();
    if !str_eq(cfg.schema_version.as_str(), SCHEMA_VERSION) {
        let mut m = str_to_chars("schema_version \"");
        push_str(&mut m, cfg.schema_version.as_str());
        push_str(&mut m, "\" is not supported; expected \"");
        push_str(&mut m, SCHEMA_VERSION);
        push_str(&mut m, "\"");
        push_error(&mut r, &chars_of("schema_version"), &m);
    }
    if !in_unit_exec(&cfg.defaults.min_confidence) {
        push_error(
            &mut r,
            &chars_of("defaults.min_confidence"),
            &decimal_message(
                "min_confidence must be between 0 and 1; got ",
                &cfg.defaults.min_confidence,
            ),
        );
    }
    if !(1 <= cfg.defaults.tier && cfg.defaults.tier <= 3) {
        push_error(&mut r, &chars_of("defaults.tier"), &tier_message_exec(cfg.defaults.tier));
    }
    if decimal_lt(&cfg.defaults.budget_usd, &Decimal { mantissa: 0, scale: 0 }) {
        push_error(
            &mut r,
            &chars_of("defaults.budget_usd"),
            &decimal_message("budget_usd must be non-negative; got ", &cfg.defaults.budget_usd),
        );
    }
    if cfg.defaults.max_passes == 0 {
        push_error(&mut r, &chars_of("defaults.max_passes"), &chars_of("max_passes must be ≥ 1"));
    }
    let ghost head = r@.errors;
    assert(head =~= schema_errors(*cfg).subrange(
        0,
        schema_errors(*cfg).len() - layers_range_errors(cfg.layer_overrides.kv()).len(),
    ));
    let es = cfg.layer_overrides.entries();
    let n = es.len();
    let mut i: usize = 0;
    while i < n
        invariant
            n == es@.len(),
            es@ == cfg.layer_overrides.kv(),
            i <= n,
            r@.warnings.len() == 0,
            r@.errors == head + layers_range_errors(es@.subrange(0, i as int)),
        decreases n - i,
    {
        assert(es@.subrange(0, i + 1).drop_last() =~= es@.subrange(0, i as int));
        check_layer_ranges(&mut r, &es[i].0, &es[i].1);
        i = i + 1;
        assert(r@.errors =~= head + layers_range_errors(es@.subrange(0, i as int)));
    }
    assert(es@.subrange(0, n as int) =~= es@);
    assert(r@.errors =~= schema_errors(*cfg));
    if let Some(n) = cfg.defaults.max_parallelism {
        if n > MAX_PARALLELISM_HARD_CAP {
            let mut m = chars_of("max_parallelism ");
            push_u64_text(&mut m, n as u64);
            push_str(&mut m, " exceeds the hard cap of ");
            push_u64_text(&mut m, MAX_PARALLELISM_HARD_CAP as u64);
            push_str(&mut m, "; it will be clamped to ");
            push_u64_text(&mut m, MAX_PARALLELISM_HARD_CAP as u64);
            push_warning(&mut r, &chars_of("defaults.max_parallelism"), &m);
        }
    }
    assert(r@.warnings =~= parallelism_warnings(*cfg));
    r
}

// ─── Trigger checks ────────────────────────────────────────────────────────

/// The syntax error of one trigger expression, if it has one.
pub open spec fn trigger_error(field: Seq<char>, expr: Seq<char>) -> Seq<SpecIssue> {
    match spec_parse(expr) {
        Ok(_) => Seq::empty(),
        Err(e) => seq![
            SpecIssue { field, message: e.message, line: Some(e.line), column: Some(e.column) },
        ],
    }
}

pub open spec fn layer_trigger_errors(s: Seq<(String, LayerOverride)>) -> Seq<SpecIssue>
    decreases s.len(),
{
    if s.len() == 0 {
        Seq::empty()
    } else {
        layer_trigger_errors(s.drop_last()) + match s.last().1.trigger {
            Some(t) => trigger_error(layer_field(s.last().0@, "trigger"@), t@),
            None => Seq::empty(),
        }
    }
}

/// Syntax errors of the review trigger, then of each layer's trigger.
pub open spec fn trigger_errors(cfg: WorkflowConfig) -> Seq<SpecIssue> {
    (match cfg.review {
        Some(r) => match r.trigger {
            Some(t) => trigger_error("review.trigger"@, t@),
            None => Seq::empty(),
        },
        None => Seq::empty(),
    }) + layer_trigger_errors(cfg.layer_overrides.kv())
}

fn check_trigger(r: &mut ValidationReport, field: &Vec<char>, expr: &String)
    ensures
        final(r)@ == join_reports(old(r)@, only_errors(trigger_error(field@, expr@))),
{
    let ghost e0 = errors_view(r.errors@);
    match parse(expr.as_str()) {
        Ok(_) => {},
        Err(e) => {
            r.errors.push(
                ValidationError {
                    field: chars_to_string(field),
                    message: e.message,
                    line: Some(e.line),
                    column: Some(e.column),
                },
            );
        },
    }
    assert(errors_view(r.errors@) =~= e0 + trigger_error(field@, expr@));
    assert(r@.warnings =~= old(r)@.warnings + Seq::<SpecIssue>::empty());
}

/// Parse every trigger expression (review, then each layer override in key
/// order) and collect the syntax errors with their line and column.
pub fn validate_triggers(cfg: &WorkflowConfig) -> (r: ValidationReport)
    ensures
        r@ == only_errors(trigger_errors(*cfg)),
{
    let mut r = new_report();
    if let Some(review) = &cfg.review {
        if let Some(expr) = &review.trigger {
            check_trigger(&mut r, &chars_of("review.trigger"), expr);
        }
    }
    let ghost head = r@.errors;
    let es = cfg.layer_overrides.entries();
    let n = es.len();
    let mut i: usize = 0;
    while i < n
        invariant
            n == es@.len(),
            es@ == cfg.layer_overrides.kv(),
            i <= n,
            r@.warnings.len() == 0,
            r@.errors == head + layer_trigger_errors(es@.subrange(0, i as int)),
        decreases n - i,
    {
        assert(es@.subrange(0, i + 1).drop_last() =~= es@.subrange(0, i as int));
        if let Some(expr) = &es[i].1.trigger {
            check_trigger(&mut r, &layer_field_exec(&es[i].0, "trigger"), expr);
        }
        i = i + 1;
        assert(r@.errors =~= head + layer_trigger_errors(es@.subrange(0, i as int)));
    }
    assert(es@.subrange(0, n as int) =~= es@);
    assert(r@.errors =~= trigger_errors(*cfg));
    assert(r@.warnings =~= Seq::<SpecIssue>::empty());
    r
}

// ─── Known layers ──────────────────────────────────────────────────────────

/// A layer is live when it is both in `order` and defined.
pub open spec fn is_known(lay: LayersConfig, name: Seq<char>) -> bool {
    strings_view(lay.layers.order@).contains(name) && has_key(lay.layers.defs.kv(), name)
}

pub open spec fn known_names_of<V>(order: Seq<Seq<char>>, defs: Seq<(String, V)>) -> Seq<Seq<char>>
    decreases defs.len(),
{
    if defs.len() == 0 {
        Seq::empty()
    } else {
        known_names_of(order, defs.drop_last()) + (if order.contains(defs.last().0@) {
            seq![defs.last().0@]
        } else {
            Seq::empty()
        })
    }
}

/// The live layer names in ascending order.
pub open spec fn known_names(lay: LayersConfig) -> Seq<Seq<char>> {
    known_names_of(strings_view(lay.layers.order@), lay.layers.defs.kv())
}

/// `v` joined with `sep`.
pub open spec fn join(v: Seq<Seq<char>>, sep: Seq<char>) -> Seq<char>
    decreases v.len(),
{
    if v.len() == 0 {
        Seq::empty()
    } else if v.len() == 1 {
        v[0]
    } else {
        join(v.drop_last(), sep) + sep + v.last()
    }
}

pub open spec fn known_list(lay: LayersConfig) -> Seq<char> {
    join(known_names(lay), ", "@)
}

fn order_contains(order: &Vec<String>, name: &str) -> (b: bool)
    ensures
        b == strings_view(order@).contains(name@),
{
    let n = order.len();
    let mut i: usize = 0;
    while i < n
        invariant
            n == order@.len(),
            i <= n,
            forall|j: int| 0 <= j < i ==> (#[trigger] order@[j])@ != name@,
        decreases n - i,
    {
        if str_eq(order[i].as_str(), name) {
            assert(strings_view(order@)[i as int] == name@);
            return true;
        }
        i = i + 1;
    }
    assert(!strings_view(order@).contains(name@)) by {
        if strings_view(order@).contains(name@) {
            let k = choose|k: int| 0 <= k < n && strings_view(order@)[k] == name@;
            assert(order@[k]@ == strings_view(order@)[k]);
        }
    }
    false
}

fn is_known_exec(lay: &LayersConfig, name: &str) -> (b: bool)
    ensures
        b == is_known(*lay, name@),
{
    order_contains(&lay.layers.order, name) && lay.layers.defs.contains_key(name)
}

/// Push `part` to the `sep`-joined text `out` of `prev` items.
fn push_joined(out: &mut Vec<char>, count: usize, sep: &str, part: &str)
    ensures
        final(out)@ == (if count == 0 {
            old(out)@ + part@
        } else {
            old(out)@ + sep@ + part@
        }),
{
    if count > 0 {
        push_str(out, sep);
    }
    push_str(out, part);
}

fn known_list_exec(lay: &LayersConfig) -> (v: Vec<char>)
    ensures
        v@ == known_list(*lay),
{
    let ghost order = strings_view(lay.layers.order@);
    let es = lay.layers.defs.entries();
    let n = es.len();
    let mut out: Vec<char> = Vec::new();
    let mut count: usize = 0;
    let mut i: usize = 0;
    while i < n
        invariant
            n == es@.len(),
            es@ == lay.layers.defs.kv(),
            order == strings_view(lay.layers.order@),
            i <= n,
            count == known_names_of(order, es@.subrange(0, i as int)).len(),
            count <= i,
            out@ == join(known_names_of(order, es@.subrange(0, i as int)), ", "@),
        decreases n - i,
    {
        let ghost prev = known_names_of(order, es@.subrange(0, i as int));
        assert(es@.subrange(0, i + 1).drop_last() =~= es@.subrange(0, i as int));
        if order_contains(&lay.layers.order, es[i].0.as_str()) {
            push_joined(&mut out, count, ", ", es[i].0.as_str());
            count = count + 1;
            let ghost next = known_names_of(order, es@.subrange(0, i + 1));
            assert(next =~= prev.push(es@[i as int].0@));
            assert(next.drop_last() =~= prev);
            assert(out@ =~= join(next, ", "@));
        } else {
            assert(known_names_of(order, es@.subrange(0, i + 1)) =~= prev);
        }
        i = i + 1;
    }
    assert(es@.subrange(0, n as int) =~= es@);
    out
}

// ─── Cross-reference checks ────────────────────────────────────────────────

/// Separators accepted between the layer names of a seam key here.
pub open spec fn is_part_sep(c: char) -> bool {
    c == '-' || c == '>' || c == '<' || c == '↔' || c == '→'
}

/// Split `s[i..]` at separators, dropping empty pieces; `cur` is the piece
/// being read and `acc` the pieces already complete.
pub open spec fn split_parts(s: Seq<char>, i: int, cur: Seq<char>, acc: Seq<Seq<char>>) -> Seq<
    Seq<char>,
>
    decreases s.len() - i,
{
    if i < 0 || i >= s.len() {
        if cur.len() > 0 {
            acc.push(cur)
        } else {
            acc
        }
    } else if is_part_sep(s[i]) {
        split_parts(
            s,
            i + 1,
            Seq::empty(),
            if cur.len() > 0 {
                acc.push(cur)
            } else {
                acc
            },
        )
    } else {
        split_parts(s, i + 1, cur.push(s[i]), acc)
    }
}

/// The non-empty layer names of a seam key.
pub open spec fn boundary_parts(s: Seq<char>) -> Seq<Seq<char>> {
    split_parts(s, 0, Seq::empty(), Seq::empty())
}

/// A seam key names at least one layer and only live layers.
pub open spec fn refs_known_layers(lay: LayersConfig, s: Seq<char>) -> bool {
    let p = boundary_parts(s);
    p.len() > 0 && forall|j: int| 0 <= j < p.len() ==> is_known(lay, #[trigger] p[j])
}

pub open spec fn override_key_errors(lay: LayersConfig, s: Seq<(String, LayerOverride)>) -> Seq<
    SpecIssue,
>
    decreases s.len(),
{
    if s.len() == 0 {
        Seq::empty()
    } else {
        let k = s.last().0@;
        override_key_errors(lay, s.drop_last()) + when(
            !is_known(lay, k),
            issue(
                "layer_overrides."@ + k,
                "unknown layer '"@ + k + "'; known layers in .pice/layers.toml: "@ + known_list(
                    lay,
                ),
            ),
        )
    }
}

pub open spec fn model_key_errors(lay: LayersConfig, s: Seq<(String, String)>) -> Seq<SpecIssue>
    decreases s.len(),
{
    if s.len() == 0 {
        Seq::empty()
    } else {
        let k = s.last().0@;
        model_key_errors(lay, s.drop_last()) + when(
            !is_known(lay, k),
            issue(
                "phases.evaluate.model_override."@ + k,
                "unknown layer '"@ + k + "' in model_override (set to '"@ + s.last().1@
                    + "'); known layers: "@ + known_list(lay),
            ),
        )
    }
}

pub open spec fn seam_key_errors(lay: LayersConfig, s: Seq<(String, Vec<String>)>) -> Seq<SpecIssue>
    decreases s.len(),
{
    if s.len() == 0 {
        Seq::empty()
    } else {
        let k = s.last().0@;
        seam_key_errors(lay, s.drop_last()) + when(
            !refs_known_layers(lay, k),
            issue(
                "seams."@ + k,
                "seam boundary '"@ + k
                    + "' does not reference known layers; use 'A-B' or 'A->B' where both A and B appear in layers.order ("@
                    + known_list(lay) + ")"@,
            ),
        )
    }
}

/// Unknown layer names in layer overrides, in model overrides, and in seam
/// keys, in that order.
pub open spec fn cross_reference_errors(cfg: WorkflowConfig, lay: LayersConfig) -> Seq<SpecIssue> {
    override_key_errors(lay, cfg.layer_overrides.kv()) + model_key_errors(
        lay,
        cfg.phases.evaluate.model_override.kv(),
    ) + match cfg.seams {
        Some(sm) => seam_key_errors(lay, sm.kv()),
        None => Seq::empty(),
    }
}

pub open spec fn parts_view(v: Seq<Vec<char>>) -> Seq<Seq<char>> {
    v.map_values(|p: Vec<char>| p@)
}

fn boundary_parts_exec(s: &str) -> (r: Vec<Vec<char>>)
    ensures
        parts_view(r@) == boundary_parts(s@),
{
    let cs = str_to_chars(s);
    let n = cs.len();
    let mut acc: Vec<Vec<char>> = Vec::new();
    let mut cur: Vec<char> = Vec::new();
    let mut i: usize = 0;
    assert(parts_view(acc@) =~= Seq::<Seq<char>>::empty());
    assert(cur@ =~= Seq::<char>::empty());
    while i < n
        invariant
            n == cs@.len(),
            cs@ == s@,
            i <= n,
            boundary_parts(s@) == split_parts(s@, i as int, cur@, parts_view(acc@)),
        decreases n - i,
    {
        let c = cs[i];
        if c == '-' || c == '>' || c == '<' || c == '↔' || c == '→' {
            if cur.len() > 0 {
                let ghost a0 = parts_view(acc@);
                acc.push(cur);
                assert(parts_view(acc@) =~= a0.push(cur@));
            }
            cur = Vec::new();
            assert(cur@ =~= Seq::<char>::empty());
        } else {
            cur.push(c);
        }
        i = i + 1;
    }
    if cur.len() > 0 {
        let ghost a0 = parts_view(acc@);
        acc.push(cur);
        assert(parts_view(acc@) =~= a0.push(cur@));
    }
    acc
}

fn refs_known_layers_exec(lay: &LayersConfig, s: &str) -> (b: bool)
    ensures
        b == refs_known_layers(*lay, s@),
{
    let parts = boundary_parts_exec(s);
    let ghost p = boundary_parts(s@);
    assert(p.len() == parts@.len());
    if parts.len() == 0 {
        return false;
    }
    let n = parts.len();
    let mut i: usize = 0;
    while i < n
        invariant
            n == parts@.len(),
            p == parts_view(parts@),
            p == boundary_parts(s@),
            i <= n,
            forall|j: int| 0 <= j < i ==> is_known(*lay, #[trigger] p[j]),
        decreases n - i,
    {
        let name = chars_to_string(&parts[i]);
        assert(p[i as int] == parts@[i as int]@);
        if !is_known_exec(lay, name.as_str()) {
            assert(!is_known(*lay, p[i as int]));
            return false;
        }
        i = i + 1;
    }
    true
}

fn check_override_keys(r: &mut ValidationReport, lay: &LayersConfig, m: &StrMap<LayerOverride>, list: &Vec<char>)
    requires
        list@ == known_list(*lay),
    ensures
        final(r)@ == join_reports(old(r)@, only_errors(override_key_errors(*lay, m.kv()))),
{
    let ghost e0 = old(r)@.errors;
    let es = m.entries();
    let n = es.len();
    let mut i: usize = 0;
    while i < n
        invariant
            n == es@.len(),
            es@ == m.kv(),
            list@ == known_list(*lay),
            i <= n,
            r@.warnings == old(r)@.warnings,
            r@.errors == e0 + override_key_errors(*lay, es@.subrange(0, i as int)),
        decreases n - i,
    {
        assert(es@.subrange(0, i + 1).drop_last() =~= es@.subrange(0, i as int));
        let k = &es[i].0;
        if !is_known_exec(lay, k.as_str()) {
            let mut m = cat("unknown layer '", k.as_str());
            push_str(&mut m, "'; known layers in .pice/layers.toml: ");
            push_chars(&mut m, list);
            push_error(r, &cat("layer_overrides.", k.as_str()), &m);
        }
        i = i + 1;
        assert(r@.errors =~= e0 + override_key_errors(*lay, es@.subrange(0, i as int)));
    }
    assert(es@.subrange(0, n as int) =~= es@);
    assert(r@.warnings =~= old(r)@.warnings + Seq::<SpecIssue>::empty());
}

fn check_model_keys(r: &mut ValidationReport, lay: &LayersConfig, m: &StrMap<String>, list: &Vec<char>)
    requires
        list@ == known_list(*lay),
    ensures
        final(r)@ == join_reports(old(r)@, only_errors(model_key_errors(*lay, m.kv()))),
{
    let ghost e0 = old(r)@.errors;
    let es = m.entries();
    let n = es.len();
    let mut i: usize = 0;
    while i < n
        invariant
            n == es@.len(),
            es@ == m.kv(),
            list@ == known_list(*lay),
            i <= n,
            r@.warnings == old(r)@.warnings,
            r@.errors == e0 + model_key_errors(*lay, es@.subrange(0, i as int)),
        decreases n - i,
    {
        assert(es@.subrange(0, i + 1).drop_last() =~= es@.subrange(0, i as int));
        let k = &es[i].0;
        if !is_known_exec(lay, k.as_str()) {
            let mut m = cat("unknown layer '", k.as_str());
            push_str(&mut m, "' in model_override (set to '");
            push_str(&mut m, es[i].1.as_str());
            push_str(&mut m, "'); known layers: ");
            push_chars(&mut m, list);
            push_error(r, &cat("phases.evaluate.model_override.", k.as_str()), &m);
        }
        i = i + 1;
        assert(r@.errors =~= e0 + model_key_errors(*lay, es@.subrange(0, i as int)));
    }
    assert(es@.subrange(0, n as int) =~= es@);
    assert(r@.warnings =~= old(r)@.warnings + Seq::<SpecIssue>::empty());
}

fn check_seam_keys(r: &mut ValidationReport, lay: &LayersConfig, m: &StrMap<Vec<String>>, list: &Vec<char>)
    requires
        list@ == known_list(*lay),
    ensures
        final(r)@ == join_reports(old(r)@, only_errors(seam_key_errors(*lay, m.kv()))),
{
    let ghost e0 = old(r)@.errors;
    let es = m.entries();
    let n = es.len();
    let mut i: usize = 0;
    while i < n
        invariant
            n == es@.len(),
            es@ == m.kv(),
            list@ == known_list(*lay),
            i <= n,
            r@.warnings == old(r)@.warnings,
            r@.errors == e0 + seam_key_errors(*lay, es@.subrange(0, i as int)),
        decreases n - i,
    {
        assert(es@.subrange(0, i + 1).drop_last() =~= es@.subrange(0, i as int));
        let k = &es[i].0;
        if !refs_known_layers_exec(lay, k.as_str()) {
            let mut m = cat("seam boundary '", k.as_str());
            push_str(
                &mut m,
                "' does not reference known layers; use 'A-B' or 'A->B' where both A and B appear in layers.order (",
            );
            push_chars(&mut m, list);
            push_str(&mut m, ")");
            push_error(r, &cat("seams.", k.as_str()), &m);
        }
        i = i + 1;
        assert(r@.errors =~= e0 + seam_key_errors(*lay, es@.subrange(0, i as int)));
    }
    assert(es@.subrange(0, n as int) =~= es@);
    assert(r@.warnings =~= old(r)@.warnings + Seq::<SpecIssue>::empty());
}

/// Check that every layer-override key, every model-override key and every
/// seam key names live layers (in both `layers.order` and the definitions).
pub fn validate_cross_references(cfg: &WorkflowConfig, layers: &LayersConfig) -> (r: ValidationReport)
    ensures
        r@ == only_errors(cross_reference_errors(*cfg, *layers)),
{
    let list = known_list_exec(layers);
    let mut r = new_report();
    check_override_keys(&mut r, layers, &cfg.layer_overrides, &list);
    check_model_keys(&mut r, layers, &cfg.phases.evaluate.model_override, &list);
    if let Some(sm) = &cfg.seams {
        check_seam_keys(&mut r, layers, sm, &list);
    }
    assert(r@.errors =~= cross_reference_errors(*cfg, *layers));
    assert(r@.warnings =~= Seq::<SpecIssue>::empty());
    r
}

// ─── Seam checks ───────────────────────────────────────────────────────────

/// The message for a boundary key that does not parse.
pub open spec fn boundary_error_message(e: SpecBoundaryError) -> Seq<char> {
    match e {
        SpecBoundaryError::MissingSeparator(_) => "boundary key must contain '↔' or '<->'"@,
        SpecBoundaryError::TooManySeparators(_) => "boundary key must reference exactly two layers"@,
        SpecBoundaryError::EmptySide(_) => "boundary key has an empty layer name on one side"@,
        SpecBoundaryError::SelfBoundary(n) => "boundary '"@ + n + "↔"@ + n
            + "' references the same layer on both sides"@,
        SpecBoundaryError::NameTooLong(_, limit) => "boundary layer name exceeds "@ + nat_text(
            limit,
        ) + " characters"@,
    }
}

/// One error per repeated check id in `ids[j..]` (`seen`: ids met so far).
pub open spec fn duplicate_id_errors(field: Seq<char>, ids: Seq<String>, j: int, seen: Seq<Seq<char>>) -> Seq<
    SpecIssue,
>
    decreases ids.len() - j,
{
    if j < 0 || j >= ids.len() {
        Seq::empty()
    } else {
        when(
            seen.contains(ids[j]@),
            issue(field, "duplicate seam check id '"@ + ids[j]@ + "' in boundary"@),
        ) + duplicate_id_errors(field, ids, j + 1, seen.push(ids[j]@))
    }
}

/// One error per id in `ids[j..]` that is unregistered, or registered but
/// not applicable to boundary `a↔b`.
pub open spec fn registry_errors(
    field: Seq<char>,
    ids: Seq<String>,
    j: int,
    checks: Seq<SeamCheck>,
    a: Seq<char>,
    b: Seq<char>,
) -> Seq<SpecIssue>
    decreases ids.len() - j,
{
    if j < 0 || j >= ids.len() {
        Seq::empty()
    } else {
        let id = ids[j]@;
        (match lookup_check(checks, id) {
            None => seq![
                issue(
                    field,
                    "unknown seam check id '"@ + id + "'; registered checks: "@ + join(
                        check_ids(checks),
                        ", "@,
                    ),
                ),
            ],
            Some(c) => when(
                !check_applies(strings_view(c.layers@), a, b),
                issue(
                    field,
                    "seam check '"@ + id + "' does not apply to boundary '"@ + a + "↔"@ + b
                        + "' (category "@ + c.category@
                        + "); pick a check whose applies_to() accepts this boundary or remove it from the seams map"@,
                ),
            ),
        }) + registry_errors(field, ids, j + 1, checks, a, b)
    }
}

pub open spec fn unknown_side_error(lay: LayersConfig, field: Seq<char>, name: Seq<char>) -> Seq<SpecIssue> {
    when(
        !is_known(lay, name),
        issue(
            field,
            "unknown layer '"@ + name + "' in seam boundary; known layers: "@ + known_list(lay),
        ),
    )
}

/// The errors of one seam entry and the canonical boundaries seen after it.
pub open spec fn seam_entry_errors(
    lay: LayersConfig,
    checks: Seq<SeamCheck>,
    raw: Seq<char>,
    ids: Seq<String>,
    seen: Seq<Seq<char>>,
) -> (Seq<SpecIssue>, Seq<Seq<char>>) {
    let field = "seams."@ + raw;
    match spec_parse_boundary(raw) {
        Err(e) => (seq![issue(field, boundary_error_message(e))], seen),
        Ok((a, b)) => {
            let sides = unknown_side_error(lay, field, a) + unknown_side_error(lay, field, b);
            let c = canonical_text(a, b);
            if seen.contains(c) {
                (
                    sides + seq![
                        issue(
                            field,
                            "inverted duplicate boundary: '"@ + raw
                                + "' and an earlier entry both canonicalize to '"@ + c
                                + "'; keep only one"@,
                        ),
                    ],
                    seen,
                )
            } else {
                (
                    sides + duplicate_id_errors(field, ids, 0, Seq::empty()) + registry_errors(
                        field,
                        ids,
                        0,
                        checks,
                        a,
                        b,
                    ),
                    seen.push(c),
                )
            }
        },
    }
}

/// The errors of the seam entries `es[i..]`.
pub open spec fn seam_errors_from(
    lay: LayersConfig,
    checks: Seq<SeamCheck>,
    es: Seq<(String, Vec<String>)>,
    i: int,
    seen: Seq<Seq<char>>,
) -> Seq<SpecIssue>
    decreases es.len() - i,
{
    if i < 0 || i >= es.len() {
        Seq::empty()
    } else {
        let (errs, next) = seam_entry_errors(lay, checks, es[i].0@, es[i].1@, seen);
        errs + seam_errors_from(lay, checks, es, i + 1, next)
    }
}

/// Every error of the `seams` section: keys that do not parse, unknown
/// layers, inverted duplicates of an earlier boundary, repeated check ids,
/// and check ids that are unregistered or do not apply to the boundary.
pub open spec fn seam_errors(cfg: WorkflowConfig, lay: LayersConfig, reg: Registry) -> Seq<SpecIssue> {
    match cfg.seams {
        Some(sm) => seam_errors_from(lay, reg.checks@, sm.kv(), 0, Seq::empty()),
        None => Seq::empty(),
    }
}

fn contains_text(v: &Vec<String>, s: &str) -> (b: bool)
    ensures
        b == strings_view(v@).contains(s@),
{
    order_contains(v, s)
}

fn join_exec(v: &Vec<String>, sep: &str) -> (out: Vec<char>)
    ensures
        out@ == join(strings_view(v@), sep@),
{
    let n = v.len();
    let mut out: Vec<char> = Vec::new();
    let mut i: usize = 0;
    while i < n
        invariant
            n == v@.len(),
            i <= n,
            out@ == join(strings_view(v@.subrange(0, i as int)), sep@),
        decreases n - i,
    {
        let ghost prev = strings_view(v@.subrange(0, i as int));
        push_joined(&mut out, i, sep, v[i].as_str());
        i = i + 1;
        let ghost next = strings_view(v@.subrange(0, i as int));
        assert(next.drop_last() =~= prev);
        assert(out@ =~= join(next, sep@));
    }
    assert(v@.subrange(0, n as int) =~= v@);
    out
}

fn check_duplicate_ids(r: &mut ValidationReport, field: &Vec<char>, ids: &Vec<String>)
    ensures
        final(r)@ == join_reports(old(r)@, only_errors(duplicate_id_errors(field@, ids@, 0, Seq::empty()))),
{
    let ghost e0 = old(r)@.errors;
    let n = ids.len();
    let mut seen: Vec<String> = Vec::new();
    let mut i: usize = 0;
    assert(strings_view(seen@) =~= Seq::<Seq<char>>::empty());
    while i < n
        invariant
            n == ids@.len(),
            i <= n,
            r@.warnings == old(r)@.warnings,
            e0 + duplicate_id_errors(field@, ids@, 0, Seq::empty()) == r@.errors
                + duplicate_id_errors(field@, ids@, i as int, strings_view(seen@)),
        decreases n - i,
    {
        let ghost before = r@.errors;
        let ghost s0 = strings_view(seen@);
        if contains_text(&seen, ids[i].as_str()) {
            let mut m = cat("duplicate seam check id '", ids[i].as_str());
            push_str(&mut m, "' in boundary");
            push_error(r, field, &m);
        }
        seen.push(ids[i].clone());
        assert(strings_view(seen@) =~= s0.push(ids@[i as int]@));
        i = i + 1;
        assert(r@.errors + duplicate_id_errors(field@, ids@, i as int, strings_view(seen@))
            =~= before + duplicate_id_errors(field@, ids@, i - 1, s0));
    }
    assert(r@.errors + Seq::<SpecIssue>::empty() =~= r@.errors);
    assert(r@.warnings =~= old(r)@.warnings + Seq::<SpecIssue>::empty());
}

fn check_registry(
    r: &mut ValidationReport,
    field: &Vec<char>,
    ids: &Vec<String>,
    reg: &Registry,
    boundary: &LayerBoundary,
)
    ensures
        final(r)@ == join_reports(
            old(r)@,
            only_errors(registry_errors(field@, ids@, 0, reg.checks@, boundary.a@, boundary.b@)),
        ),
{
    let ghost e0 = old(r)@.errors;
    let ghost checks = reg.checks@;
    let ghost a = boundary.a@;
    let ghost b = boundary.b@;
    let n = ids.len();
    let mut i: usize = 0;
    while i < n
        invariant
            n == ids@.len(),
            i <= n,
            checks == reg.checks@,
            a == boundary.a@,
            b == boundary.b@,
            r@.warnings == old(r)@.warnings,
            e0 + registry_errors(field@, ids@, 0, checks, a, b) == r@.errors + registry_errors(
                field@,
                ids@,
                i as int,
                checks,
                a,
                b,
            ),
        decreases n - i,
    {
        let ghost before = r@.errors;
        let id = ids[i].as_str();
        match reg.get(id) {
            None => {
                let mut m = cat("unknown seam check id '", id);
                push_str(&mut m, "'; registered checks: ");
                let all = reg.ids_in_order();
                let joined = join_exec(&all, ", ");
                push_chars(&mut m, &joined);
                push_error(r, field, &m);
            },
            Some(check) => {
                assert(lookup_check(checks, id@) == Some(*check));
                if !check.applies_to(boundary) {
                    let mut m = cat("seam check '", id);
                    push_str(&mut m, "' does not apply to boundary '");
                    push_str(&mut m, boundary.a.as_str());
                    push_str(&mut m, "↔");
                    push_str(&mut m, boundary.b.as_str());
                    push_str(&mut m, "' (category ");
                    push_str(&mut m, check.category.as_str());
                    push_str(
                        &mut m,
                        "); pick a check whose applies_to() accepts this boundary or remove it from the seams map",
                    );
                    push_error(r, field, &m);
                }
            },
        }
        i = i + 1;
        assert(r@.errors + registry_errors(field@, ids@, i as int, checks, a, b) =~= before
            + registry_errors(field@, ids@, i - 1, checks, a, b));
    }
    assert(r@.errors + Seq::<SpecIssue>::empty() =~= r@.errors);
    assert(r@.warnings =~= old(r)@.warnings + Seq::<SpecIssue>::empty());
}

fn boundary_error_text(e: &ParseBoundaryError) -> (v: Vec<char>)
    ensures
        v@ == boundary_error_message(e@),
{
    match e {
        ParseBoundaryError::MissingSeparator(_) => chars_of("boundary key must contain '↔' or '<->'"),
        ParseBoundaryError::TooManySeparators(_) => chars_of(
            "boundary key must reference exactly two layers",
        ),
        ParseBoundaryError::EmptySide(_) => chars_of(
            "boundary key has an empty layer name on one side",
        ),
        ParseBoundaryError::SelfBoundary(n) => {
            let mut v = cat("boundary '", n.as_str());
            push_str(&mut v, "↔");
            push_str(&mut v, n.as_str());
            push_str(&mut v, "' references the same layer on both sides");
            v
        },
        ParseBoundaryError::NameTooLong { limit, .. } => {
            let mut v = chars_of("boundary layer name exceeds ");
            push_u64_text(&mut v, *limit as u64);
            push_str(&mut v, " characters");
            v
        },
    }
}

fn check_side(r: &mut ValidationReport, lay: &LayersConfig, field: &Vec<char>, name: &String, list: &Vec<char>)
    requires
        list@ == known_list(*lay),
    ensures
        final(r)@ == join_reports(old(r)@, only_errors(unknown_side_error(*lay, field@, name@))),
{
    if !is_known_exec(lay, name.as_str()) {
        let mut m = cat("unknown layer '", name.as_str());
        push_str(&mut m, "' in seam boundary; known layers: ");
        push_chars(&mut m, list);
        push_error(r, field, &m);
    }
    assert(r@.errors =~= old(r)@.errors + unknown_side_error(*lay, field@, name@));
    assert(r@.warnings =~= old(r)@.warnings + Seq::<SpecIssue>::empty());
}

/// Validate every seam entry against the live layers and the registry:
/// the key parses as `A↔B` or `A<->B` with two different layers, both layers
/// are live, the boundary is not an inverted duplicate of an earlier key,
/// no check id repeats, and every check id is registered and applies to the
/// boundary. An entry whose key does not parse, or that duplicates an
/// earlier boundary, is not checked further.
#[verifier::rlimit(30)]
pub fn validate_seams(cfg: &WorkflowConfig, layers: &LayersConfig, registry: &Registry) -> (r:
    ValidationReport)
    ensures
        r@ == only_errors(seam_errors(*cfg, *layers, *registry)),
{
    let mut r = new_report();
    let sm = match &cfg.seams {
        Some(sm) => sm,
        None => {
            return r;
        },
    };
    let list = known_list_exec(layers);
    let ghost checks = registry.checks@;
    let es = sm.entries();
    let n = es.len();
    let mut seen: Vec<String> = Vec::new();
    let mut i: usize = 0;
    assert(strings_view(seen@) =~= Seq::<Seq<char>>::empty());
    while i < n
        invariant
            n == es@.len(),
            es@ == sm.kv(),
            list@ == known_list(*layers),
            checks == registry.checks@,
            i <= n,
            r@.warnings.len() == 0,
            seam_errors(*cfg, *layers, *registry) == r@.errors + seam_errors_from(
                *layers,
                checks,
                es@,
                i as int,
                strings_view(seen@),
            ),
        decreases n - i,
    {
        let ghost before = r@.errors;
        let ghost s0 = strings_view(seen@);
        let raw = &es[i].0;
        let ids = &es[i].1;
        let field = cat("seams.", raw.as_str());
        match LayerBoundary::parse(raw.as_str()) {
            Err(e) => {
                push_error(&mut r, &field, &boundary_error_text(&e));
            },
            Ok(boundary) => {
                check_side(&mut r, layers, &field, &boundary.a, &list);
                check_side(&mut r, layers, &field, &boundary.b, &list);
                let canonical = boundary.canonical();
                if contains_text(&seen, canonical.as_str()) {
                    let mut m = cat("inverted duplicate boundary: '", raw.as_str());
                    push_str(&mut m, "' and an earlier entry both canonicalize to '");
                    push_str(&mut m, canonical.as_str());
                    push_str(&mut m, "'; keep only one");
                    push_error(&mut r, &field, &m);
                } else {
                    seen.push(canonical);
                    assert(strings_view(seen@) =~= s0.push(canonical_text(boundary.a@, boundary.b@)));
                    check_duplicate_ids(&mut r, &field, ids);
                    check_registry(&mut r, &field, ids, registry, &boundary);
                }
            },
        }
        i = i + 1;
        assert(r@.errors + seam_errors_from(*layers, checks, es@, i as int, strings_view(seen@))
            =~= before + seam_errors_from(*layers, checks, es@, i - 1, s0));
    }
    assert(r@.errors + Seq::<SpecIssue>::empty() =~= r@.errors);
    assert(r@.warnings =~= Seq::<SpecIssue>::empty());
    r
}

// ─── Model checks ──────────────────────────────────────────────────────────

pub open spec fn warning_only(w: SpecIssue) -> SpecReport {
    SpecReport { errors: Seq::empty(), warnings: seq![w] }
}

pub open spec fn empty_report() -> SpecReport {
    SpecReport { errors: Seq::empty(), warnings: Seq::empty() }
}

/// The finding for one model name: with a provider list, an error when the
/// name is not in it; without one, a warning that it cannot be checked.
pub open spec fn model_finding(field: Seq<char>, model: Seq<char>, known: Option<Seq<String>>) -> SpecReport {
    match known {
        Some(list) => only_errors(
            when(
                !strings_view(list).contains(model),
                issue(
                    field,
                    "unknown model '"@ + model + "'; provider reports: "@ + join(
                        strings_view(list),
                        ", "@,
                    ),
                ),
            ),
        ),
        None => warning_only(
            issue(
                field,
                "cannot verify model '"@ + model + "' — provider capability list unavailable"@,
            ),
        ),
    }
}

pub open spec fn override_model_findings(s: Seq<(String, String)>, known: Option<Seq<String>>) -> SpecReport
    decreases s.len(),
{
    if s.len() == 0 {
        empty_report()
    } else {
        join_reports(
            override_model_findings(s.drop_last(), known),
            model_finding("phases.evaluate.model_override."@ + s.last().0@, s.last().1@, known),
        )
    }
}

/// Findings for `defaults.model`, then for each model override by layer.
pub open spec fn model_report(cfg: WorkflowConfig, known: Option<Seq<String>>) -> SpecReport {
    join_reports(
        model_finding("defaults.model"@, cfg.defaults.model@, known),
        override_model_findings(cfg.phases.evaluate.model_override.kv(), known),
    )
}

pub open spec fn slice_view(o: Option<&[String]>) -> Option<Seq<String>> {
    match o {
        Some(l) => Some(l@),
        None => None,
    }
}

fn slice_contains(v: &[String], name: &str) -> (b: bool)
    ensures
        b == strings_view(v@).contains(name@),
{
    let n = v.len();
    let mut i: usize = 0;
    while i < n
        invariant
            n == v@.len(),
            i <= n,
            forall|j: int| 0 <= j < i ==> (#[trigger] v@[j])@ != name@,
        decreases n - i,
    {
        if str_eq(v[i].as_str(), name) {
            assert(strings_view(v@)[i as int] == name@);
            return true;
        }
        i = i + 1;
    }
    assert(!strings_view(v@).contains(name@)) by {
        if strings_view(v@).contains(name@) {
            let k = choose|k: int| 0 <= k < n && strings_view(v@)[k] == name@;
            assert(v@[k]@ == strings_view(v@)[k]);
        }
    }
    false
}

fn slice_join(v: &[String], sep: &str) -> (out: Vec<char>)
    ensures
        out@ == join(strings_view(v@), sep@),
{
    let n = v.len();
    let mut out: Vec<char> = Vec::new();
    let mut i: usize = 0;
    while i < n
        invariant
            n == v@.len(),
            i <= n,
            out@ == join(strings_view(v@.subrange(0, i as int)), sep@),
        decreases n - i,
    {
        let ghost prev = strings_view(v@.subrange(0, i as int));
        push_joined(&mut out, i, sep, v[i].as_str());
        i = i + 1;
        let ghost next = strings_view(v@.subrange(0, i as int));
        assert(next.drop_last() =~= prev);
        assert(out@ =~= join(next, sep@));
    }
    assert(v@.subrange(0, n as int) =~= v@);
    out
}

fn check_model(r: &mut ValidationReport, field: &Vec<char>, model: &str, known: Option<&[String]>)
    ensures
        final(r)@ == join_reports(old(r)@, model_finding(field@, model@, slice_view(known))),
{
    match known {
        Some(list) => {
            if !slice_contains(list, model) {
                let mut m = cat("unknown model '", model);
                push_str(&mut m, "'; provider reports: ");
                let joined = slice_join(list, ", ");
                push_chars(&mut m, &joined);
                push_error(r, field, &m);
            }
            assert(r@.errors =~= old(r)@.errors + model_finding(field@, model@, slice_view(known)).errors);
            assert(r@.warnings =~= old(r)@.warnings + Seq::<SpecIssue>::empty());
        },
        None => {
            let mut m = cat("cannot verify model '", model);
            push_str(&mut m, "' — provider capability list unavailable");
            push_warning(r, field, &m);
            assert(r@.errors =~= old(r)@.errors + Seq::<SpecIssue>::empty());
            assert(r@.warnings =~= old(r)@.warnings + model_finding(field@, model@, slice_view(known)).warnings);
        },
    }
}

/// Check `defaults.model` and every model override against the provider's
/// model list; without a list, warn that the names could not be checked.
pub fn validate_models(cfg: &WorkflowConfig, known_models: Option<&[String]>) -> (r: ValidationReport)
    ensures
        r@ == model_report(*cfg, slice_view(known_models)),
{
    let ghost known = slice_view(known_models);
    let mut r = new_report();
    check_model(&mut r, &chars_of("defaults.model"), cfg.defaults.model.as_str(), known_models);
    let ghost head = r@;
    let es = cfg.phases.evaluate.model_override.entries();
    let n = es.len();
    let mut i: usize = 0;
    assert(head =~= join_reports(head, override_model_findings(es@.subrange(0, 0), known)));
    while i < n
        invariant
            n == es@.len(),
            es@ == cfg.phases.evaluate.model_override.kv(),
            known == slice_view(known_models),
            i <= n,
            r@ == join_reports(head, override_model_findings(es@.subrange(0, i as int), known)),
        decreases n - i,
    {
        assert(es@.subrange(0, i + 1).drop_last() =~= es@.subrange(0, i as int));
        let field = cat("phases.evaluate.model_override.", es[i].0.as_str());
        check_model(&mut r, &field, es[i].1.as_str(), known_models);
        i = i + 1;
        assert(r@ =~= join_reports(head, override_model_findings(es@.subrange(0, i as int), known)));
    }
    assert(es@.subrange(0, n as int) =~= es@);
    assert(r@ =~= model_report(*cfg, known));
    r
}

// ─── Umbrella ──────────────────────────────────────────────────────────────

pub open spec fn deref_opt<T>(o: Option<&T>) -> Option<T> {
    match o {
        Some(x) => Some(*x),
        None => None,
    }
}

/// The report of `validate_all`: schema, triggers, then (with a layer
/// table) cross-references and seams or a warning that seams were not
/// checked, or (without one) a warning that cross-references were not
/// checked; then models.
pub open spec fn all_report(
    cfg: WorkflowConfig,
    layers: Option<LayersConfig>,
    known: Option<Seq<String>>,
    registry: Option<Registry>,
) -> SpecReport {
    let base = join_reports(schema_report(cfg), only_errors(trigger_errors(cfg)));
    let mid = match layers {
        Some(lay) => join_reports(
            join_reports(base, only_errors(cross_reference_errors(cfg, lay))),
            match registry {
                Some(reg) => only_errors(seam_errors(cfg, lay, reg)),
                None => if cfg.seams is Some {
                    warning_only(
                        issue(
                            "seams"@,
                            "seam check registry not provided; skipping seam ID validation"@,
                        ),
                    )
                } else {
                    empty_report()
                },
            },
        ),
        None => join_reports(
            base,
            warning_only(
                issue(
                    "layers.toml"@,
                    ".pice/layers.toml not found; skipping cross-reference validation"@,
                ),
            ),
        ),
    };
    join_reports(mid, model_report(cfg, known))
}

/// Run every validation pass and gather the results.
pub fn validate_all(
    cfg: &WorkflowConfig,
    layers: Option<&LayersConfig>,
    known_models: Option<&[String]>,
    seam_registry: Option<&Registry>,
) -> (r: ValidationReport)
    ensures
        r@ == all_report(*cfg, deref_opt(layers), slice_view(known_models), deref_opt(seam_registry)),
{
    let mut r = new_report();
    r.extend(validate_schema_only(cfg));
    r.extend(validate_triggers(cfg));
    match layers {
        Some(lay) => {
            r.extend(validate_cross_references(cfg, lay));
            match seam_registry {
                Some(reg) => r.extend(validate_seams(cfg, lay, reg)),
                None => {
                    if cfg.seams.is_some() {
                        push_warning(
                            &mut r,
                            &chars_of("seams"),
                            &chars_of("seam check registry not provided; skipping seam ID validation"),
                        );
                    }
                },
            }
        },
        None => {
            push_warning(
                &mut r,
                &chars_of("layers.toml"),
                &chars_of(".pice/layers.toml not found; skipping cross-reference validation"),
            );
        },
    }
    r.extend(validate_models(cfg, known_models));
    assert(r@.errors =~= all_report(
        *cfg,
        deref_opt(layers),
        slice_view(known_models),
        deref_opt(seam_registry),
    ).errors);
    assert(r@.warnings =~= all_report(
        *cfg,
        deref_opt(layers),
        slice_view(known_models),
        deref_opt(seam_registry),
    ).warnings);
    r
}

// ─── Laws ──────────────────────────────────────────────────────────────────

/// `validate_all` reports no error exactly when none of the passes it runs
/// does.
pub proof fn lemma_validate_all_ok(
    cfg: WorkflowConfig,
    layers: Option<LayersConfig>,
    known: Option<Seq<String>>,
    registry: Option<Registry>,
)
    ensures
        all_report(cfg, layers, known, registry).errors.len() == 0 <==> {
            &&& schema_errors(cfg).len() == 0
            &&& trigger_errors(cfg).len() == 0
            &&& (layers matches Some(lay) ==> cross_reference_errors(cfg, lay).len() == 0 && (
            registry matches Some(reg) ==> seam_errors(cfg, lay, reg).len() == 0))
            &&& model_report(cfg, known).errors.len() == 0
        },
{
}

proof fn lemma_override_models_without_list(s: Seq<(String, String)>)
    ensures
        override_model_findings(s, None).errors.len() == 0,
        override_model_findings(s, None).warnings.len() == s.len(),
    decreases s.len(),
{
    if s.len() > 0 {
        lemma_override_models_without_list(s.drop_last());
    }
}

/// Without the provider's model list, model names produce no error, and
/// exactly one warning per name checked (`defaults.model` and each model
/// override).
pub proof fn lemma_models_without_list_only_warn(cfg: WorkflowConfig)
    ensures
        model_report(cfg, None).errors.len() == 0,
        model_report(cfg, None).warnings.len() == 1 + cfg.phases.evaluate.model_override.kv().len(),
{
    lemma_override_models_without_list(cfg.phases.evaluate.model_override.kv());
}

} // verus!
