//! Floor-based merge — a user workflow may restrict the project's, never
//! relax it.
//!
//! | Field             | Stricter means             |
//! |-------------------|----------------------------|
//! | `tier`            | higher number              |
//! | `min_confidence`  | higher fraction            |
//! | `budget_usd`      | lower amount               |
//! | `require_review`  | true                       |
//! | `retry_on_reject` | higher count               |
//! | gate triggers     | unchanged (equivalent)     |
//! | seam boundaries   | never emptied              |
//!
//! A per-layer user value is checked against the project's effective value
//! for that layer: the project's layer override if it sets the field, else
//! the project's defaults (or, for review fields, the project's review
//! section). Every violation is collected before the merge fails.
use crate::decimal::{dec_lt, decimal_lt, decimal_text, push_decimal_text, Decimal};
use crate::seam::{canonical_key, LayerBoundary};
use crate::strmap::{
    delete, entry_at, has_key, lemma_delete_entry, lemma_entries_ext,
    lemma_has_key, lemma_lower_bound, lemma_put_entry, lemma_put_lookup, lemma_put_sorted, lookup,
    lower_bound, put, reversed, sorted_keys, StrMap,
};
use crate::text::{chars_to_string, nat_text, push_str, push_u64_text, str_eq, str_to_chars};
use crate::workflow::schema::{
    empty_override, Defaults, LayerOverride, ReviewConfig, WorkflowConfig,
};
use crate::workflow::trigger::parse::{parse, push_quoted, quoted_text, spec_parse};
use crate::workflow::trigger::{
    ast_equiv, ast_equivalent, lemma_ast_equiv_symm, lemma_ast_equiv_trans,
};
use vstd::prelude::*;

verus! {

/// A single floor-rule violation.
#[derive(Clone, Debug, PartialEq)]
pub struct FloorViolation {
    pub field: String,
    pub project: String,
    pub user: String,
    pub reason: String,
}

/// All floor violations found by one merge.
#[derive(Clone, Debug, PartialEq)]
pub struct FloorViolations {
    pub violations: Vec<FloorViolation>,
}

pub struct SpecViolation {
    pub field: Seq<char>,
    pub project: Seq<char>,
    pub user: Seq<char>,
    pub reason: Seq<char>,
}

impl View for FloorViolation {
    type V = SpecViolation;

    open spec fn view(&self) -> SpecViolation {
        SpecViolation {
            field: self.field@,
            project: self.project@,
            user: self.user@,
            reason: self.reason@,
        }
    }
}

pub open spec fn viols_view(v: Seq<FloorViolation>) -> Seq<SpecViolation> {
    v.map_values(|x: FloorViolation| x@)
}

pub open spec fn sv(field: Seq<char>, project: Seq<char>, user: Seq<char>, reason: Seq<char>) -> SpecViolation {
    SpecViolation { field, project, user, reason }
}

pub open spec fn reason_tier() -> Seq<char> {
    "tier may only be raised"@
}

pub open spec fn reason_confidence() -> Seq<char> {
    "min_confidence may only be raised"@
}

pub open spec fn reason_budget() -> Seq<char> {
    "budget_usd may only be lowered"@
}

pub open spec fn reason_review() -> Seq<char> {
    "required review cannot be disabled"@
}

pub open spec fn reason_trigger_removed() -> Seq<char> {
    "required gate trigger cannot be removed"@
}

pub open spec fn reason_trigger_rewritten() -> Seq<char> {
    "required gate trigger cannot be rewritten; omit the override to keep the project trigger or restate it equivalently"@
}

pub open spec fn reason_retry() -> Seq<char> {
    "retry_on_reject may only be raised"@
}

pub open spec fn reason_seam_empty() -> Seq<char> {
    "seam boundary check list cannot be empty — omit the key to inherit the project list, or list real check IDs"@
}

pub open spec fn opt_or<T>(o: Option<T>, d: T) -> T {
    match o {
        Some(x) => x,
        None => d,
    }
}

// ─── Trigger equivalence ───────────────────────────────────────────────────

/// Two trigger texts are equivalent when they are identical, or when both
/// parse and denote the same expression (`always` ≡ `true`, whitespace
/// ignored).
pub open spec fn spec_triggers_equivalent(project: Seq<char>, user: Seq<char>) -> bool {
    project == user || match (spec_parse(project), spec_parse(user)) {
        (Ok(a), Ok(b)) => ast_equiv(a, b),
        _ => false,
    }
}

/// Whether two trigger expressions are the same expression.
pub fn triggers_equivalent(project: &str, user: &str) -> (r: bool)
    ensures
        r == spec_triggers_equivalent(project@, user@),
{
    if str_eq(project, user) {
        return true;
    }
    match (parse(project), parse(user)) {
        (Ok(p), Ok(u)) => ast_equivalent(&p, &u),
        _ => false,
    }
}

// ─── Specification of the merge ────────────────────────────────────────────

/// `defaults` after the user's values: tier and `min_confidence` may only
/// rise, `budget_usd` may only fall (a refused value keeps the project's);
/// the other fields take the user's value (`max_parallelism` only when set).
pub open spec fn merged_defaults(b: Defaults, o: Defaults) -> Defaults {
    Defaults {
        tier: if o.tier < b.tier {
            b.tier
        } else {
            o.tier
        },
        min_confidence: if dec_lt(o.min_confidence, b.min_confidence) {
            b.min_confidence
        } else {
            o.min_confidence
        },
        max_passes: o.max_passes,
        model: o.model,
        budget_usd: if dec_lt(b.budget_usd, o.budget_usd) {
            b.budget_usd
        } else {
            o.budget_usd
        },
        cost_cap_behavior: o.cost_cap_behavior,
        max_parallelism: if o.max_parallelism is Some {
            o.max_parallelism
        } else {
            b.max_parallelism
        },
    }
}

pub open spec fn defaults_violations(b: Defaults, o: Defaults) -> Seq<SpecViolation> {
    (if o.tier < b.tier {
        seq![sv("defaults.tier"@, nat_text(b.tier as nat), nat_text(o.tier as nat), reason_tier())]
    } else {
        Seq::empty()
    }) + (if dec_lt(o.min_confidence, b.min_confidence) {
        seq![
            sv(
                "defaults.min_confidence"@,
                decimal_text(b.min_confidence),
                decimal_text(o.min_confidence),
                reason_confidence(),
            ),
        ]
    } else {
        Seq::empty()
    }) + (if dec_lt(b.budget_usd, o.budget_usd) {
        seq![
            sv(
                "defaults.budget_usd"@,
                decimal_text(b.budget_usd),
                decimal_text(o.budget_usd),
                reason_budget(),
            ),
        ]
    } else {
        Seq::empty()
    })
}

/// The floors a layer's user override is held to: the project's layer
/// value when set, else the project-wide value.
pub struct LayerFloors {
    pub tier: u8,
    pub min_confidence: Decimal,
    pub budget_usd: Decimal,
    pub require_review: bool,
    pub retry_on_reject: u32,
    pub trigger: Option<Seq<char>>,
}

pub open spec fn layer_floors(pd: Defaults, pr: Option<ReviewConfig>, pl: LayerOverride) -> LayerFloors {
    LayerFloors {
        tier: opt_or(pl.tier, pd.tier),
        min_confidence: opt_or(pl.min_confidence, pd.min_confidence),
        budget_usd: opt_or(pl.budget_usd, pd.budget_usd),
        require_review: opt_or(
            pl.require_review,
            match pr {
                Some(r) => r.enabled,
                None => false,
            },
        ),
        retry_on_reject: opt_or(
            pl.retry_on_reject,
            match pr {
                Some(r) => r.retry_on_reject,
                None => 0,
            },
        ),
        trigger: match pl.trigger {
            Some(t) => Some(t@),
            None => None,
        },
    }
}

/// The override's trigger diverges from a trigger the project committed to.
pub open spec fn trigger_refused(o: LayerOverride, f: LayerFloors) -> bool {
    match (f.trigger, o.trigger) {
        (Some(pt), Some(ot)) => !spec_triggers_equivalent(pt, ot@),
        _ => false,
    }
}

pub open spec fn layer_field(layer: Seq<char>, name: Seq<char>) -> Seq<char> {
    "layer_overrides."@ + layer + "."@ + name
}

/// A layer's entry after the user's override `o` (starting from `cur`).
/// Refused fields keep `cur`'s value; each field is judged on its own.
pub open spec fn merged_layer(cur: LayerOverride, o: LayerOverride, f: LayerFloors) -> LayerOverride {
    LayerOverride {
        tier: match o.tier {
            Some(t) => if t < f.tier {
                cur.tier
            } else {
                Some(t)
            },
            None => cur.tier,
        },
        min_confidence: match o.min_confidence {
            Some(m) => if dec_lt(m, f.min_confidence) {
                cur.min_confidence
            } else {
                Some(m)
            },
            None => cur.min_confidence,
        },
        max_passes: match o.max_passes {
            Some(m) => Some(m),
            None => cur.max_passes,
        },
        budget_usd: match o.budget_usd {
            Some(b) => if dec_lt(f.budget_usd, b) {
                cur.budget_usd
            } else {
                Some(b)
            },
            None => cur.budget_usd,
        },
        require_review: match o.require_review {
            Some(rr) => if f.require_review && !rr {
                cur.require_review
            } else {
                Some(rr)
            },
            None => cur.require_review,
        },
        trigger: if o.trigger is Some && !trigger_refused(o, f) {
            o.trigger
        } else {
            cur.trigger
        },
        adaptive_algorithm: cur.adaptive_algorithm,
        retry_on_reject: match o.retry_on_reject {
            Some(r) => if r < f.retry_on_reject {
                cur.retry_on_reject
            } else {
                Some(r)
            },
            None => cur.retry_on_reject,
        },
    }
}

pub open spec fn tier_part(layer: Seq<char>, o: LayerOverride, f: LayerFloors) -> Seq<SpecViolation> {
    match o.tier {
        Some(t) => if t < f.tier {
            seq![
                sv(
                    layer_field(layer, "tier"@),
                    nat_text(f.tier as nat),
                    nat_text(t as nat),
                    reason_tier(),
                ),
            ]
        } else {
            Seq::empty()
        },
        None => Seq::empty(),
    }
}

pub open spec fn confidence_part(layer: Seq<char>, o: LayerOverride, f: LayerFloors) -> Seq<
    SpecViolation,
> {
    match o.min_confidence {
        Some(m) => if dec_lt(m, f.min_confidence) {
            seq![
                sv(
                    layer_field(layer, "min_confidence"@),
                    decimal_text(f.min_confidence),
                    decimal_text(m),
                    reason_confidence(),
                ),
            ]
        } else {
            Seq::empty()
        },
        None => Seq::empty(),
    }
}

pub open spec fn budget_part(layer: Seq<char>, o: LayerOverride, f: LayerFloors) -> Seq<SpecViolation> {
    match o.budget_usd {
        Some(b) => if dec_lt(f.budget_usd, b) {
            seq![
                sv(
                    layer_field(layer, "budget_usd"@),
                    decimal_text(f.budget_usd),
                    decimal_text(b),
                    reason_budget(),
                ),
            ]
        } else {
            Seq::empty()
        },
        None => Seq::empty(),
    }
}

pub open spec fn review_part(layer: Seq<char>, o: LayerOverride, f: LayerFloors) -> Seq<SpecViolation> {
    match o.require_review {
        Some(rr) => if f.require_review && !rr {
            seq![sv(layer_field(layer, "require_review"@), "true"@, "false"@, reason_review())]
        } else {
            Seq::empty()
        },
        None => Seq::empty(),
    }
}

/// The trigger violation: a trigger the project committed to, rewritten
/// or removed.
pub open spec fn trigger_part(layer: Seq<char>, o: LayerOverride, f: LayerFloors) -> Seq<SpecViolation> {
    if trigger_refused(o, f) {
        let ot = o.trigger->0@;
        seq![
            sv(
                layer_field(layer, "trigger"@),
                f.trigger->0,
                ot,
                if ot.len() == 0 {
                    reason_trigger_removed()
                } else {
                    reason_trigger_rewritten()
                },
            ),
        ]
    } else {
        Seq::empty()
    }
}

/// The `retry_on_reject` violation.
pub open spec fn retry_part(layer: Seq<char>, o: LayerOverride, f: LayerFloors) -> Seq<SpecViolation> {
    match o.retry_on_reject {
        Some(r) => if r < f.retry_on_reject {
            seq![
                sv(
                    layer_field(layer, "retry_on_reject"@),
                    nat_text(f.retry_on_reject as nat),
                    nat_text(r as nat),
                    reason_retry(),
                ),
            ]
        } else {
            Seq::empty()
        },
        None => Seq::empty(),
    }
}

/// The violations of one layer's override, field by field.
pub open spec fn layer_violations(layer: Seq<char>, o: LayerOverride, f: LayerFloors) -> Seq<
    SpecViolation,
> {
    tier_part(layer, o, f) + confidence_part(layer, o, f) + budget_part(layer, o, f) + review_part(
        layer,
        o,
        f,
    ) + trigger_part(layer, o, f) + retry_part(layer, o, f)
}

/// Apply the user's layer overrides `ov[i..]`, in key order, to `out`; each
/// layer is held to the floors derived from the project's entry for it.
pub open spec fn merge_layers(
    out: Seq<(String, LayerOverride)>,
    ov: Seq<(String, LayerOverride)>,
    i: int,
    pd: Defaults,
    pr: Option<ReviewConfig>,
    project: Seq<(String, LayerOverride)>,
) -> (Seq<(String, LayerOverride)>, Seq<SpecViolation>)
    decreases ov.len() - i,
{
    if i < 0 || i >= ov.len() {
        (out, Seq::empty())
    } else {
        let k = ov[i].0;
        let o = ov[i].1;
        let f = layer_floors(pd, pr, opt_or(lookup(project, k@), empty_override()));
        let cur = opt_or(lookup(out, k@), empty_override());
        let next = put(out, k, merged_layer(cur, o, f));
        let (rest, vs) = merge_layers(next, ov, i + 1, pd, pr, project);
        (rest, layer_violations(k@, o, f) + vs)
    }
}

/// The review section after the user's: a required review stays enabled, a
/// committed trigger may only be restated equivalently, `retry_on_reject`
/// may only rise; the tuning fields take the user's values.
pub open spec fn merged_review(b: Option<ReviewConfig>, o: Option<ReviewConfig>) -> Option<ReviewConfig> {
    match o {
        None => b,
        Some(ov) => match b {
            None => Some(ov),
            Some(bv) => Some(
                ReviewConfig {
                    enabled: if bv.enabled && !ov.enabled {
                        bv.enabled
                    } else {
                        ov.enabled
                    },
                    trigger: match (bv.trigger, ov.trigger) {
                        (Some(pt), Some(ot)) => if spec_triggers_equivalent(pt@, ot@) {
                            ov.trigger
                        } else {
                            bv.trigger
                        },
                        (_, Some(_)) => ov.trigger,
                        (_, None) => bv.trigger,
                    },
                    timeout_hours: ov.timeout_hours,
                    on_timeout: ov.on_timeout,
                    notification: ov.notification,
                    retry_on_reject: if ov.retry_on_reject < bv.retry_on_reject {
                        bv.retry_on_reject
                    } else {
                        ov.retry_on_reject
                    },
                },
            ),
        },
    }
}

pub open spec fn review_violations(b: Option<ReviewConfig>, o: Option<ReviewConfig>) -> Seq<
    SpecViolation,
> {
    match (b, o) {
        (Some(bv), Some(ov)) => (if bv.enabled && !ov.enabled {
            seq![sv("review.enabled"@, "true"@, "false"@, reason_review())]
        } else {
            Seq::empty()
        }) + (match (bv.trigger, ov.trigger) {
            (Some(pt), None) => seq![
                sv("review.trigger"@, pt@, "(removed)"@, reason_trigger_removed()),
            ],
            (Some(pt), Some(ot)) => if spec_triggers_equivalent(pt@, ot@) {
                Seq::empty()
            } else {
                seq![sv("review.trigger"@, pt@, ot@, reason_trigger_rewritten())]
            },
            _ => Seq::empty(),
        }) + (if ov.retry_on_reject < bv.retry_on_reject {
            seq![
                sv(
                    "review.retry_on_reject"@,
                    nat_text(bv.retry_on_reject as nat),
                    nat_text(ov.retry_on_reject as nat),
                    reason_retry(),
                ),
            ]
        } else {
            Seq::empty()
        }),
        _ => Seq::empty(),
    }
}

/// The project key whose canonical spelling is `c` — the last such key in
/// ascending order among the first `n` keys.
pub open spec fn canon_owner(keys: Seq<String>, c: Seq<char>, n: int) -> Option<String>
    decreases n,
{
    if n <= 0 || n > keys.len() {
        None
    } else if canonical_key(keys[n - 1]@) == Some(c) {
        Some(keys[n - 1])
    } else {
        canon_owner(keys, c, n - 1)
    }
}

pub open spec fn entry_keys<V>(s: Seq<(String, V)>) -> Seq<String> {
    s.map_values(|e: (String, V)| e.0)
}

/// The items of a check-id list as `Debug` shows them: `"a", "b"`.
pub open spec fn list_items(v: Seq<String>) -> Seq<char>
    decreases v.len(),
{
    if v.len() == 0 {
        Seq::empty()
    } else {
        list_items(v.drop_last()) + (if v.len() == 1 {
            Seq::empty()
        } else {
            ", "@
        }) + quoted_text(v.last()@)
    }
}

/// `Debug` rendering of a list of check ids: `["a", "b"]`.
pub open spec fn list_debug(v: Seq<String>) -> Seq<char> {
    seq!['['] + list_items(v) + seq![']']
}

/// The project key the user entry `raw` replaces (same canonical boundary).
pub open spec fn seam_project_key(orig: Seq<(String, Vec<String>)>, raw: Seq<char>) -> Option<String> {
    match canonical_key(raw) {
        Some(c) => canon_owner(entry_keys(orig), c, orig.len() as int),
        None => None,
    }
}

/// Apply the user's seam entries `ov[i..]` to `cur`: an empty list is a
/// violation; a list for a project boundary (by canonical spelling)
/// replaces the project entry under the user's key; a new boundary is
/// added.
pub open spec fn merge_seams_from(
    cur: Seq<(String, Vec<String>)>,
    orig: Seq<(String, Vec<String>)>,
    ov: Seq<(String, Vec<String>)>,
    i: int,
) -> (Seq<(String, Vec<String>)>, Seq<SpecViolation>)
    decreases ov.len() - i,
{
    if i < 0 || i >= ov.len() {
        (cur, Seq::empty())
    } else {
        let raw = ov[i].0;
        let list = ov[i].1;
        let pk = seam_project_key(orig, raw@);
        if list@.len() == 0 {
            let display = match pk {
                Some(k) => match lookup(cur, k@) {
                    Some(v) => list_debug(v@),
                    None => "(none)"@,
                },
                None => "(none)"@,
            };
            let (rest, vs) = merge_seams_from(cur, orig, ov, i + 1);
            (rest, seq![sv("seams."@ + raw@, display, "[]"@, reason_seam_empty())] + vs)
        } else {
            let next = match pk {
                Some(k) => put(delete(cur, k@), raw, list),
                None => put(cur, raw, list),
            };
            merge_seams_from(next, orig, ov, i + 1)
        }
    }
}

pub open spec fn opt_kv<V>(m: Option<StrMap<V>>) -> Option<Seq<(String, V)>> {
    match m {
        Some(x) => Some(x.kv()),
        None => None,
    }
}

/// The seams after the user's: unchanged when the user sets none.
pub open spec fn merged_seams(
    b: Option<Seq<(String, Vec<String>)>>,
    o: Option<Seq<(String, Vec<String>)>>,
) -> (Option<Seq<(String, Vec<String>)>>, Seq<SpecViolation>) {
    match o {
        None => (b, Seq::empty()),
        Some(ov) => {
            let base = match b {
                Some(x) => x,
                None => Seq::empty(),
            };
            let (r, vs) = merge_seams_from(base, base, ov, 0);
            (Some(r), vs)
        },
    }
}

/// Every violation of merging `o` over `b`, in the order they are found:
/// defaults, layer overrides (by layer), review, seams (by boundary).
pub open spec fn merge_violations(b: WorkflowConfig, o: WorkflowConfig) -> Seq<SpecViolation> {
    defaults_violations(b.defaults, o.defaults) + merge_layers(
        b.layer_overrides.kv(),
        o.layer_overrides.kv(),
        0,
        b.defaults,
        b.review,
        b.layer_overrides.kv(),
    ).1 + review_violations(b.review, o.review) + merged_seams(opt_kv(b.seams), opt_kv(o.seams)).1
}

/// `merge_with_floor(b, o)` succeeds with this configuration when
/// `merge_violations(b, o)` is empty.
pub open spec fn floor_merged(out: WorkflowConfig, b: WorkflowConfig, o: WorkflowConfig) -> bool {
    &&& out.schema_version == b.schema_version
    &&& out.defaults == merged_defaults(b.defaults, o.defaults)
    &&& out.phases == o.phases
    &&& out.layer_overrides.kv() == merge_layers(
        b.layer_overrides.kv(),
        o.layer_overrides.kv(),
        0,
        b.defaults,
        b.review,
        b.layer_overrides.kv(),
    ).0
    &&& out.review == merged_review(b.review, o.review)
    &&& opt_kv(out.seams) == merged_seams(opt_kv(b.seams), opt_kv(o.seams)).0
}

// ─── Executable merge ──────────────────────────────────────────────────────

fn violation(field: &Vec<char>, project: &Vec<char>, user: &Vec<char>, reason: &str) -> (v:
    FloorViolation)
    ensures
        v@ == sv(field@, project@, user@, reason@),
{
    FloorViolation {
        field: chars_to_string(field),
        project: chars_to_string(project),
        user: chars_to_string(user),
        reason: crate::text::string_of(reason),
    }
}

fn text_of(s: &str) -> (v: Vec<char>)
    ensures
        v@ == s@,
{
    str_to_chars(s)
}

fn u64_text(n: u64) -> (v: Vec<char>)
    ensures
        v@ == nat_text(n as nat),
{
    let mut v: Vec<char> = Vec::new();
    push_u64_text(&mut v, n);
    assert(v@ =~= nat_text(n as nat));
    v
}

fn decimal_chars(d: &Decimal) -> (v: Vec<char>)
    ensures
        v@ == decimal_text(*d),
{
    let mut v: Vec<char> = Vec::new();
    push_decimal_text(&mut v, d);
    assert(v@ =~= decimal_text(*d));
    v
}

fn layer_field_exec(layer: &String, name: &str) -> (v: Vec<char>)
    ensures
        v@ == layer_field(layer@, name@),
{
    let mut v = str_to_chars("layer_overrides.");
    let lc = str_to_chars(layer.as_str());
    crate::text::push_chars(&mut v, &lc);
    push_str(&mut v, ".");
    push_str(&mut v, name);
    assert(v@ =~= layer_field(layer@, name@));
    v
}

fn push_violation(vs: &mut Vec<FloorViolation>, v: FloorViolation)
    ensures
        viols_view(final(vs)@) == viols_view(old(vs)@) + seq![v@],
{
    vs.push(v);
    assert(viols_view(vs@) =~= viols_view(old(vs)@) + seq![v@]);
}

fn merge_defaults(base: &Defaults, overlay: Defaults, violations: &mut Vec<FloorViolation>) -> (r:
    Defaults)
    ensures
        r == merged_defaults(*base, overlay),
        viols_view(final(violations)@) == viols_view(old(violations)@) + defaults_violations(
            *base,
            overlay,
        ),
{
    let ghost v0 = viols_view(violations@);
    let tier = if overlay.tier < base.tier {
        push_violation(
            violations,
            violation(
                &text_of("defaults.tier"),
                &u64_text(base.tier as u64),
                &u64_text(overlay.tier as u64),
                "tier may only be raised",
            ),
        );
        base.tier
    } else {
        overlay.tier
    };
    let ghost v1 = viols_view(violations@);
    let min_confidence = if decimal_lt(&overlay.min_confidence, &base.min_confidence) {
        push_violation(
            violations,
            violation(
                &text_of("defaults.min_confidence"),
                &decimal_chars(&base.min_confidence),
                &decimal_chars(&overlay.min_confidence),
                "min_confidence may only be raised",
            ),
        );
        base.min_confidence
    } else {
        overlay.min_confidence
    };
    let ghost v2 = viols_view(violations@);
    let budget_usd = if decimal_lt(&base.budget_usd, &overlay.budget_usd) {
        push_violation(
            violations,
            violation(
                &text_of("defaults.budget_usd"),
                &decimal_chars(&base.budget_usd),
                &decimal_chars(&overlay.budget_usd),
                "budget_usd may only be lowered",
            ),
        );
        base.budget_usd
    } else {
        overlay.budget_usd
    };
    assert(viols_view(violations@) =~= v0 + defaults_violations(*base, overlay));
    let max_parallelism = if overlay.max_parallelism.is_some() {
        overlay.max_parallelism
    } else {
        base.max_parallelism
    };
    Defaults {
        tier,
        min_confidence,
        max_passes: overlay.max_passes,
        model: overlay.model,
        budget_usd,
        cost_cap_behavior: overlay.cost_cap_behavior,
        max_parallelism,
    }
}

fn clone_opt_string(o: &Option<String>) -> (r: Option<String>)
    ensures
        r == *o,
{
    match o {
        Some(s) => Some(s.clone()),
        None => None,
    }
}

fn clone_override(o: &LayerOverride) -> (r: LayerOverride)
    ensures
        r == *o,
{
    LayerOverride {
        tier: o.tier,
        min_confidence: o.min_confidence,
        max_passes: o.max_passes,
        budget_usd: o.budget_usd,
        require_review: o.require_review,
        trigger: clone_opt_string(&o.trigger),
        adaptive_algorithm: o.adaptive_algorithm,
        retry_on_reject: o.retry_on_reject,
    }
}

/// Exec form of `LayerFloors` (the trigger kept as a `String`).
struct Floors {
    tier: u8,
    min_confidence: Decimal,
    budget_usd: Decimal,
    require_review: bool,
    retry_on_reject: u32,
    trigger: Option<String>,
}

spec fn floors_view(f: Floors) -> LayerFloors {
    LayerFloors {
        tier: f.tier,
        min_confidence: f.min_confidence,
        budget_usd: f.budget_usd,
        require_review: f.require_review,
        retry_on_reject: f.retry_on_reject,
        trigger: match f.trigger {
            Some(t) => Some(t@),
            None => None,
        },
    }
}

fn tier_step(layer: &String, cur: Option<u8>, o: &LayerOverride, f: &Floors, violations: &mut Vec<FloorViolation>) -> (r: Option<u8>)
    ensures
        r == (match o.tier {
            Some(t) => if t < f.tier {
                cur
            } else {
                Some(t)
            },
            None => cur,
        }),
        viols_view(final(violations)@) == viols_view(old(violations)@) + tier_part(layer@, *o, floors_view(*f)),
{
    let ghost v0 = viols_view(violations@);
    let mut out = cur;
    if let Some(t) = o.tier {
        if t < f.tier {
            push_violation(
                violations,
                violation(
                    &layer_field_exec(layer, "tier"),
                    &u64_text(f.tier as u64),
                    &u64_text(t as u64),
                    "tier may only be raised",
                ),
            );
        } else {
            out = Some(t);
        }
    }
    assert(viols_view(violations@) =~= v0 + tier_part(layer@, *o, floors_view(*f)));
    out
}

fn confidence_step(layer: &String, cur: Option<Decimal>, o: &LayerOverride, f: &Floors, violations: &mut Vec<FloorViolation>) -> (r: Option<Decimal>)
    ensures
        r == (match o.min_confidence {
            Some(m) => if dec_lt(m, f.min_confidence) {
                cur
            } else {
                Some(m)
            },
            None => cur,
        }),
        viols_view(final(violations)@) == viols_view(old(violations)@) + confidence_part(layer@, *o, floors_view(*f)),
{
    let ghost v0 = viols_view(violations@);
    let mut out = cur;
    if let Some(m) = o.min_confidence {
        if decimal_lt(&m, &f.min_confidence) {
            push_violation(
                violations,
                violation(
                    &layer_field_exec(layer, "min_confidence"),
                    &decimal_chars(&f.min_confidence),
                    &decimal_chars(&m),
                    "min_confidence may only be raised",
                ),
            );
        } else {
            out = Some(m);
        }
    }
    assert(viols_view(violations@) =~= v0 + confidence_part(layer@, *o, floors_view(*f)));
    out
}

fn budget_step(layer: &String, cur: Option<Decimal>, o: &LayerOverride, f: &Floors, violations: &mut Vec<FloorViolation>) -> (r: Option<Decimal>)
    ensures
        r == (match o.budget_usd {
            Some(b) => if dec_lt(f.budget_usd, b) {
                cur
            } else {
                Some(b)
            },
            None => cur,
        }),
        viols_view(final(violations)@) == viols_view(old(violations)@) + budget_part(layer@, *o, floors_view(*f)),
{
    let ghost v0 = viols_view(violations@);
    let mut out = cur;
    if let Some(b) = o.budget_usd {
        if decimal_lt(&f.budget_usd, &b) {
            push_violation(
                violations,
                violation(
                    &layer_field_exec(layer, "budget_usd"),
                    &decimal_chars(&f.budget_usd),
                    &decimal_chars(&b),
                    "budget_usd may only be lowered",
                ),
            );
        } else {
            out = Some(b);
        }
    }
    assert(viols_view(violations@) =~= v0 + budget_part(layer@, *o, floors_view(*f)));
    out
}

fn review_step(layer: &String, cur: Option<bool>, o: &LayerOverride, f: &Floors, violations: &mut Vec<FloorViolation>) -> (r: Option<bool>)
    ensures
        r == (match o.require_review {
            Some(rr) => if f.require_review && !rr {
                cur
            } else {
                Some(rr)
            },
            None => cur,
        }),
        viols_view(final(violations)@) == viols_view(old(violations)@) + review_part(layer@, *o, floors_view(*f)),
{
    let ghost v0 = viols_view(violations@);
    let mut out = cur;
    if let Some(rr) = o.require_review {
        if f.require_review && !rr {
            push_violation(
                violations,
                violation(
                    &layer_field_exec(layer, "require_review"),
                    &text_of("true"),
                    &text_of("false"),
                    "required review cannot be disabled",
                ),
            );
        } else {
            out = Some(rr);
        }
    }
    assert(viols_view(violations@) =~= v0 + review_part(layer@, *o, floors_view(*f)));
    out
}

/// Whether the override's trigger is refused; pushes the violation if so.
fn trigger_step(layer: &String, o: &LayerOverride, f: &Floors, violations: &mut Vec<FloorViolation>) -> (refused: bool)
    ensures
        refused == trigger_refused(*o, floors_view(*f)),
        viols_view(final(violations)@) == viols_view(old(violations)@) + trigger_part(layer@, *o, floors_view(*f)),
{
    match (&f.trigger, &o.trigger) {
        (Some(pt), Some(ot)) => {
            if !triggers_equivalent(pt.as_str(), ot.as_str()) {
                let ghost v0 = viols_view(violations@);
                let oc = str_to_chars(ot.as_str());
                let pc = str_to_chars(pt.as_str());
                let reason = if oc.len() == 0 {
                    "required gate trigger cannot be removed"
                } else {
                    "required gate trigger cannot be rewritten; omit the override to keep the project trigger or restate it equivalently"
                };
                push_violation(
                    violations,
                    violation(&layer_field_exec(layer, "trigger"), &pc, &oc, reason),
                );
                assert(viols_view(violations@) =~= v0 + trigger_part(layer@, *o, floors_view(*f)));
                true
            } else {
                assert(viols_view(violations@) =~= viols_view(old(violations)@) + trigger_part(layer@, *o, floors_view(*f)));
                false
            }
        },
        _ => {
            assert(viols_view(violations@) =~= viols_view(old(violations)@) + trigger_part(layer@, *o, floors_view(*f)));
            false
        },
    }
}

fn retry_step(layer: &String, cur: Option<u32>, o: &LayerOverride, f: &Floors, violations: &mut Vec<FloorViolation>) -> (r: Option<u32>)
    ensures
        r == (match o.retry_on_reject {
            Some(x) => if x < f.retry_on_reject {
                cur
            } else {
                Some(x)
            },
            None => cur,
        }),
        viols_view(final(violations)@) == viols_view(old(violations)@) + retry_part(layer@, *o, floors_view(*f)),
{
    let ghost v0 = viols_view(violations@);
    let mut out = cur;
    if let Some(x) = o.retry_on_reject {
        if x < f.retry_on_reject {
            push_violation(
                violations,
                violation(
                    &layer_field_exec(layer, "retry_on_reject"),
                    &u64_text(f.retry_on_reject as u64),
                    &u64_text(x as u64),
                    "retry_on_reject may only be raised",
                ),
            );
        } else {
            out = Some(x);
        }
    }
    assert(viols_view(violations@) =~= v0 + retry_part(layer@, *o, floors_view(*f)));
    out
}

/// Merge one layer's user override `o` into `cur`, held to floors `f`.
fn merge_layer_fields(
    layer: &String,
    cur: LayerOverride,
    o: LayerOverride,
    f: &Floors,
    violations: &mut Vec<FloorViolation>,
) -> (r: LayerOverride)
    ensures
        r == merged_layer(cur, o, floors_view(*f)),
        viols_view(final(violations)@) == viols_view(old(violations)@) + layer_violations(
            layer@,
            o,
            floors_view(*f),
        ),
{
    let ghost v0 = viols_view(violations@);
    let ghost fv = floors_view(*f);
    let tier = tier_step(layer, cur.tier, &o, f, violations);
    let ghost v1 = viols_view(violations@);
    let min_confidence = confidence_step(layer, cur.min_confidence, &o, f, violations);
    let ghost v2 = viols_view(violations@);
    let budget_usd = budget_step(layer, cur.budget_usd, &o, f, violations);
    let ghost v3 = viols_view(violations@);
    let require_review = review_step(layer, cur.require_review, &o, f, violations);
    let max_passes = match o.max_passes {
        Some(m) => Some(m),
        None => cur.max_passes,
    };
    let ghost v4 = viols_view(violations@);
    let refused = trigger_step(layer, &o, f, violations);
    let ghost v5 = viols_view(violations@);
    let retry_on_reject = retry_step(layer, cur.retry_on_reject, &o, f, violations);
    let trigger = if refused || o.trigger.is_none() {
        cur.trigger
    } else {
        o.trigger
    };
    proof {
        assert(v1 == v0 + tier_part(layer@, o, fv));
        assert(v2 == v1 + confidence_part(layer@, o, fv));
        assert(v3 == v2 + budget_part(layer@, o, fv));
        assert(v4 == v3 + review_part(layer@, o, fv));
        assert(v5 == v4 + trigger_part(layer@, o, fv));
        assert(viols_view(violations@) == v5 + retry_part(layer@, o, fv));
        assert(viols_view(violations@) =~= v0 + layer_violations(layer@, o, fv));
    }
    LayerOverride {
        tier,
        min_confidence,
        max_passes,
        budget_usd,
        require_review,
        trigger,
        adaptive_algorithm: cur.adaptive_algorithm,
        retry_on_reject,
    }
}

fn floors_for(
    pd_tier: u8,
    pd_mc: Decimal,
    pd_budget: Decimal,
    global_rr: bool,
    global_retry: u32,
    pl: &LayerOverride,
) -> (f: Floors)
    ensures
        f.tier == opt_or(pl.tier, pd_tier),
        f.min_confidence == opt_or(pl.min_confidence, pd_mc),
        f.budget_usd == opt_or(pl.budget_usd, pd_budget),
        f.require_review == opt_or(pl.require_review, global_rr),
        f.retry_on_reject == opt_or(pl.retry_on_reject, global_retry),
        f.trigger == pl.trigger,
{
    Floors {
        tier: match pl.tier {
            Some(t) => t,
            None => pd_tier,
        },
        min_confidence: match pl.min_confidence {
            Some(m) => m,
            None => pd_mc,
        },
        budget_usd: match pl.budget_usd {
            Some(b) => b,
            None => pd_budget,
        },
        require_review: match pl.require_review {
            Some(r) => r,
            None => global_rr,
        },
        retry_on_reject: match pl.retry_on_reject {
            Some(r) => r,
            None => global_retry,
        },
        trigger: clone_opt_string(&pl.trigger),
    }
}

fn merge_layer_overrides(
    base: &mut StrMap<LayerOverride>,
    overlay: StrMap<LayerOverride>,
    pd: &Defaults,
    pr: &Option<ReviewConfig>,
    violations: &mut Vec<FloorViolation>,
)
    ensures
        final(base).kv() == merge_layers(
            old(base).kv(),
            overlay.kv(),
            0,
            *pd,
            *pr,
            old(base).kv(),
        ).0,
        viols_view(final(violations)@) == viols_view(old(violations)@) + merge_layers(
            old(base).kv(),
            overlay.kv(),
            0,
            *pd,
            *pr,
            old(base).kv(),
        ).1,
{
    let ghost project = base.kv();
    let ghost ov = overlay.kv();
    let ghost v0 = viols_view(violations@);
    let global_rr = match pr {
        Some(r) => r.enabled,
        None => false,
    };
    let global_retry = match pr {
        Some(r) => r.retry_on_reject,
        None => 0,
    };
    let entries = overlay.into_entries();
    let n = entries.len();
    let mut rev = reversed(entries);
    let mut i: usize = 0;
    base.note_sorted();
    while i < n
        invariant
            n == ov.len(),
            i <= n,
            global_rr == (match *pr {
                Some(r) => r.enabled,
                None => false,
            }),
            global_retry == (match *pr {
                Some(r) => r.retry_on_reject,
                None => 0u32,
            }),
            sorted_keys(ov),
            sorted_keys(base.kv()),
            rev@.len() == n - i,
            forall|j: int| 0 <= j < rev@.len() ==> rev@[j] == ov[n - 1 - j],
            forall|j: int| i <= j < n ==> lookup(base.kv(), (#[trigger] ov[j]).0@) == lookup(project, ov[j].0@),
            merge_layers(project, ov, 0, *pd, *pr, project).0 == merge_layers(
                base.kv(),
                ov,
                i as int,
                *pd,
                *pr,
                project,
            ).0,
            v0 + merge_layers(project, ov, 0, *pd, *pr, project).1 == viols_view(violations@)
                + merge_layers(base.kv(), ov, i as int, *pd, *pr, project).1,
        decreases n - i,
    {
        let (k, o) = rev.pop().unwrap();
        assert(k == ov[i as int].0 && o == ov[i as int].1);
        let ghost before = base.kv();
        let cur = match base.get(k.as_str()) {
            Some(c) => clone_override(c),
            None => LayerOverride::default(),
        };
        let f = floors_for(pd.tier, pd.min_confidence, pd.budget_usd, global_rr, global_retry, &cur);
        proof {
            assert(lookup(before, k@) == lookup(project, ov[i as int].0@));
            let pl = opt_or(lookup(project, k@), empty_override());
            assert(cur == pl);
            let lf = layer_floors(*pd, *pr, pl);
            assert(floors_view(f).tier == lf.tier);
            assert(floors_view(f).min_confidence == lf.min_confidence);
            assert(floors_view(f).budget_usd == lf.budget_usd);
            assert(floors_view(f).require_review == lf.require_review);
            assert(floors_view(f).retry_on_reject == lf.retry_on_reject);
            assert(floors_view(f).trigger == lf.trigger);
            assert(floors_view(f) == lf);
        }
        let ghost vbefore = viols_view(violations@);
        let merged = merge_layer_fields(&k, cur, o, &f, violations);
        base.insert(k.clone(), merged);
        base.note_sorted();
        proof {
            assert forall|j: int| i + 1 <= j < n implies lookup(base.kv(), (#[trigger] ov[j]).0@)
                == lookup(project, ov[j].0@) by {
                crate::strmap::lemma_str_lt_asym(ov[i as int].0@, ov[j].0@);
                lemma_put_lookup(before, k, merged, ov[j].0@);
            }
            assert(viols_view(violations@) + merge_layers(base.kv(), ov, i + 1, *pd, *pr, project).1
                =~= vbefore + merge_layers(before, ov, i as int, *pd, *pr, project).1);
        }
        i = i + 1;
    }
    assert(viols_view(violations@) + Seq::<SpecViolation>::empty() =~= viols_view(violations@));
}


fn merge_review(
    base: &mut Option<ReviewConfig>,
    overlay: Option<ReviewConfig>,
    violations: &mut Vec<FloorViolation>,
)
    ensures
        *final(base) == merged_review(*old(base), overlay),
        viols_view(final(violations)@) == viols_view(old(violations)@) + review_violations(
            *old(base),
            overlay,
        ),
{
    let ghost v0 = viols_view(violations@);
    let ov = match overlay {
        Some(o) => o,
        None => {
            assert(viols_view(violations@) =~= v0 + review_violations(*old(base), overlay));
            return ;
        },
    };
    let taken = base.take();
    let bv = match taken {
        Some(b) => b,
        None => {
            *base = Some(ov);
            assert(viols_view(violations@) =~= v0 + review_violations(None, overlay));
            return ;
        },
    };
    let ghost b0 = bv;
    let ReviewConfig {
        enabled: b_enabled,
        trigger: b_trigger,
        timeout_hours: _,
        on_timeout: _,
        notification: _,
        retry_on_reject: b_retry,
    } = bv;
    let ReviewConfig {
        enabled: o_enabled,
        trigger: o_trigger,
        timeout_hours,
        on_timeout,
        notification,
        retry_on_reject: o_retry,
    } = ov;
    let enabled = if b_enabled && !o_enabled {
        push_violation(
            violations,
            violation(
                &text_of("review.enabled"),
                &text_of("true"),
                &text_of("false"),
                "required review cannot be disabled",
            ),
        );
        b_enabled
    } else {
        o_enabled
    };
    let keep_project = match (&b_trigger, &o_trigger) {
        (Some(pt), None) => {
            push_violation(
                violations,
                violation(
                    &text_of("review.trigger"),
                    &text_of(pt.as_str()),
                    &text_of("(removed)"),
                    "required gate trigger cannot be removed",
                ),
            );
            true
        },
        (Some(pt), Some(ot)) => {
            if triggers_equivalent(pt.as_str(), ot.as_str()) {
                false
            } else {
                push_violation(
                    violations,
                    violation(
                        &text_of("review.trigger"),
                        &text_of(pt.as_str()),
                        &text_of(ot.as_str()),
                        "required gate trigger cannot be rewritten; omit the override to keep the project trigger or restate it equivalently",
                    ),
                );
                true
            }
        },
        (None, Some(_)) => false,
        (None, None) => true,
    };
    let trigger = if keep_project {
        b_trigger
    } else {
        o_trigger
    };
    let retry_on_reject = if o_retry < b_retry {
        push_violation(
            violations,
            violation(
                &text_of("review.retry_on_reject"),
                &u64_text(b_retry as u64),
                &u64_text(o_retry as u64),
                "retry_on_reject may only be raised",
            ),
        );
        b_retry
    } else {
        o_retry
    };
    assert(viols_view(violations@) =~= v0 + review_violations(Some(b0), overlay));
    *base = Some(
        ReviewConfig { enabled, trigger, timeout_hours, on_timeout, notification, retry_on_reject },
    );
}

// ─── Seams ─────────────────────────────────────────────────────────────────

fn canonical_of(raw: &str) -> (r: Option<String>)
    ensures
        match r {
            Some(c) => canonical_key(raw@) == Some(c@),
            None => canonical_key(raw@) is None,
        },
{
    match LayerBoundary::parse(raw) {
        Ok(b) => Some(b.canonical()),
        Err(_) => None,
    }
}

pub open spec fn canon_of_view(c: Option<String>) -> Option<Seq<char>> {
    match c {
        Some(s) => Some(s@),
        None => None,
    }
}

/// The canonical spellings of `keys`, position by position.
fn canonical_keys(keys: &Vec<String>) -> (r: Vec<Option<String>>)
    ensures
        r@.len() == keys@.len(),
        forall|j: int| 0 <= j < keys@.len() ==> canon_of_view(#[trigger] r@[j]) == canonical_key(keys@[j]@),
{
    let mut r: Vec<Option<String>> = Vec::new();
    let mut i: usize = 0;
    while i < keys.len()
        invariant
            i <= keys@.len(),
            r@.len() == i,
            forall|j: int| 0 <= j < i ==> canon_of_view(#[trigger] r@[j]) == canonical_key(keys@[j]@),
        decreases keys@.len() - i,
    {
        let c = canonical_of(keys[i].as_str());
        r.push(c);
        i = i + 1;
    }
    r
}

/// The last key (in order) whose canonical spelling is `c`.
fn owner_of(keys: &Vec<String>, canon: &Vec<Option<String>>, c: &String) -> (r: Option<String>)
    requires
        canon@.len() == keys@.len(),
        forall|j: int| 0 <= j < keys@.len() ==> canon_of_view(#[trigger] canon@[j]) == canonical_key(keys@[j]@),
    ensures
        r == canon_owner(keys@, c@, keys@.len() as int),
{
    let mut n: usize = keys.len();
    while n > 0
        invariant
            n <= keys@.len() == canon@.len(),
            forall|j: int| 0 <= j < keys@.len() ==> canon_of_view(#[trigger] canon@[j]) == canonical_key(keys@[j]@),
            canon_owner(keys@, c@, keys@.len() as int) == canon_owner(keys@, c@, n as int),
        decreases n,
    {
        let hit = match &canon[n - 1] {
            Some(k) => str_eq(k.as_str(), c.as_str()),
            None => false,
        };
        assert(canon_of_view(canon@[n - 1]) == canonical_key(keys@[n - 1]@));
        if hit {
            return Some(keys[n - 1].clone());
        }
        n = n - 1;
    }
    None
}

fn push_list_debug(out: &mut Vec<char>, l: &Vec<String>)
    ensures
        final(out)@ == old(out)@ + list_debug(l@),
{
    let ghost o0 = out@;
    out.push('[');
    let mut i: usize = 0;
    while i < l.len()
        invariant
            i <= l@.len(),
            out@ == o0 + seq!['['] + list_items(l@.subrange(0, i as int)),
        decreases l@.len() - i,
    {
        assert(l@.subrange(0, i + 1).drop_last() =~= l@.subrange(0, i as int));
        if i > 0 {
            push_str(out, ", ");
        }
        push_quoted(out, &l[i]);
        i = i + 1;
        assert(out@ =~= o0 + seq!['['] + list_items(l@.subrange(0, i as int)));
    }
    assert(l@.subrange(0, l@.len() as int) =~= l@);
    out.push(']');
    assert(out@ =~= o0 + list_debug(l@));
}

fn strmap_keys<V>(m: &StrMap<V>) -> (r: Vec<String>)
    ensures
        r@ == entry_keys(m.kv()),
{
    let es = m.entries();
    let mut r: Vec<String> = Vec::new();
    let mut i: usize = 0;
    while i < es.len()
        invariant
            es@ == m.kv(),
            i <= es@.len(),
            r@ == entry_keys(es@.subrange(0, i as int)),
        decreases es@.len() - i,
    {
        r.push(es[i].0.clone());
        i = i + 1;
        assert(r@ =~= entry_keys(es@.subrange(0, i as int)));
    }
    assert(es@.subrange(0, es@.len() as int) =~= es@);
    r
}

/// Merge the user's seam boundaries `overlay` onto the project's `base`.
///
/// A user list for a project boundary (matched by canonical spelling, so
/// `A↔B`, `B<->A` address one boundary) replaces the project's entry and is
/// stored under the user's key; a new boundary is added; an empty list is
/// refused with a violation. Unparseable keys pass through unchanged.
pub fn merge_seams(
    base: &mut Option<StrMap<Vec<String>>>,
    overlay: Option<StrMap<Vec<String>>>,
    violations: &mut Vec<FloorViolation>,
)
    ensures
        opt_kv(*final(base)) == merged_seams(opt_kv(*old(base)), opt_kv(overlay)).0,
        viols_view(final(violations)@) == viols_view(old(violations)@) + merged_seams(
            opt_kv(*old(base)),
            opt_kv(overlay),
        ).1,
{
    let ghost v0 = viols_view(violations@);
    let ov = match overlay {
        Some(o) => o,
        None => {
            assert(viols_view(violations@) =~= v0 + Seq::<SpecViolation>::empty());
            return ;
        },
    };
    let mut map = match base.take() {
        Some(m) => m,
        None => StrMap::new(),
    };
    let ghost orig = map.kv();
    let ghost ovs = ov.kv();
    let keys = strmap_keys(&map);
    let canon = canonical_keys(&keys);
    let entries = ov.into_entries();
    let n = entries.len();
    let mut rev = reversed(entries);
    let mut i: usize = 0;
    while i < n
        invariant
            n == ovs.len(),
            i <= n,
            rev@.len() == n - i,
            forall|j: int| 0 <= j < rev@.len() ==> rev@[j] == ovs[n - 1 - j],
            keys@ == entry_keys(orig),
            canon@.len() == keys@.len(),
            forall|j: int| 0 <= j < keys@.len() ==> canon_of_view(#[trigger] canon@[j]) == canonical_key(keys@[j]@),
            merge_seams_from(orig, orig, ovs, 0).0 == merge_seams_from(map.kv(), orig, ovs, i as int).0,
            v0 + merge_seams_from(orig, orig, ovs, 0).1 == viols_view(violations@) + merge_seams_from(
                map.kv(),
                orig,
                ovs,
                i as int,
            ).1,
        decreases n - i,
    {
        let (raw, list) = rev.pop().unwrap();
        assert(raw == ovs[i as int].0 && list == ovs[i as int].1);
        let ghost before = map.kv();
        let ghost vbefore = viols_view(violations@);
        let pk = match canonical_of(raw.as_str()) {
            Some(c) => owner_of(&keys, &canon, &c),
            None => None,
        };
        assert(pk == seam_project_key(orig, raw@));
        if list.len() == 0 {
            let mut display: Vec<char> = Vec::new();
            match &pk {
                Some(k) => match map.get(k.as_str()) {
                    Some(v) => push_list_debug(&mut display, v),
                    None => push_str(&mut display, "(none)"),
                },
                None => push_str(&mut display, "(none)"),
            }
            let mut field = str_to_chars("seams.");
            push_str(&mut field, raw.as_str());
            push_violation(
                violations,
                violation(
                    &field,
                    &display,
                    &text_of("[]"),
                    "seam boundary check list cannot be empty — omit the key to inherit the project list, or list real check IDs",
                ),
            );
            proof {
                assert(viols_view(violations@) + merge_seams_from(map.kv(), orig, ovs, i + 1).1
                    =~= vbefore + merge_seams_from(before, orig, ovs, i as int).1);
            }
        } else {
            match pk {
                Some(k) => {
                    map.remove(k.as_str());
                    map.insert(raw, list);
                },
                None => {
                    map.insert(raw, list);
                },
            }
        }
        i = i + 1;
    }
    assert(viols_view(violations@) + Seq::<SpecViolation>::empty() =~= viols_view(violations@));
    *base = Some(map);
}

// ─── The merges ────────────────────────────────────────────────────────────

/// Merge the user's workflow `overlay` onto the project's `base` under the
/// floor rules. Every would-be relaxation becomes a violation, all of them
/// are collected, and the merge fails when there is at least one; otherwise
/// the merged configuration is returned. `base`'s schema version is kept.
pub fn merge_with_floor(base: WorkflowConfig, overlay: WorkflowConfig) -> (r: Result<
    WorkflowConfig,
    FloorViolations,
>)
    ensures
        r is Ok <==> merge_violations(base, overlay).len() == 0,
        match r {
            Ok(out) => floor_merged(out, base, overlay),
            Err(e) => viols_view(e.violations@) == merge_violations(base, overlay),
        },
{
    let mut violations: Vec<FloorViolation> = Vec::new();
    let WorkflowConfig { schema_version, defaults, phases: _, layer_overrides, review, seams } = base;
    let WorkflowConfig {
        schema_version: _,
        defaults: o_defaults,
        phases: o_phases,
        layer_overrides: o_layers,
        review: o_review,
        seams: o_seams,
    } = overlay;
    let new_defaults = merge_defaults(&defaults, o_defaults, &mut violations);
    let mut layers = layer_overrides;
    merge_layer_overrides(&mut layers, o_layers, &defaults, &review, &mut violations);
    let mut merged_review = review;
    merge_review(&mut merged_review, o_review, &mut violations);
    let mut merged_seams = seams;
    merge_seams(&mut merged_seams, o_seams, &mut violations);
    assert(viols_view(violations@) =~= merge_violations(base, overlay));
    if violations.len() > 0 {
        return Err(FloorViolations { violations });
    }
    Ok(
        WorkflowConfig {
            schema_version,
            defaults: new_defaults,
            phases: o_phases,
            layer_overrides: layers,
            review: merged_review,
            seams: merged_seams,
        },
    )
}

/// `s` after setting the entries `ov[i..]` one by one.
pub open spec fn put_all<V>(s: Seq<(String, V)>, ov: Seq<(String, V)>, i: int) -> Seq<(String, V)>
    decreases ov.len() - i,
{
    if i < 0 || i >= ov.len() {
        s
    } else {
        put_all(put(s, ov[i].0, ov[i].1), ov, i + 1)
    }
}

fn insert_all<V>(m: &mut StrMap<V>, ov: StrMap<V>)
    ensures
        final(m).kv() == put_all(old(m).kv(), ov.kv(), 0),
{
    let ghost ovs = ov.kv();
    let ghost orig = m.kv();
    let entries = ov.into_entries();
    let n = entries.len();
    let mut rev = reversed(entries);
    let mut i: usize = 0;
    while i < n
        invariant
            n == ovs.len(),
            i <= n,
            rev@.len() == n - i,
            forall|j: int| 0 <= j < rev@.len() ==> rev@[j] == ovs[n - 1 - j],
            put_all(orig, ovs, 0) == put_all(m.kv(), ovs, i as int),
        decreases n - i,
    {
        let (k, v) = rev.pop().unwrap();
        assert(k == ovs[i as int].0 && v == ovs[i as int].1);
        m.insert(k, v);
        i = i + 1;
    }
}

/// `overlay(b, o)` returns `out`: `o`'s schema version, defaults and phases;
/// layer overrides and seams merged key by key with `o`'s entries winning;
/// `o`'s review when it sets one.
pub open spec fn overlaid(out: WorkflowConfig, b: WorkflowConfig, o: WorkflowConfig) -> bool {
    &&& out.schema_version == o.schema_version
    &&& out.defaults == o.defaults
    &&& out.phases == o.phases
    &&& out.layer_overrides.kv() == put_all(b.layer_overrides.kv(), o.layer_overrides.kv(), 0)
    &&& out.review == (if o.review is Some {
        o.review
    } else {
        b.review
    })
    &&& opt_kv(out.seams) == match o.seams {
        None => opt_kv(b.seams),
        Some(os) => Some(
            put_all(
                match b.seams {
                    Some(x) => x.kv(),
                    None => Seq::empty(),
                },
                os.kv(),
                0,
            ),
        ),
    }
}

/// Plain overlay, with no floors: `upper`'s scalar fields replace
/// `base`'s, map fields are merged key by key with `upper`'s keys taking
/// precedence, and `upper`'s review replaces `base`'s when it sets one.
pub fn overlay(base: WorkflowConfig, upper: WorkflowConfig) -> (out: WorkflowConfig)
    ensures
        overlaid(out, base, upper),
{
    let WorkflowConfig { schema_version: _, defaults: _, phases: _, layer_overrides, review, seams } =
        base;
    let WorkflowConfig {
        schema_version,
        defaults: o_defaults,
        phases: o_phases,
        layer_overrides: o_layers,
        review: o_review,
        seams: o_seams,
    } = upper;
    let mut layers = layer_overrides;
    insert_all(&mut layers, o_layers);
    let new_review = if o_review.is_some() {
        o_review
    } else {
        review
    };
    let new_seams = match o_seams {
        None => seams,
        Some(os) => {
            let mut m = match seams {
                Some(x) => x,
                None => StrMap::new(),
            };
            insert_all(&mut m, os);
            Some(m)
        },
    };
    WorkflowConfig {
        schema_version,
        defaults: o_defaults,
        phases: o_phases,
        layer_overrides: layers,
        review: new_review,
        seams: new_seams,
    }
}

// ─── Messages ──────────────────────────────────────────────────────────────

/// `field: override violates project floor (reason); project=…, override=…`
pub open spec fn violation_text(v: SpecViolation) -> Seq<char> {
    v.field + ": override violates project floor ("@ + v.reason + "); project="@ + v.project
        + ", override="@ + v.user
}

pub open spec fn violation_lines(vs: Seq<SpecViolation>) -> Seq<char>
    decreases vs.len(),
{
    if vs.len() == 0 {
        Seq::empty()
    } else {
        violation_lines(vs.drop_last()) + "  - "@ + violation_text(vs.last()) + "\n"@
    }
}

/// The report of a failed merge: a count line, then one line per violation.
pub open spec fn violations_text(vs: Seq<SpecViolation>) -> Seq<char> {
    "workflow override violates "@ + nat_text(vs.len()) + " project floor(s):\n"@
        + violation_lines(vs)
}

fn push_violation_text(out: &mut Vec<char>, v: &FloorViolation)
    ensures
        final(out)@ == old(out)@ + violation_text(v@),
{
    let ghost o0 = out@;
    push_str(out, v.field.as_str());
    push_str(out, ": override violates project floor (");
    push_str(out, v.reason.as_str());
    push_str(out, "); project=");
    push_str(out, v.project.as_str());
    push_str(out, ", override=");
    push_str(out, v.user.as_str());
    assert(out@ =~= o0 + violation_text(v@));
}

impl FloorViolation {
    /// The one-line description of this violation.
    pub fn to_text(&self) -> (s: String)
        ensures
            s@ == violation_text(self@),
    {
        let mut out: Vec<char> = Vec::new();
        push_violation_text(&mut out, self);
        assert(out@ =~= violation_text(self@));
        chars_to_string(&out)
    }
}

impl FloorViolations {
    /// The report: `workflow override violates N project floor(s):` and
    /// one `  - …` line per violation.
    pub fn to_text(&self) -> (s: String)
        ensures
            s@ == violations_text(viols_view(self.violations@)),
    {
        let ghost vs = viols_view(self.violations@);
        let mut out = str_to_chars("workflow override violates ");
        push_u64_text(&mut out, self.violations.len() as u64);
        push_str(&mut out, " project floor(s):\n");
        let ghost head = out@;
        let n = self.violations.len();
        let mut i: usize = 0;
        while i < n
            invariant
                n == self.violations@.len(),
                vs == viols_view(self.violations@),
                i <= n,
                out@ == head + violation_lines(vs.subrange(0, i as int)),
            decreases n - i,
        {
            assert(vs.subrange(0, i + 1).drop_last() =~= vs.subrange(0, i as int));
            push_str(&mut out, "  - ");
            push_violation_text(&mut out, &self.violations[i]);
            push_str(&mut out, "\n");
            i = i + 1;
            assert(out@ =~= head + violation_lines(vs.subrange(0, i as int)));
        }
        assert(vs.subrange(0, n as int) =~= vs);
        assert(out@ =~= violations_text(vs));
        chars_to_string(&out)
    }
}

// ─── Laws ──────────────────────────────────────────────────────────────────

/// Trigger equivalence is an equivalence relation: a trigger restated as
/// itself is accepted, which side is the project's does not matter, and
/// restatements of restatements stay equivalent.
pub proof fn lemma_triggers_equivalent(a: Seq<char>, b: Seq<char>, c: Seq<char>)
    ensures
        spec_triggers_equivalent(a, a),
        spec_triggers_equivalent(a, b) ==> spec_triggers_equivalent(b, a),
        spec_triggers_equivalent(a, b) && spec_triggers_equivalent(b, c)
            ==> spec_triggers_equivalent(a, c),
{
    if spec_triggers_equivalent(a, b) && a != b {
        match (spec_parse(a), spec_parse(b)) {
            (Ok(x), Ok(y)) => lemma_ast_equiv_symm(x, y),
            _ => {},
        }
    }
    if spec_triggers_equivalent(a, b) && spec_triggers_equivalent(b, c) && a != b && b != c {
        match (spec_parse(a), spec_parse(b), spec_parse(c)) {
            (Ok(x), Ok(y), Ok(z)) => lemma_ast_equiv_trans(x, y, z),
            _ => {},
        }
    }
}

/// Reading `put_all(s, ov, i)` at `k`: the value from `ov[i..]` when that
/// part sets `k`, else the value in `s`.
pub proof fn lemma_put_all_lookup<V>(s: Seq<(String, V)>, ov: Seq<(String, V)>, i: int, k: Seq<char>)
    requires
        sorted_keys(s),
        sorted_keys(ov),
        0 <= i <= ov.len(),
    ensures
        sorted_keys(put_all(s, ov, i)),
        lookup(put_all(s, ov, i), k) == if has_key(ov, k) && lower_bound(ov, k) >= i {
            lookup(ov, k)
        } else {
            lookup(s, k)
        },
    decreases ov.len() - i,
{
    lemma_has_key(ov, k);
    lemma_lower_bound(ov, k);
    if i < ov.len() {
        let s2 = put(s, ov[i].0, ov[i].1);
        lemma_put_sorted(s, ov[i].0, ov[i].1);
        lemma_put_lookup(s, ov[i].0, ov[i].1, k);
        lemma_put_all_lookup(s2, ov, i + 1, k);
        if k == ov[i].0@ {
            assert(lower_bound(ov, k) == i);
        }
    }
}

/// `overlay`: the upper configuration's entry wins for every layer it sets;
/// every other layer keeps the base entry. The same holds for seam
/// boundaries when the upper configuration sets seams.
pub proof fn lemma_overlay_precedence(b: WorkflowConfig, u: WorkflowConfig, out: WorkflowConfig, k: Seq<char>)
    requires
        overlaid(out, b, u),
        sorted_keys(b.layer_overrides.kv()),
        sorted_keys(u.layer_overrides.kv()),
        b.seams is Some ==> sorted_keys(b.seams->0.kv()),
        u.seams is Some ==> sorted_keys(u.seams->0.kv()),
    ensures
        lookup(out.layer_overrides.kv(), k) == if has_key(u.layer_overrides.kv(), k) {
            lookup(u.layer_overrides.kv(), k)
        } else {
            lookup(b.layer_overrides.kv(), k)
        },
        u.seams is Some ==> out.seams is Some && lookup(out.seams->0.kv(), k) == if has_key(
            u.seams->0.kv(),
            k,
        ) {
            lookup(u.seams->0.kv(), k)
        } else {
            match b.seams {
                Some(x) => lookup(x.kv(), k),
                None => None,
            }
        },
{
    lemma_lower_bound(u.layer_overrides.kv(), k);
    lemma_put_all_lookup(b.layer_overrides.kv(), u.layer_overrides.kv(), 0, k);
    if u.seams is Some {
        let bs = match b.seams {
            Some(x) => x.kv(),
            None => Seq::empty(),
        };
        lemma_lower_bound(u.seams->0.kv(), k);
        lemma_put_all_lookup(bs, u.seams->0.kv(), 0, k);
    }
}

/// The defaults and the review section after a floor merge never relax the
/// project's: tier and `min_confidence` are at least the project's,
/// `budget_usd` at most; a required review stays required, its trigger
/// stays equivalent to the project's, and `retry_on_reject` does not fall.
/// This holds of the merged values whether or not violations were found.
pub proof fn lemma_floor_merge_keeps_floors(b: WorkflowConfig, o: WorkflowConfig)
    ensures
        merged_defaults(b.defaults, o.defaults).tier >= b.defaults.tier,
        !dec_lt(merged_defaults(b.defaults, o.defaults).min_confidence, b.defaults.min_confidence),
        !dec_lt(b.defaults.budget_usd, merged_defaults(b.defaults, o.defaults).budget_usd),
        b.review is Some ==> merged_review(b.review, o.review) is Some,
        b.review is Some ==> merged_review(b.review, o.review)->0.retry_on_reject
            >= b.review->0.retry_on_reject,
        b.review is Some && b.review->0.enabled ==> merged_review(b.review, o.review)->0.enabled,
        b.review is Some && b.review->0.trigger is Some ==> merged_review(
            b.review,
            o.review,
        )->0.trigger is Some && spec_triggers_equivalent(
            b.review->0.trigger->0@,
            merged_review(b.review, o.review)->0.trigger->0@,
        ),
{
    if let Some(bv) = b.review {
        if let Some(pt) = bv.trigger {
            lemma_triggers_equivalent(pt@, pt@, pt@);
        }
    }
}

/// The project's effective value of a layer field: the layer's own value,
/// else the project-wide one.
pub open spec fn layer_entry(cfg: WorkflowConfig, k: Seq<char>) -> LayerOverride {
    opt_or(lookup(cfg.layer_overrides.kv(), k), empty_override())
}

pub open spec fn effective_tier(cfg: WorkflowConfig, k: Seq<char>) -> u8 {
    opt_or(layer_entry(cfg, k).tier, cfg.defaults.tier)
}

pub open spec fn effective_confidence(cfg: WorkflowConfig, k: Seq<char>) -> Decimal {
    opt_or(layer_entry(cfg, k).min_confidence, cfg.defaults.min_confidence)
}

pub open spec fn effective_budget(cfg: WorkflowConfig, k: Seq<char>) -> Decimal {
    opt_or(layer_entry(cfg, k).budget_usd, cfg.defaults.budget_usd)
}

/// The project's review gate for a layer: the layer's own setting, else
/// whether the review section is enabled.
pub open spec fn effective_require_review(cfg: WorkflowConfig, k: Seq<char>) -> bool {
    opt_or(
        layer_entry(cfg, k).require_review,
        match cfg.review {
            Some(r) => r.enabled,
            None => false,
        },
    )
}

/// The retries a layer gets after a rejection: the layer's own setting,
/// else the review section's.
pub open spec fn effective_retry(cfg: WorkflowConfig, k: Seq<char>) -> u32 {
    opt_or(
        layer_entry(cfg, k).retry_on_reject,
        match cfg.review {
            Some(r) => r.retry_on_reject,
            None => 0,
        },
    )
}

/// A layer entry `x` of the merge in progress does not undercut the
/// project's entry `pl` (project defaults `pd`, review section `pr`): a set
/// field respects the project's effective value, an unset one was unset in
/// the project too, and a committed trigger is kept up to equivalence.
pub open spec fn layer_kept(x: LayerOverride, pl: LayerOverride, pd: Defaults, pr: Option<ReviewConfig>) -> bool {
    let f = layer_floors(pd, pr, pl);
    &&& (match x.tier {
        Some(t) => t >= f.tier,
        None => pl.tier is None,
    })
    &&& (match x.min_confidence {
        Some(m) => !dec_lt(m, f.min_confidence),
        None => pl.min_confidence is None,
    })
    &&& (match x.budget_usd {
        Some(m) => !dec_lt(f.budget_usd, m),
        None => pl.budget_usd is None,
    })
    &&& (match x.require_review {
        Some(rr) => f.require_review ==> rr,
        None => pl.require_review is None,
    })
    &&& (match x.retry_on_reject {
        Some(r) => r >= f.retry_on_reject,
        None => pl.retry_on_reject is None,
    })
    &&& (match pl.trigger {
        Some(pt) => x.trigger is Some && spec_triggers_equivalent(pt@, x.trigger->0@),
        None => true,
    })
}

proof fn lemma_dec_lt_irrefl(d: Decimal)
    ensures
        !dec_lt(d, d),
{
}

proof fn lemma_merge_layers_kept(
    out: Seq<(String, LayerOverride)>,
    ov: Seq<(String, LayerOverride)>,
    i: int,
    pd: Defaults,
    pr: Option<ReviewConfig>,
    project: Seq<(String, LayerOverride)>,
)
    requires
        sorted_keys(out),
        sorted_keys(ov),
        0 <= i <= ov.len(),
        forall|k: Seq<char>|
            layer_kept(
                #[trigger] opt_or(lookup(out, k), empty_override()),
                opt_or(lookup(project, k), empty_override()),
                pd,
                pr,
            ),
    ensures
        forall|k: Seq<char>|
            layer_kept(
                #[trigger] opt_or(lookup(merge_layers(out, ov, i, pd, pr, project).0, k), empty_override()),
                opt_or(lookup(project, k), empty_override()),
                pd,
                pr,
            ),
    decreases ov.len() - i,
{
    if i < ov.len() {
        let ki = ov[i].0;
        let o = ov[i].1;
        let pl = opt_or(lookup(project, ki@), empty_override());
        let f = layer_floors(pd, pr, pl);
        let cur = opt_or(lookup(out, ki@), empty_override());
        let merged = merged_layer(cur, o, f);
        let next = put(out, ki, merged);
        assert(layer_kept(cur, pl, pd, pr));
        assert(layer_kept(merged, pl, pd, pr));
        lemma_put_sorted(out, ki, merged);
        assert forall|k: Seq<char>|
            layer_kept(
                #[trigger] opt_or(lookup(next, k), empty_override()),
                opt_or(lookup(project, k), empty_override()),
                pd,
                pr,
            ) by {
            lemma_put_lookup(out, ki, merged, k);
        }
        lemma_merge_layers_kept(next, ov, i + 1, pd, pr, project);
    }
}

/// Per-layer floors are never relaxed: after a floor merge, every layer's
/// effective tier and `min_confidence` are at least the project's effective
/// values for that layer and its effective `budget_usd` at most; a layer
/// the project gates stays gated; its retries after a rejection do not
/// fall; and a trigger the project set on the layer is kept up to equivalence.
/// This holds for layers the project lists and for fresh ones alike.
pub proof fn lemma_floor_merge_keeps_layer_floors(b: WorkflowConfig, o: WorkflowConfig, out: WorkflowConfig, k: Seq<char>)
    requires
        floor_merged(out, b, o),
        sorted_keys(b.layer_overrides.kv()),
        sorted_keys(o.layer_overrides.kv()),
    ensures
        effective_tier(out, k) >= effective_tier(b, k),
        !dec_lt(effective_confidence(out, k), effective_confidence(b, k)),
        !dec_lt(effective_budget(b, k), effective_budget(out, k)),
        effective_require_review(b, k) ==> effective_require_review(out, k),
        effective_retry(out, k) >= effective_retry(b, k),
        layer_entry(b, k).trigger is Some ==> layer_entry(out, k).trigger is Some
            && spec_triggers_equivalent(
            layer_entry(b, k).trigger->0@,
            layer_entry(out, k).trigger->0@,
        ),
{
    let project = b.layer_overrides.kv();
    let pd = b.defaults;
    let pr = b.review;
    assert forall|k2: Seq<char>|
        layer_kept(
            #[trigger] opt_or(lookup(project, k2), empty_override()),
            opt_or(lookup(project, k2), empty_override()),
            pd,
            pr,
        ) by {
        let x = opt_or(lookup(project, k2), empty_override());
        if let Some(m) = x.min_confidence {
            lemma_dec_lt_irrefl(m);
        }
        if let Some(m) = x.budget_usd {
            lemma_dec_lt_irrefl(m);
        }
    }
    lemma_merge_layers_kept(project, o.layer_overrides.kv(), 0, pd, pr, project);
    lemma_floor_merge_keeps_floors(b, o);
    let x = layer_entry(out, k);
    assert(layer_kept(x, layer_entry(b, k), pd, pr));
}

proof fn lemma_merge_layers_self(
    kv: Seq<(String, LayerOverride)>,
    i: int,
    pd: Defaults,
    pr: Option<ReviewConfig>,
)
    requires
        sorted_keys(kv),
        0 <= i <= kv.len(),
    ensures
        merge_layers(kv, kv, i, pd, pr, kv) == (kv, Seq::<SpecViolation>::empty()),
    decreases kv.len() - i,
{
    if i < kv.len() {
        let k = kv[i].0;
        let o = kv[i].1;
        lemma_has_key(kv, k@);
        lemma_lower_bound(kv, k@);
        assert(lookup(kv, k@) == Some(o));
        let f = layer_floors(pd, pr, o);
        if let Some(m) = o.min_confidence {
            lemma_dec_lt_irrefl(m);
        }
        if let Some(m) = o.budget_usd {
            lemma_dec_lt_irrefl(m);
        }
        assert(!trigger_refused(o, f));
        assert(merged_layer(o, o, f) == o);
        assert(put(kv, k, o) =~= kv);
        assert(layer_violations(k@, o, f) =~= Seq::<SpecViolation>::empty());
        lemma_merge_layers_self(kv, i + 1, pd, pr);
    }
}

proof fn lemma_seams_without_empty_lists(
    cur: Seq<(String, Vec<String>)>,
    orig: Seq<(String, Vec<String>)>,
    ov: Seq<(String, Vec<String>)>,
    i: int,
)
    requires
        0 <= i <= ov.len(),
        forall|j: int| 0 <= j < ov.len() ==> (#[trigger] ov[j]).1@.len() > 0,
    ensures
        merge_seams_from(cur, orig, ov, i).1 == Seq::<SpecViolation>::empty(),
    decreases ov.len() - i,
{
    if i < ov.len() {
        let raw = ov[i].0;
        let list = ov[i].1;
        let pk = seam_project_key(orig, raw@);
        let next = match pk {
            Some(k) => put(delete(cur, k@), raw, list),
            None => put(cur, raw, list),
        };
        lemma_seams_without_empty_lists(next, orig, ov, i + 1);
    }
}

/// Merging a configuration onto itself changes nothing: provided no seam
/// boundary has an empty check list, `merge_with_floor(b, b)` finds no
/// violation (so it returns `Ok`), and the configuration it returns is `b`
/// again — the same schema version, defaults, phases and review section,
/// and maps holding the same entries in the same order.
pub proof fn lemma_self_merge(b: WorkflowConfig, out: WorkflowConfig)
    requires
        sorted_keys(b.layer_overrides.kv()),
        b.seams is Some ==> sorted_keys(b.seams->0.kv()),
        b.seams is Some ==> forall|j: int|
            0 <= j < b.seams->0.kv().len() ==> (#[trigger] b.seams->0.kv()[j]).1@.len() > 0,
        floor_merged(out, b, b),
    ensures
        merge_violations(b, b) == Seq::<SpecViolation>::empty(),
        out.schema_version == b.schema_version,
        out.defaults == b.defaults,
        out.phases == b.phases,
        out.layer_overrides.kv() == b.layer_overrides.kv(),
        out.review == b.review,
        opt_kv(out.seams) == opt_kv(b.seams),
{
    let d = b.defaults;
    lemma_dec_lt_irrefl(d.min_confidence);
    lemma_dec_lt_irrefl(d.budget_usd);
    assert(merged_defaults(d, d) == d);
    assert(defaults_violations(d, d) =~= Seq::<SpecViolation>::empty());
    lemma_merge_layers_self(b.layer_overrides.kv(), 0, d, b.review);
    if let Some(r) = b.review {
        assert(merged_review(b.review, b.review) == b.review);
        assert(review_violations(b.review, b.review) =~= Seq::<SpecViolation>::empty());
    }
    if let Some(sm) = b.seams {
        lemma_self_merge_seams(sm.kv());
    }
    assert(merge_violations(b, b) =~= Seq::<SpecViolation>::empty());
}

/// Position of the key `canon_owner` picks: the last of the first `n`
/// keys spelling boundary `c`, or -1.
pub open spec fn canon_owner_index(keys: Seq<String>, c: Seq<char>, n: int) -> int
    decreases n,
{
    if n <= 0 || n > keys.len() {
        -1
    } else if canonical_key(keys[n - 1]@) == Some(c) {
        n - 1
    } else {
        canon_owner_index(keys, c, n - 1)
    }
}

proof fn lemma_canon_owner_index(keys: Seq<String>, c: Seq<char>, n: int)
    requires
        0 <= n <= keys.len(),
    ensures
        canon_owner(keys, c, n) == if canon_owner_index(keys, c, n) >= 0 {
            Some(keys[canon_owner_index(keys, c, n)])
        } else {
            None
        },
        -1 <= canon_owner_index(keys, c, n) < n,
        canon_owner_index(keys, c, n) >= 0 ==> canonical_key(
            keys[canon_owner_index(keys, c, n)]@,
        ) == Some(c),
        forall|j: int| 0 <= j < n && canonical_key(keys[j]@) == Some(c) ==> j <= canon_owner_index(keys, c, n),
    decreases n,
{
    if n > 0 && canonical_key(keys[n - 1]@) != Some(c) {
        lemma_canon_owner_index(keys, c, n - 1);
    }
}

/// The view of the project key that seam entry `j` of `orig` replaces.
pub open spec fn owner_view(orig: Seq<(String, Vec<String>)>, j: int) -> Option<Seq<char>> {
    match seam_project_key(orig, orig[j].0@) {
        Some(o) => Some(o@),
        None => None,
    }
}

/// Key `k` of `orig` is missing from the merge in progress after `i`
/// entries: an earlier entry replaced it and its own turn has not come.
pub open spec fn shadowed(orig: Seq<(String, Vec<String>)>, i: int, k: Seq<char>) -> bool {
    &&& has_key(orig, k)
    &&& lower_bound(orig, k) >= i
    &&& exists|j: int| 0 <= j < i && #[trigger] owner_view(orig, j) == Some(k)
}

proof fn lemma_seams_self_step(
    cur: Seq<(String, Vec<String>)>,
    orig: Seq<(String, Vec<String>)>,
    i: int,
)
    requires
        sorted_keys(orig),
        sorted_keys(cur),
        0 <= i <= orig.len(),
        forall|j: int| 0 <= j < orig.len() ==> (#[trigger] orig[j]).1@.len() > 0,
        forall|k: Seq<char>|
            #[trigger] entry_at(cur, k) == if shadowed(orig, i, k) {
                None
            } else {
                entry_at(orig, k)
            },
    ensures
        merge_seams_from(cur, orig, orig, i).0 == orig,
    decreases orig.len() - i,
{
    if i < orig.len() {
        let raw = orig[i].0;
        let list = orig[i].1;
        let keys = entry_keys(orig);
        let n = orig.len() as int;
        lemma_has_key(orig, raw@);
        lemma_lower_bound(orig, raw@);
        let pk = seam_project_key(orig, raw@);
        let next = match pk {
            Some(k) => put(delete(cur, k@), raw, list),
            None => put(cur, raw, list),
        };
        match canonical_key(raw@) {
            Some(c) => {
                lemma_canon_owner_index(keys, c, n);
                assert(keys[i] == raw);
                let m = canon_owner_index(keys, c, n);
                assert(m >= i);
                let owner = orig[m].0;
                assert(pk == Some(owner));
                lemma_has_key(orig, owner@);
                if m > i {
                    crate::strmap::lemma_str_lt_asym(raw@, owner@);
                }
                lemma_delete_entry(cur, owner@, raw@);
                let d = delete(cur, owner@);
                lemma_put_sorted(d, raw, list);
                assert forall|k: Seq<char>|
                    #[trigger] entry_at(next, k) == if shadowed(orig, i + 1, k) {
                        None
                    } else {
                        entry_at(orig, k)
                    } by {
                    lemma_delete_entry(cur, owner@, k);
                    lemma_put_entry(d, raw, list, k);
                    lemma_has_key(orig, k);
                    lemma_lower_bound(orig, k);
                    if k == owner@ && k != raw@ {
                        assert(owner_view(orig, i) == Some(k));
                        assert(shadowed(orig, i + 1, k));
                    } else if k != raw@ {
                        if shadowed(orig, i + 1, k) {
                            let j = choose|j: int| 0 <= j < i + 1 && #[trigger] owner_view(orig, j) == Some(k);
                            assert(j != i);
                            assert(shadowed(orig, i, k));
                        }
                        if shadowed(orig, i, k) {
                            assert(lower_bound(orig, k) != i);
                        }
                    } else {
                        assert(!shadowed(orig, i + 1, k));
                    }
                }
                lemma_seams_self_step(next, orig, i + 1);
            },
            None => {
                assert(pk is None);
                lemma_put_sorted(cur, raw, list);
                assert forall|k: Seq<char>|
                    #[trigger] entry_at(next, k) == if shadowed(orig, i + 1, k) {
                        None
                    } else {
                        entry_at(orig, k)
                    } by {
                    lemma_put_entry(cur, raw, list, k);
                    lemma_has_key(orig, k);
                    lemma_lower_bound(orig, k);
                    if k != raw@ {
                        if shadowed(orig, i + 1, k) {
                            let j = choose|j: int| 0 <= j < i + 1 && #[trigger] owner_view(orig, j) == Some(k);
                            assert(j != i);
                            assert(shadowed(orig, i, k));
                        }
                        if shadowed(orig, i, k) {
                            assert(lower_bound(orig, k) != i);
                        }
                    } else {
                        assert(!shadowed(orig, i + 1, k));
                    }
                }
                lemma_seams_self_step(next, orig, i + 1);
            },
        }
    } else {
        assert forall|k: Seq<char>| #[trigger] entry_at(cur, k) == entry_at(orig, k) by {
            lemma_has_key(orig, k);
            lemma_lower_bound(orig, k);
        }
        lemma_entries_ext(cur, orig);
        assert(merge_seams_from(cur, orig, orig, i).0 == cur);
    }
}

/// Merging seams onto themselves: when no boundary has an empty check
/// list, nothing is reported and the seams come back unchanged.
pub proof fn lemma_self_merge_seams(sm: Seq<(String, Vec<String>)>)
    requires
        sorted_keys(sm),
        forall|j: int| 0 <= j < sm.len() ==> (#[trigger] sm[j]).1@.len() > 0,
    ensures
        merged_seams(Some(sm), Some(sm)).1 == Seq::<SpecViolation>::empty(),
        merged_seams(Some(sm), Some(sm)).0 == Some(sm),
{
    lemma_seams_without_empty_lists(sm, sm, sm, 0);
    assert forall|k2: Seq<char>|
        #[trigger] entry_at(sm, k2) == if shadowed(sm, 0, k2) {
            None
        } else {
            entry_at(sm, k2)
        } by {}
    lemma_seams_self_step(sm, sm, 0);
}

/// The user's `max_passes` for a layer, when set, is in `x`.
pub open spec fn passes_taken(x: LayerOverride, u: LayerOverride) -> bool {
    u.max_passes is Some ==> x.max_passes == u.max_passes
}

/// Every field the user's override `u` sets has that value in `x`.
pub open spec fn user_values_taken(x: LayerOverride, u: LayerOverride) -> bool {
    &&& (u.tier is Some ==> x.tier == u.tier)
    &&& (u.min_confidence is Some ==> x.min_confidence == u.min_confidence)
    &&& (u.max_passes is Some ==> x.max_passes == u.max_passes)
    &&& (u.budget_usd is Some ==> x.budget_usd == u.budget_usd)
    &&& (u.require_review is Some ==> x.require_review == u.require_review)
    &&& (u.trigger is Some ==> x.trigger == u.trigger)
    &&& (u.retry_on_reject is Some ==> x.retry_on_reject == u.retry_on_reject)
}

pub open spec fn floors_at(
    ov: Seq<(String, LayerOverride)>,
    j: int,
    pd: Defaults,
    pr: Option<ReviewConfig>,
    project: Seq<(String, LayerOverride)>,
) -> LayerFloors {
    layer_floors(pd, pr, opt_or(lookup(project, ov[j].0@), empty_override()))
}

proof fn lemma_merge_layers_violations_cover(
    out: Seq<(String, LayerOverride)>,
    ov: Seq<(String, LayerOverride)>,
    i: int,
    pd: Defaults,
    pr: Option<ReviewConfig>,
    project: Seq<(String, LayerOverride)>,
)
    requires
        0 <= i <= ov.len(),
    ensures
        forall|j: int|
            i <= j < ov.len() ==> (#[trigger] layer_violations(
                ov[j].0@,
                ov[j].1,
                floors_at(ov, j, pd, pr, project),
            )).len() <= merge_layers(out, ov, i, pd, pr, project).1.len(),
    decreases ov.len() - i,
{
    if i < ov.len() {
        let k = ov[i].0;
        let f = floors_at(ov, i, pd, pr, project);
        let cur = opt_or(lookup(out, k@), empty_override());
        let next = put(out, k, merged_layer(cur, ov[i].1, f));
        lemma_merge_layers_violations_cover(next, ov, i + 1, pd, pr, project);
    }
}

proof fn lemma_merge_layers_takes(
    out: Seq<(String, LayerOverride)>,
    ov: Seq<(String, LayerOverride)>,
    i: int,
    pd: Defaults,
    pr: Option<ReviewConfig>,
    project: Seq<(String, LayerOverride)>,
)
    requires
        sorted_keys(out),
        sorted_keys(ov),
        0 <= i <= ov.len(),
        forall|j: int|
            0 <= j < i ==> {
                let x = #[trigger] lookup(out, ov[j].0@);
                &&& x is Some
                &&& passes_taken(x->0, ov[j].1)
                &&& (layer_violations(ov[j].0@, ov[j].1, floors_at(ov, j, pd, pr, project)).len()
                    == 0 ==> user_values_taken(x->0, ov[j].1))
            },
    ensures
        forall|j: int|
            0 <= j < ov.len() ==> {
                let x = #[trigger] lookup(merge_layers(out, ov, i, pd, pr, project).0, ov[j].0@);
                &&& x is Some
                &&& passes_taken(x->0, ov[j].1)
                &&& (layer_violations(ov[j].0@, ov[j].1, floors_at(ov, j, pd, pr, project)).len()
                    == 0 ==> user_values_taken(x->0, ov[j].1))
            },
    decreases ov.len() - i,
{
    if i < ov.len() {
        let ki = ov[i].0;
        let u = ov[i].1;
        let f = floors_at(ov, i, pd, pr, project);
        let cur = opt_or(lookup(out, ki@), empty_override());
        let merged = merged_layer(cur, u, f);
        let next = put(out, ki, merged);
        lemma_put_sorted(out, ki, merged);
        assert forall|j: int|
            0 <= j < i + 1 implies {
                let x = #[trigger] lookup(next, ov[j].0@);
                &&& x is Some
                &&& passes_taken(x->0, ov[j].1)
                &&& (layer_violations(ov[j].0@, ov[j].1, floors_at(ov, j, pd, pr, project)).len()
                    == 0 ==> user_values_taken(x->0, ov[j].1))
            } by {
            lemma_put_lookup(out, ki, merged, ov[j].0@);
            if j < i {
                assert(ov[j].0@ != ki@) by {
                    crate::strmap::lemma_str_lt_asym(ov[j].0@, ki@);
                }
            } else {
                if layer_violations(ki@, u, f).len() == 0 {
                    assert(tier_part(ki@, u, f).len() == 0);
                    assert(confidence_part(ki@, u, f).len() == 0);
                    assert(budget_part(ki@, u, f).len() == 0);
                    assert(review_part(ki@, u, f).len() == 0);
                    assert(trigger_part(ki@, u, f).len() == 0);
                    assert(retry_part(ki@, u, f).len() == 0);
                }
            }
        }
        lemma_merge_layers_takes(next, ov, i + 1, pd, pr, project);
    }
}

/// A floor merge gives the user the values they ask for on a layer: a
/// `max_passes` the user sets is always in the merged layer; and when the
/// merge succeeds (no violation), every field the user sets on a layer —
/// tier, `min_confidence`, `max_passes`, `budget_usd`, `require_review`,
/// trigger, `retry_on_reject` — has the user's value in the result.
pub proof fn lemma_floor_merge_takes_user_layer_values(
    b: WorkflowConfig,
    o: WorkflowConfig,
    out: WorkflowConfig,
    k: Seq<char>,
)
    requires
        floor_merged(out, b, o),
        sorted_keys(b.layer_overrides.kv()),
        sorted_keys(o.layer_overrides.kv()),
        has_key(o.layer_overrides.kv(), k),
    ensures
        has_key(out.layer_overrides.kv(), k),
        layer_entry(o, k).max_passes is Some ==> layer_entry(out, k).max_passes == layer_entry(
            o,
            k,
        ).max_passes,
        merge_violations(b, o).len() == 0 ==> {
            let x = layer_entry(out, k);
            let u = layer_entry(o, k);
            &&& (u.tier is Some ==> x.tier == u.tier)
            &&& (u.min_confidence is Some ==> x.min_confidence == u.min_confidence)
            &&& (u.max_passes is Some ==> x.max_passes == u.max_passes)
            &&& (u.budget_usd is Some ==> x.budget_usd == u.budget_usd)
            &&& (u.require_review is Some ==> x.require_review == u.require_review)
            &&& (u.trigger is Some ==> x.trigger == u.trigger)
            &&& (u.retry_on_reject is Some ==> x.retry_on_reject == u.retry_on_reject)
        },
{
    let project = b.layer_overrides.kv();
    let ov = o.layer_overrides.kv();
    let pd = b.defaults;
    let pr = b.review;
    lemma_merge_layers_takes(project, ov, 0, pd, pr, project);
    lemma_merge_layers_violations_cover(project, ov, 0, pd, pr, project);
    lemma_has_key(ov, k);
    let j = lower_bound(ov, k);
    assert(ov[j].0@ == k);
    let res = merge_layers(project, ov, 0, pd, pr, project).0;
    assert(lookup(res, k) is Some);
    assert(lookup(ov, k) == Some(ov[j].1));
    if merge_violations(b, o).len() == 0 {
        assert(layer_violations(ov[j].0@, ov[j].1, floors_at(ov, j, pd, pr, project)).len() == 0);
    }
}

/// The user's defaults and review section win when the floor merge
/// succeeds: `max_passes`, `model` and `cost_cap_behavior` always take the
/// user's values, `max_parallelism` the user's when set; and when no
/// violation is found, the tier, `min_confidence` and `budget_usd` are the
/// user's too, and a review section the user gives is taken as given.
pub proof fn lemma_floor_merge_takes_user_defaults(b: WorkflowConfig, o: WorkflowConfig, out: WorkflowConfig)
    requires
        floor_merged(out, b, o),
    ensures
        out.defaults.max_passes == o.defaults.max_passes,
        out.defaults.model == o.defaults.model,
        out.defaults.cost_cap_behavior == o.defaults.cost_cap_behavior,
        o.defaults.max_parallelism is Some ==> out.defaults.max_parallelism
            == o.defaults.max_parallelism,
        o.defaults.max_parallelism is None ==> out.defaults.max_parallelism
            == b.defaults.max_parallelism,
        out.phases == o.phases,
        out.schema_version == b.schema_version,
        merge_violations(b, o).len() == 0 ==> out.defaults.tier == o.defaults.tier
            && out.defaults.min_confidence == o.defaults.min_confidence
            && out.defaults.budget_usd == o.defaults.budget_usd,
        merge_violations(b, o).len() == 0 && o.review is Some ==> out.review == o.review,
        o.review is None ==> out.review == b.review,
{
    let dv = defaults_violations(b.defaults, o.defaults);
    let lv = merge_layers(
        b.layer_overrides.kv(),
        o.layer_overrides.kv(),
        0,
        b.defaults,
        b.review,
        b.layer_overrides.kv(),
    ).1;
    let rv = review_violations(b.review, o.review);
    let sv2 = merged_seams(opt_kv(b.seams), opt_kv(o.seams)).1;
    assert(merge_violations(b, o) == dv + lv + rv + sv2);
    if merge_violations(b, o).len() == 0 {
        assert(dv.len() == 0);
        assert(rv.len() == 0);
        if let (Some(bv), Some(ov)) = (b.review, o.review) {
            let e = if bv.enabled && !ov.enabled {
                seq![sv("review.enabled"@, "true"@, "false"@, reason_review())]
            } else {
                Seq::<SpecViolation>::empty()
            };
            assert(e.len() == 0);
        }
    }
}

} // verus!
