//! `WorkflowConfig` struct hierarchy. Maps are `StrMap`s (ascending key
//! order); confidences and money amounts are exact `Decimal`s.
use crate::decimal::Decimal;
use crate::strmap::StrMap;
use crate::text::string_of;
use vstd::prelude::*;

verus! {

/// The only schema version this crate understands.
pub const SCHEMA_VERSION: &'static str = "0.2";

/// Hard upper bound on `defaults.max_parallelism`, regardless of user
/// config.
pub const MAX_PARALLELISM_HARD_CAP: u32 = 16;

/// Top-level `.pice/workflow.yaml` configuration.
#[derive(Clone, Debug, PartialEq)]
pub struct WorkflowConfig {
    pub schema_version: String,
    pub defaults: Defaults,
    pub phases: Phases,
    pub layer_overrides: StrMap<LayerOverride>,
    pub review: Option<ReviewConfig>,
    pub seams: Option<StrMap<Vec<String>>>,
}

/// Pipeline-wide defaults applied when no layer override specifies
/// otherwise.
#[derive(Clone, Debug, PartialEq)]
pub struct Defaults {
    pub tier: u8,
    pub min_confidence: Decimal,
    pub max_passes: u32,
    pub model: String,
    pub budget_usd: Decimal,
    pub cost_cap_behavior: CostCapBehavior,
    pub max_parallelism: Option<u32>,
}

/// What to do when a per-layer evaluation would exceed `budget_usd`.
#[derive(Clone, Copy, Debug, PartialEq, Eq, Structural)]
pub enum CostCapBehavior {
    Halt,
    Warn,
    Continue,
}

impl Default for CostCapBehavior {
    fn default() -> (r: Self)
        ensures
            r == CostCapBehavior::Halt,
    {
        CostCapBehavior::Halt
    }
}

/// Phase configuration — plan / execute / evaluate.
#[derive(Clone, Debug, PartialEq)]
pub struct Phases {
    pub plan: PhaseConfig,
    pub execute: ExecutePhase,
    pub evaluate: EvaluatePhase,
}

impl Default for Phases {
    fn default() -> (r: Self)
        ensures
            r.plan.description is None,
            r.plan.output is None,
            is_default_execute(r.execute),
            is_default_evaluate(r.evaluate),
    {
        Phases {
            plan: PhaseConfig::default(),
            execute: ExecutePhase::default(),
            evaluate: EvaluatePhase::default(),
        }
    }
}

/// Generic phase descriptor — only used for `plan`.
#[derive(Clone, Debug, PartialEq)]
pub struct PhaseConfig {
    pub description: Option<String>,
    pub output: Option<String>,
}

impl Default for PhaseConfig {
    fn default() -> (r: Self)
        ensures
            r.description is None,
            r.output is None,
    {
        PhaseConfig { description: None, output: None }
    }
}

/// `phases.execute` — implementation phase.
#[derive(Clone, Debug, PartialEq)]
pub struct ExecutePhase {
    pub description: Option<String>,
    pub parallel: bool,
    pub worktree_isolation: bool,
    pub retry: RetryConfig,
}

pub open spec fn is_default_execute(e: ExecutePhase) -> bool {
    &&& e.description is None
    &&& e.parallel
    &&& e.worktree_isolation
    &&& e.retry == (RetryConfig { max_attempts: 3, fresh_context: true })
}

impl Default for ExecutePhase {
    fn default() -> (r: Self)
        ensures
            is_default_execute(r),
    {
        ExecutePhase {
            description: None,
            parallel: true,
            worktree_isolation: true,
            retry: RetryConfig::default(),
        }
    }
}

/// Retry policy for the execute phase.
#[derive(Clone, Copy, Debug, PartialEq, Eq, Structural)]
pub struct RetryConfig {
    pub max_attempts: u32,
    pub fresh_context: bool,
}

impl Default for RetryConfig {
    fn default() -> (r: Self)
        ensures
            r == (RetryConfig { max_attempts: 3, fresh_context: true }),
    {
        RetryConfig { max_attempts: 3, fresh_context: true }
    }
}

/// Sequential-probability-ratio-test tuning.
#[derive(Clone, Copy, Debug, PartialEq, Eq, Structural)]
pub struct SprtConfig {
    pub accept_threshold: Decimal,
}

impl Default for SprtConfig {
    fn default() -> (r: Self)
        ensures
            r.accept_threshold == (Decimal { mantissa: 19, scale: 0 }),
    {
        SprtConfig { accept_threshold: Decimal { mantissa: 19, scale: 0 } }
    }
}

/// Adaptive-divergence tuning.
#[derive(Clone, Copy, Debug, PartialEq, Eq, Structural)]
pub struct AdtsConfig {
    pub divergence_threshold: Decimal,
}

impl Default for AdtsConfig {
    fn default() -> (r: Self)
        ensures
            r.divergence_threshold == (Decimal { mantissa: 2, scale: 0 }),
    {
        AdtsConfig { divergence_threshold: Decimal { mantissa: 2, scale: 0 } }
    }
}

/// Verification-entropy tuning.
#[derive(Clone, Copy, Debug, PartialEq, Eq, Structural)]
pub struct VecConfig {
    pub entropy_floor: Decimal,
}

impl Default for VecConfig {
    fn default() -> (r: Self)
        ensures
            r.entropy_floor == (Decimal { mantissa: 1, scale: 2 }),
    {
        VecConfig { entropy_floor: Decimal { mantissa: 1, scale: 2 } }
    }
}

/// `phases.evaluate` — dual-model scoring phase.
#[derive(Clone, Debug, PartialEq)]
pub struct EvaluatePhase {
    pub description: Option<String>,
    pub parallel: bool,
    pub seam_checks: bool,
    pub adaptive_algorithm: AdaptiveAlgo,
    pub sprt: SprtConfig,
    pub adts: AdtsConfig,
    pub vec: VecConfig,
    pub model_override: StrMap<String>,
}

pub open spec fn is_default_evaluate(e: EvaluatePhase) -> bool {
    &&& e.description is None
    &&& e.parallel
    &&& e.seam_checks
    &&& e.adaptive_algorithm == AdaptiveAlgo::BayesianSprt
    &&& e.sprt.accept_threshold == (Decimal { mantissa: 19, scale: 0 })
    &&& e.adts.divergence_threshold == (Decimal { mantissa: 2, scale: 0 })
    &&& e.vec.entropy_floor == (Decimal { mantissa: 1, scale: 2 })
    &&& e.model_override.kv().len() == 0
}

impl Default for EvaluatePhase {
    fn default() -> (r: Self)
        ensures
            is_default_evaluate(r),
    {
        EvaluatePhase {
            description: None,
            parallel: default_evaluate_parallel(),
            seam_checks: true,
            adaptive_algorithm: AdaptiveAlgo::default(),
            sprt: SprtConfig::default(),
            adts: AdtsConfig::default(),
            vec: VecConfig::default(),
            model_override: StrMap::new(),
        }
    }
}

/// Which adaptive algorithm governs pass-count selection.
#[derive(Clone, Copy, Debug, PartialEq, Eq, Structural)]
pub enum AdaptiveAlgo {
    BayesianSprt,
    Adts,
    Vec,
    /// No adaptive algorithm (`none` in workflow files).
    Disabled,
}

impl Default for AdaptiveAlgo {
    fn default() -> (r: Self)
        ensures
            r == AdaptiveAlgo::BayesianSprt,
    {
        AdaptiveAlgo::BayesianSprt
    }
}

/// Per-layer override; absent fields inherit from defaults.
#[derive(Clone, Debug, PartialEq)]
pub struct LayerOverride {
    pub tier: Option<u8>,
    pub min_confidence: Option<Decimal>,
    pub max_passes: Option<u32>,
    pub budget_usd: Option<Decimal>,
    pub require_review: Option<bool>,
    pub trigger: Option<String>,
    pub adaptive_algorithm: Option<AdaptiveAlgo>,
    pub retry_on_reject: Option<u32>,
}

/// The override that sets nothing.
pub open spec fn empty_override() -> LayerOverride {
    LayerOverride {
        tier: None,
        min_confidence: None,
        max_passes: None,
        budget_usd: None,
        require_review: None,
        trigger: None,
        adaptive_algorithm: None,
        retry_on_reject: None,
    }
}

impl Default for LayerOverride {
    fn default() -> (r: Self)
        ensures
            r == empty_override(),
    {
        LayerOverride {
            tier: None,
            min_confidence: None,
            max_passes: None,
            budget_usd: None,
            require_review: None,
            trigger: None,
            adaptive_algorithm: None,
            retry_on_reject: None,
        }
    }
}

/// Review gate configuration.
#[derive(Clone, Debug, PartialEq)]
pub struct ReviewConfig {
    pub enabled: bool,
    pub trigger: Option<String>,
    pub timeout_hours: u32,
    pub on_timeout: OnTimeout,
    pub notification: String,
    pub retry_on_reject: u32,
}

impl Default for ReviewConfig {
    fn default() -> (r: Self)
        ensures
            !r.enabled,
            r.trigger is None,
            r.timeout_hours == 24,
            r.on_timeout == OnTimeout::Reject,
            r.notification@ == "stdout"@,
            r.retry_on_reject == 0,
    {
        ReviewConfig {
            enabled: false,
            trigger: None,
            timeout_hours: default_timeout_hours(),
            on_timeout: OnTimeout::default(),
            notification: default_notification(),
            retry_on_reject: 0,
        }
    }
}

/// Default review timeout.
pub fn default_timeout_hours() -> (h: u32)
    ensures
        h == 24,
{
    24
}

/// Default review notification channel.
pub fn default_notification() -> (s: String)
    ensures
        s@ == "stdout"@,
{
    string_of("stdout")
}

/// `phases.evaluate.parallel` defaults to `true`.
pub fn default_evaluate_parallel() -> (b: bool)
    ensures
        b,
{
    true
}

/// What to do when a review gate times out.
#[derive(Clone, Copy, Debug, PartialEq, Eq, Structural)]
pub enum OnTimeout {
    Reject,
    Approve,
    Skip,
}

impl Default for OnTimeout {
    fn default() -> (r: Self)
        ensures
            r == OnTimeout::Reject,
    {
        OnTimeout::Reject
    }
}

} // verus!
