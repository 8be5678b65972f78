use pice_core::decimal::Decimal;
use pice_core::workflow::schema::{
    default_evaluate_parallel, default_notification, default_timeout_hours, AdaptiveAlgo,
    AdtsConfig, CostCapBehavior, EvaluatePhase, ExecutePhase, LayerOverride, OnTimeout,
    ReviewConfig, SprtConfig, VecConfig,
};

#[test]
fn evaluate_phase_default_sub_configs_match_module_defaults() {
    let phase = EvaluatePhase::default();
    assert_eq!(phase.sprt, SprtConfig::default());
    assert_eq!(phase.adts, AdtsConfig::default());
    assert_eq!(phase.vec, VecConfig::default());
}

#[test]
fn evaluate_phase_default_parallel_is_true() {
    assert!(EvaluatePhase::default().parallel);
}

#[test]
fn review_defaults() {
    let r = ReviewConfig::default();
    assert!(!r.enabled);
    assert_eq!(r.trigger, None);
    assert_eq!(r.timeout_hours, 24);
    assert_eq!(r.on_timeout, OnTimeout::Reject);
    assert_eq!(r.notification, "stdout");
    assert_eq!(r.retry_on_reject, 0);
    assert_eq!(default_timeout_hours(), 24);
    assert_eq!(default_notification(), "stdout");
    assert!(default_evaluate_parallel());
}

#[test]
fn module_defaults_values() {
    assert_eq!(SprtConfig::default().accept_threshold, Decimal { mantissa: 19, scale: 0 });
    assert_eq!(AdtsConfig::default().divergence_threshold, Decimal { mantissa: 2, scale: 0 });
    assert_eq!(VecConfig::default().entropy_floor, Decimal { mantissa: 1, scale: 2 });
    assert_eq!(AdaptiveAlgo::default(), AdaptiveAlgo::BayesianSprt);
    assert_eq!(CostCapBehavior::default(), CostCapBehavior::Halt);
    let e = ExecutePhase::default();
    assert!(e.parallel);
    assert_eq!(e.retry.max_attempts, 3);
    assert!(e.retry.fresh_context);
    let o = LayerOverride::default();
    assert_eq!(o.tier, None);
    assert_eq!(o.trigger, None);
}
