//! `.pice/workflow.yaml`: schema, floor-based merge, resolution, validation
//! and the trigger grammar shared by review gates and layer overrides.
pub mod trigger;
pub mod schema;
pub mod merge;
pub mod resolve;
pub mod validate;

pub use self::schema::{
    AdaptiveAlgo, CostCapBehavior, Defaults, EvaluatePhase, ExecutePhase, LayerOverride, OnTimeout,
    PhaseConfig, Phases, RetryConfig, ReviewConfig, WorkflowConfig, SCHEMA_VERSION,
};
