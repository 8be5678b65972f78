//! Workflow configuration core: trigger-expression grammar, floor-based
//! merge of layered workflow files, resolution and validation; gate
//! decisions, the outcome of a stack evaluation, the metrics migration plan, lcov line counts, and the text
//! helpers used by the daemon's reports.
pub mod text;
pub mod decimal;
pub mod workflow;
pub mod strmap;
pub mod seam;
pub mod layers;
pub mod report;
pub mod metrics;
pub mod gate;
pub mod evaluation;
pub mod coverage;
