//! Resolution of the effective workflow: framework defaults, then the
//! project file as a plain overlay, then the user file under the floor rules.
//! Reading the files is the caller's part.
use crate::text::str_eq;
use crate::workflow::merge::{
    floor_merged, merge_violations, merge_with_floor, overlaid, overlay, viols_view, FloorViolations,
};
use crate::workflow::schema::{WorkflowConfig, SCHEMA_VERSION};
use vstd::prelude::*;

verus! {

/// Whether `cfg` declares the one schema version this crate understands.
pub fn schema_version_supported(cfg: &WorkflowConfig) -> (b: bool)
    ensures
        b == (cfg.schema_version@ == SCHEMA_VERSION@),
{
    str_eq(cfg.schema_version.as_str(), SCHEMA_VERSION)
}

/// `mid` is the framework configuration with the project's file laid over
/// it (or the framework configuration itself when there is no project file).
pub open spec fn project_applied(mid: WorkflowConfig, framework: WorkflowConfig, project: Option<WorkflowConfig>) -> bool {
    match project {
        Some(p) => overlaid(mid, framework, p),
        None => mid == framework,
    }
}

/// The outcome of applying the user's file (if any) to `mid` under the
/// floor rules.
pub open spec fn user_applied(r: Result<WorkflowConfig, FloorViolations>, mid: WorkflowConfig, user: Option<WorkflowConfig>) -> bool {
    match user {
        None => r == Ok::<WorkflowConfig, FloorViolations>(mid),
        Some(u) => {
            &&& (r is Ok <==> merge_violations(mid, u).len() == 0)
            &&& match r {
                Ok(out) => floor_merged(out, mid, u),
                Err(e) => viols_view(e.violations@) == merge_violations(mid, u),
            }
        },
    }
}

/// The effective workflow: `framework` overlaid by `project`, then merged
/// with `user` under the floor rules. Fails with the floor violations of
/// the user's file; the schema version is the project's (the framework's
/// without a project file).
pub fn resolve_layers(
    framework: WorkflowConfig,
    project: Option<WorkflowConfig>,
    user: Option<WorkflowConfig>,
) -> (r: Result<WorkflowConfig, FloorViolations>)
    ensures
        exists|mid: WorkflowConfig|
            #[trigger] project_applied(mid, framework, project) && user_applied(r, mid, user),
        match r {
            Ok(out) => out.schema_version == match project {
                Some(p) => p.schema_version,
                None => framework.schema_version,
            },
            Err(_) => user is Some,
        },
{
    let mid = match project {
        Some(p) => overlay(framework, p),
        None => framework,
    };
    let ghost m = mid;
    let r = match user {
        Some(u) => merge_with_floor(mid, u),
        None => Ok(mid),
    };
    assert(project_applied(m, framework, project) && user_applied(r, m, user));
    r
}

} // verus!
