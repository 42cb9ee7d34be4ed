//! Cleaning the shared Cargo target directory: the plan, its summary, and
//! the check made before removal.
use vstd::prelude::*;

use crate::path::{has_parent, parent};
use crate::rust::CargoTargetDir;
use crate::text::{chars_of, owned, pad_left, push_padded_left, push_str};
use crate::{format_bytes, format_bytes_spec};

verus! {

/// The shared target directory to remove, if any, and its size.
#[derive(Debug, Clone, PartialEq, Eq)]
pub struct CleanPlan {
    pub target_path: Option<String>,
    pub total_bytes: u64,
}

/// The plan for a shared target directory found (or not) on disk.
pub fn plan_from_target(target: Option<CargoTargetDir>) -> (r: CleanPlan)
    ensures
        match target {
            Some(t) => r.target_path == Some(t.path) && r.total_bytes == t.bytes,
            None => r.target_path is None && r.total_bytes == 0,
        },
{
    match target {
        Some(t) => CleanPlan { target_path: Some(t.path), total_bytes: t.bytes },
        None => CleanPlan { target_path: None, total_bytes: 0 },
    }
}

/// The plan summary: a fixed sentence when there is no shared target
/// directory; otherwise its size and path, the estimated space and why
/// removal is safe.
pub open spec fn render_plan_spec(plan: CleanPlan) -> Seq<char> {
    match plan.target_path {
        None => "No shared Cargo target directory found. No files will be deleted."@,
        Some(p) => "The shared Cargo target directory will be removed:\n\n  shared target "@
            + pad_left(format_bytes_spec(plan.total_bytes as nat), 9) + "  "@ + p@
            + "\n\nEstimated reclaimable space: "@ + format_bytes_spec(plan.total_bytes as nat)
            + "\n\nSafety: this is Cargo's shared build cache. Removing it is normally safe because Cargo rebuilds it, but all projects that use this shared target directory will rebuild afterwards."@,
    }
}

/// The plan summary, as `render_plan_spec` describes it.
pub fn render_plan(plan: &CleanPlan) -> (r: String)
    ensures
        r@ == render_plan_spec(*plan),
{
    match &plan.target_path {
        None => owned("No shared Cargo target directory found. No files will be deleted."),
        Some(p) => {
            let mut output = owned(
                "The shared Cargo target directory will be removed:\n\n  shared target ",
            );
            let size = format_bytes(plan.total_bytes);
            let b = chars_of(size.as_str());
            push_padded_left(&mut output, b.as_slice(), 9);
            push_str(&mut output, "  ");
            push_str(&mut output, p.as_str());
            push_str(&mut output, "\n\nEstimated reclaimable space: ");
            push_str(&mut output, size.as_str());
            push_str(
                &mut output,
                "\n\nSafety: this is Cargo's shared build cache. Removing it is normally safe because Cargo rebuilds it, but all projects that use this shared target directory will rebuild afterwards.",
            );
            output
        },
    }
}

/// Checks the shared target directory before removal: the filesystem root
/// (a path without a parent) is refused.
pub fn check_removal(target_path: &str) -> (r: Result<(), String>)
    ensures
        r is Ok <==> has_parent(target_path@),
        r matches Err(e) ==> e@ == "refusing to delete filesystem root: "@ + target_path@,
{
    match parent(target_path) {
        Some(_) => Ok(()),
        None => {
            let mut e = owned("refusing to delete filesystem root: ");
            push_str(&mut e, target_path);
            Err(e)
        },
    }
}

} // verus!
