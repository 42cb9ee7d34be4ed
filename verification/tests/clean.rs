use disk_maint::clean::shared::{self, plan_from_target};
use disk_maint::clean::target::{self, TargetCleanup};
use disk_maint::clean::{
    begin_shared_cleanup, begin_target_cleanup, confirm, CleanupStep, ConfirmOutcome,
};
use disk_maint::cli::{CleanSharedOptions, CleanTargetOptions};
use disk_maint::rust::{CargoTargetDir, RustProject};

fn project(name: &str, path: &str, target_bytes: u64) -> RustProject {
    RustProject {
        name: name.to_string(),
        path: path.to_string(),
        source_bytes: 1,
        target_bytes,
        workspace_members: 0,
    }
}

#[test]
fn plans_only_projects_with_target_contents() {
    let plan = target::plan(&[
        project("example", "/tmp/r/example", 8),
        project("empty", "/tmp/r/empty", 0),
    ]);
    assert_eq!(plan.items.len(), 1);
    assert_eq!(
        plan.items[0],
        TargetCleanup {
            project_name: "example".to_string(),
            project_path: "/tmp/r/example".to_string(),
            target_path: "/tmp/r/example/target".to_string(),
            bytes: 8,
        }
    );
    assert_eq!(plan.total_bytes, 8);

    let rendered = target::render_plan(&plan);
    assert!(rendered.contains("Estimated reclaimable space"));
    assert!(rendered.contains("Safety: target/ contains Cargo build artifacts"));
    assert_eq!(
        rendered,
        "The following Rust build artifact directories will be removed:\n\nexample\n  target/        8B  /tmp/r/example/target\n\nEstimated reclaimable space: 8B\n\nSafety: target/ contains Cargo build artifacts. Removing it is normally safe because Cargo rebuilds it, but the next build may take longer and any manually placed files under target/ will be lost."
    );
}

#[test]
fn renders_empty_target_plan() {
    let plan = target::plan(&[]);
    assert_eq!(
        target::render_plan(&plan),
        "No target/ directories found. No files will be deleted."
    );
}

#[test]
fn refuses_to_remove_anything_but_target_directories() {
    assert_eq!(target::check_removal("/tmp/r/example/target"), Ok(()));
    assert_eq!(target::check_removal("/tmp/r/example/target/"), Ok(()));
    assert_eq!(
        target::check_removal("/tmp/r/example"),
        Err("refusing to delete non-target path: /tmp/r/example".to_string())
    );
    assert!(target::check_removal("/tmp/target/..").is_err());
}

#[test]
fn plans_and_renders_shared_target() {
    let plan = plan_from_target(Some(CargoTargetDir {
        path: "/tmp/shared-target".to_string(),
        bytes: 8,
    }));
    assert_eq!(plan.target_path, Some("/tmp/shared-target".to_string()));
    let rendered = shared::render_plan(&plan);
    assert!(rendered.contains("shared target"));
    assert!(rendered.contains("Cargo's shared build cache"));
    assert!(rendered.contains("/tmp/shared-target"));
    assert!(rendered.starts_with(
        "The shared Cargo target directory will be removed:\n\n  shared target        8B  /tmp/shared-target\n"
    ));
}

#[test]
fn plans_absent_shared_target_directory() {
    let plan = plan_from_target(None);
    assert_eq!(plan.target_path, None);
    assert_eq!(
        shared::render_plan(&plan),
        "No shared Cargo target directory found. No files will be deleted."
    );
}

#[test]
fn refuses_to_remove_the_filesystem_root() {
    assert_eq!(shared::check_removal("/tmp/shared"), Ok(()));
    assert_eq!(
        shared::check_removal("/"),
        Err("refusing to delete filesystem root: /".to_string())
    );
}

#[test]
fn clean_shared_absent_does_not_prompt() {
    let plan = shared::CleanPlan {
        target_path: None,
        total_bytes: 0,
    };
    let step = begin_shared_cleanup(&plan, CleanSharedOptions::default());
    assert_eq!(
        step,
        CleanupStep::Report(
            "No shared Cargo target directory found. No files will be deleted.".to_string()
        )
    );
}

#[test]
fn clean_target_steps() {
    let plan = target::plan(&[project("example", "/tmp/r/example", 8)]);
    let summary = target::render_plan(&plan);

    match begin_target_cleanup(&plan, CleanTargetOptions { dry_run: true, yes: false }) {
        CleanupStep::Report(text) => {
            assert!(text.contains("The following Rust build artifact directories"));
            assert!(text.contains("Dry run: no files were deleted."));
            assert!(text.contains("Run 'disk-maint clean target' to review and confirm deletion,\nor 'disk-maint clean target --yes' to delete without prompting."));
        }
        other => panic!("unexpected step {other:?}"),
    }
    assert_eq!(
        begin_target_cleanup(&plan, CleanTargetOptions { dry_run: false, yes: true }),
        CleanupStep::DeleteThenReport(format!(
            "{summary}\n\nDeleted 1 target/ directories.\nReclaimed approximately 8B."
        ))
    );
    match begin_target_cleanup(&plan, CleanTargetOptions::default()) {
        CleanupStep::Confirm { summary: shown, prompt, deleted } => {
            assert_eq!(shown, summary);
            assert!(prompt.contains("Type 'yes' to continue"));
            assert_eq!(prompt, "Delete these target/ directories? Type 'yes' to continue: ");
            assert_eq!(deleted, "Deleted 1 target/ directories.\nReclaimed approximately 8B.");
        }
        other => panic!("unexpected step {other:?}"),
    }
    let empty = target::plan(&[]);
    assert_eq!(
        begin_target_cleanup(&empty, CleanTargetOptions { dry_run: false, yes: true }),
        CleanupStep::Report("No target/ directories found. No files will be deleted.".to_string())
    );
}

#[test]
fn clean_shared_steps() {
    let plan = plan_from_target(Some(CargoTargetDir {
        path: "/tmp/shared-target".to_string(),
        bytes: 8,
    }));
    match begin_shared_cleanup(&plan, CleanSharedOptions { yes: true }) {
        CleanupStep::DeleteThenReport(text) => {
            assert!(text.contains("Cargo's shared build cache"));
            assert!(text.ends_with("Deleted shared Cargo target directory.\nReclaimed approximately 8B."));
        }
        other => panic!("unexpected step {other:?}"),
    }
    match begin_shared_cleanup(&plan, CleanSharedOptions::default()) {
        CleanupStep::Confirm { summary, prompt, deleted } => {
            assert!(summary.contains("Cargo's shared build cache"));
            assert!(prompt.ends_with("Delete the shared Cargo target directory? Type 'yes' to continue: "));
            assert!(deleted.contains("Reclaimed approximately 8B."));
        }
        other => panic!("unexpected step {other:?}"),
    }
}

#[test]
fn confirmation_requires_yes() {
    assert_eq!(
        confirm("yes\n", "done".to_string()),
        ConfirmOutcome::Delete("done".to_string())
    );
    assert_eq!(
        confirm("  yes \r\n", "done".to_string()),
        ConfirmOutcome::Delete("done".to_string())
    );
    for answer in ["y\n", "YES\n", "", "yes please\n"] {
        assert_eq!(
            confirm(answer, "done".to_string()),
            ConfirmOutcome::Abort("Aborted. No files were deleted.".to_string())
        );
    }
}
