use disk_maint::rust::discover::{
    checked_total, is_excluded_dir, manifest_entry_action, metadata_target_dir, plan_projects,
    project_record, shared_target_of, should_report_manifest, size_entry_action, source_dirs, source_files,
    workspace_member_dirs, workspace_roots, ManifestFile, ProjectPlan, WalkAction,
};
use disk_maint::rust::manifest::{extract_json_string, is_workspace_manifest, package_name};
use disk_maint::rust::{render_projects, RustProject, RustupToolchains};

fn manifest(path: &str, contents: &str) -> ManifestFile {
    ManifestFile {
        path: path.to_string(),
        contents: contents.to_string(),
    }
}

#[test]
fn reads_package_names() {
    assert_eq!(
        package_name("[package]\nname = \"example\"\n"),
        Some("example".to_string())
    );
    assert_eq!(
        package_name("[dependencies]\nname = \"dep\"\n[package]\r\n  name=\"\"\"quoted\"\"\" \r\n"),
        Some("quoted".to_string())
    );
    assert_eq!(package_name("[package]\nname\nname = \"\"\nname = 'x'\n"), Some("'x'".to_string()));
    assert_eq!(package_name("[workspace]\nmembers = []\n"), None);
    assert_eq!(package_name(""), None);
    assert_eq!(package_name("[package]\nnamespace = \"ns\"\n"), Some("ns".to_string()));
}

#[test]
fn recognises_workspace_manifests() {
    assert!(is_workspace_manifest("[workspace]\nmembers = [\"crates/a\", \"crates/b\"]\n"));
    assert!(is_workspace_manifest("[package]\n  [workspace]  \r\n"));
    assert!(!is_workspace_manifest("[package]\nname = \"example\"\n"));
    assert!(!is_workspace_manifest("[workspace.dependencies]\n"));
}

#[test]
fn extracts_json_strings() {
    let json = r#"{"packages":[],"target_directory" : "/tmp/shared\/target","version":1}"#;
    assert_eq!(extract_json_string(json, "target_directory"), Some("/tmp/shared/target".to_string()));
    assert_eq!(
        extract_json_string(r#"{"k":"a\"b\\c\nd\te"}"#, "k"),
        Some("a\"b\\c\nd\te".to_string())
    );
    assert_eq!(extract_json_string(r#"{"k":"\u0041"}"#, "k"), None);
    assert_eq!(extract_json_string(r#"{"k":1}"#, "k"), None);
    assert_eq!(extract_json_string(r#"{"k" "v"}"#, "k"), None);
    assert_eq!(extract_json_string(r#"{"k":"open"#, "k"), None);
    assert_eq!(extract_json_string(r#"{"other":"v"}"#, "k"), None);
    assert_eq!(metadata_target_dir(json), Some("/tmp/shared/target".to_string()));
}

#[test]
fn reports_a_plain_project() {
    let ms = vec![manifest("/tmp/r/example/Cargo.toml", "[package]\nname = \"example\"\n")];
    let plans = plan_projects(&ms).unwrap();
    assert_eq!(
        plans,
        vec![ProjectPlan {
            name: "example".to_string(),
            path: "/tmp/r/example".to_string(),
            is_workspace: false,
            member_dirs: Vec::new(),
        }]
    );
}

#[test]
fn reports_cargo_workspace_as_single_project_plan() {
    let ms = vec![
        manifest("/tmp/r/workspace/Cargo.toml", "[workspace]\nmembers = [\"crates/a\", \"crates/b\"]\n"),
        manifest("/tmp/r/workspace/crates/a/Cargo.toml", "[package]\nname = \"crate-a\"\n"),
        manifest("/tmp/r/workspace/crates/b/Cargo.toml", "[package]\nname = \"crate-b\"\n"),
        manifest("/tmp/r/other/Cargo.toml", "[package]\nname = \"other\"\n"),
    ];
    let roots = workspace_roots(&ms).unwrap();
    assert_eq!(roots, vec!["/tmp/r/workspace".to_string()]);
    assert!(should_report_manifest("/tmp/r/workspace/Cargo.toml", &roots));
    assert!(!should_report_manifest("/tmp/r/workspace/crates/a/Cargo.toml", &roots));
    assert!(should_report_manifest("/tmp/r/other/Cargo.toml", &roots));
    assert_eq!(
        workspace_member_dirs("/tmp/r/workspace", &ms, &roots),
        vec![
            "/tmp/r/workspace/crates/a".to_string(),
            "/tmp/r/workspace/crates/b".to_string()
        ]
    );
    let plans = plan_projects(&ms).unwrap();
    assert_eq!(plans.len(), 2);
    assert_eq!(plans[0].name, "workspace");
    assert!(plans[0].is_workspace);
    assert_eq!(plans[0].member_dirs.len(), 2);
    assert_eq!(plans[1].name, "other");
}

#[test]
fn nested_workspace_members_inside_both_roots_count_for_neither() {
    let ms = vec![
        manifest("/r/outer/Cargo.toml", "[workspace]\n"),
        manifest("/r/outer/inner/Cargo.toml", "[workspace]\n"),
        manifest("/r/outer/inner/x/Cargo.toml", "[package]\nname = \"x\"\n"),
        manifest("/r/outer/y/Cargo.toml", "[package]\nname = \"y\"\n"),
    ];
    let plans = plan_projects(&ms).unwrap();
    assert_eq!(plans.len(), 2);
    assert_eq!(plans[0].path, "/r/outer");
    assert_eq!(plans[0].member_dirs, vec!["/r/outer/y".to_string()]);
    assert_eq!(plans[1].path, "/r/outer/inner");
    // `x` lies inside `inner` and also inside `outer`, another workspace
    // root, so neither workspace counts it.
    assert_eq!(plans[1].member_dirs, Vec::<String>::new());
}

#[test]
fn rejects_a_workspace_manifest_without_parent() {
    let ms = vec![manifest("/", "[workspace]\n")];
    assert_eq!(plan_projects(&ms).unwrap_err(), "manifest has no parent: /");
}

#[test]
fn lists_source_paths_and_sums_sizes() {
    assert_eq!(
        source_files("/p"),
        vec!["/p/Cargo.toml".to_string(), "/p/Cargo.lock".to_string(), "/p/build.rs".to_string()]
    );
    assert_eq!(
        source_dirs("/p/"),
        vec![
            "/p/src".to_string(),
            "/p/tests".to_string(),
            "/p/benches".to_string(),
            "/p/examples".to_string()
        ]
    );
    assert_eq!(checked_total(&[13, 27, 0]), Some(40));
    assert_eq!(checked_total(&[]), Some(0));
    assert_eq!(checked_total(&[u64::MAX, 1]), None);
}

#[test]
fn walks_only_what_counts() {
    assert_eq!(manifest_entry_action("Cargo.toml", true, false), WalkAction::Take);
    assert_eq!(manifest_entry_action("Cargo.toml", false, true), WalkAction::Descend);
    assert_eq!(manifest_entry_action("node_modules", false, true), WalkAction::Skip);
    assert_eq!(manifest_entry_action(".git", false, true), WalkAction::Skip);
    assert_eq!(size_entry_action("build", true, false), WalkAction::Take);
    assert_eq!(size_entry_action("build", false, true), WalkAction::Skip);
    assert_eq!(size_entry_action("data", false, true), WalkAction::Descend);
    assert_eq!(size_entry_action("link", false, false), WalkAction::Skip);
    assert!(is_excluded_dir(".git"));
    assert!(!is_excluded_dir("src"));
}

#[test]
fn recognises_shared_target_directories() {
    assert_eq!(shared_target_of("/p", Some("/p/target".to_string())), None);
    assert_eq!(shared_target_of("/p", Some("/p//target/".to_string())), None);
    assert_eq!(
        shared_target_of("/p", Some("/shared".to_string())),
        Some("/shared".to_string())
    );
    assert_eq!(shared_target_of("/p", None), None);
}

#[test]
fn renders_projects_and_workspaces() {
    let projects = vec![
        RustProject {
            name: "workspace".to_string(),
            path: "/r/workspace".to_string(),
            source_bytes: 400 * 1024,
            target_bytes: 8,
            workspace_members: 2,
        },
        RustProject {
            name: "example".to_string(),
            path: "/r/example".to_string(),
            source_bytes: 40,
            target_bytes: 912 * 1024 * 1024,
            workspace_members: 0,
        },
    ];
    assert_eq!(
        render_projects(&projects),
        "workspace (workspace)\n  members: 2\n  target/        8B\n  source       400K\n\nexample\n  target/      912M\n  source        40B\n\nTotal reclaimable build artifacts:\n912M"
    );
    assert_eq!(render_projects(&[]), "No Rust projects found.");
    assert_eq!(projects[1].reclaimable_bytes(), 912 * 1024 * 1024);
}

#[test]
fn lists_removable_and_additional_toolchains() {
    let t = RustupToolchains {
        active: "nightly".to_string(),
        default: "stable".to_string(),
        installed: vec!["stable".to_string(), "nightly".to_string(), "beta".to_string()],
    };
    assert_eq!(t.removable(), vec!["beta".to_string()]);
    assert_eq!(t.additional(), vec!["nightly".to_string(), "beta".to_string()]);
}

#[test]
fn builds_project_records_from_measured_sizes() {
    let plan = ProjectPlan {
        name: "ws".to_string(),
        path: "/r/ws".to_string(),
        is_workspace: true,
        member_dirs: vec!["/r/ws/crates/a".to_string(), "/r/ws/crates/b".to_string()],
    };
    assert_eq!(
        project_record(plan.clone(), &[100, 20, 3], 4096),
        Some(RustProject {
            name: "ws".to_string(),
            path: "/r/ws".to_string(),
            source_bytes: 123,
            target_bytes: 4096,
            workspace_members: 2,
        })
    );
    assert_eq!(project_record(plan, &[u64::MAX, 1, 0], 0), None);
}
