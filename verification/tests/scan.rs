use disk_maint::rust::{CargoBuildArtifacts, CargoTargetDir, RustProject, RustupToolchains};
use disk_maint::scan::{
    format_local_targets_value, push_cargo_build_artifacts, push_cargo_registry_data,
    push_described_metric, push_described_metric_if_nonzero, push_metric, push_rustup_toolchains,
    push_wrapped_description, render_report, CargoRegistryData,
};

#[test]
fn formats_scan_metrics_as_separated_blocks() {
    let mut output = String::new();
    push_cargo_build_artifacts(&mut output, &build_artifacts(1_234_567_890, Some(4096)));
    push_metric(&mut output, "Rust projects scanned", "12");

    assert_eq!(
        output,
        "Cargo build artifacts\n\nShared target               4.0K\n    shared build artifacts\n    safe to remove with\n    `disk-maint clean shared`\n\nLocal targets          1.1G (1 repository)\n    repository/workspace build artifacts\n    safe to remove with\n    `cargo clean`\n    `disk-maint clean target`\n\nRust projects scanned         12\n"
    );
}

#[test]
fn formats_local_only_cargo_build_artifacts() {
    let mut output = String::new();
    push_cargo_build_artifacts(&mut output, &build_artifacts(77_000_000, None));
    assert_eq!(
        output,
        "Cargo build artifacts\n\nLocal targets          73M (1 repository)\n    repository/workspace build artifacts\n    safe to remove with\n    `cargo clean`\n    `disk-maint clean target`\n\n"
    );
}

#[test]
fn formats_shared_only_cargo_build_artifacts() {
    let mut output = String::new();
    push_cargo_build_artifacts(&mut output, &build_artifacts(0, Some(230_000_000)));
    assert_eq!(
        output,
        "Cargo build artifacts\n\nShared target               219M\n    shared build artifacts\n    safe to remove with\n    `disk-maint clean shared`\n\n"
    );
}

#[test]
fn omits_zero_cargo_build_artifacts() {
    let mut output = String::new();
    push_cargo_build_artifacts(&mut output, &build_artifacts(0, None));
    assert_eq!(output, "Cargo build artifacts\n\n");
}

#[test]
fn omits_zero_size_cache_metrics() {
    let mut output = String::new();
    push_described_metric_if_nonzero(
        &mut output,
        "Cargo git cache",
        0,
        "shared git dependency cache; removing may require re-fetching",
        &[],
    );

    assert_eq!(output, "");
}

#[test]
fn formats_nonzero_cache_metrics() {
    let mut output = String::new();
    push_described_metric_if_nonzero(
        &mut output,
        "Cargo git cache",
        123_456,
        "shared git dependency cache; removing may require re-fetching",
        &[],
    );

    assert_eq!(
        output,
        "Cargo git cache             121K\n    shared git dependency cache; removing may require re-fetching\n\n"
    );
}

#[test]
fn formats_cargo_registry_data_as_separate_rows() {
    let mut output = String::new();
    push_cargo_registry_data(
        &mut output,
        &CargoRegistryData {
            cache_bytes: 255_852_544,
            src_bytes: 1_610_612_736,
            index_bytes: 83_886_080,
        },
    );

    assert_eq!(
        output,
        "Cargo crate archives        244M\n    downloaded .crate archives used as Cargo's package cache\n\nCargo crate sources         1.5G\n    unpacked crate source trees from downloaded registry packages\n\nCargo registry index         80M\n    registry index and package metadata used for dependency resolution\n\n"
    );
}

#[test]
fn omits_zero_cargo_registry_data_rows() {
    let mut output = String::new();
    push_cargo_registry_data(
        &mut output,
        &CargoRegistryData {
            cache_bytes: 123_456,
            src_bytes: 0,
            index_bytes: 0,
        },
    );

    assert_eq!(
        output,
        "Cargo crate archives        121K\n    downloaded .crate archives used as Cargo's package cache\n\n"
    );
}

#[test]
fn wraps_descriptions_on_word_boundaries() {
    let mut output = String::new();
    push_wrapped_description(
        &mut output,
        "this description is intentionally long enough to wrap without creating an awkward hanging paragraph",
    );

    assert_eq!(
        output,
        "    this description is intentionally long enough to wrap without creating\n    an awkward hanging paragraph\n"
    );
}

#[test]
fn omits_one_installed_rustup_toolchain() {
    let mut output = String::new();
    push_rustup_toolchains(
        &mut output,
        653_262_848,
        Some(&RustupToolchains {
            active: "stable".to_string(),
            default: "stable".to_string(),
            installed: vec!["stable".to_string()],
        }),
    );

    assert_eq!(output, "");
}

#[test]
fn formats_actionable_rustup_toolchains() {
    let mut output = String::new();
    push_rustup_toolchains(
        &mut output,
        1_503_238_554,
        Some(&RustupToolchains {
            active: "stable".to_string(),
            default: "stable".to_string(),
            installed: vec![
                "stable".to_string(),
                "beta".to_string(),
                "nightly".to_string(),
            ],
        }),
    );

    assert_eq!(
        output,
        "Rustup toolchains           1.4G\n    active/default: stable\n    additional: beta, nightly\n    removable:\n      rustup toolchain uninstall beta\n      rustup toolchain uninstall nightly\n\n"
    );
}

#[test]
fn omits_rustup_toolchains_when_only_active_and_default_are_installed() {
    let mut output = String::new();
    push_rustup_toolchains(
        &mut output,
        1_503_238_554,
        Some(&RustupToolchains {
            active: "nightly".to_string(),
            default: "stable".to_string(),
            installed: vec!["stable".to_string(), "nightly".to_string()],
        }),
    );

    assert_eq!(output, "");
}

#[test]
fn formats_rustup_unavailable_with_existing_guidance() {
    let mut output = String::new();
    push_rustup_toolchains(&mut output, 0, None);

    assert_eq!(
        output,
        "Rustup toolchains             0B\n    remove old toolchains with\n    `rustup toolchain uninstall <toolchain>`\n\n"
    );
}

#[test]
fn formats_active_override_without_uninstalling_active_toolchain() {
    let mut output = String::new();
    push_rustup_toolchains(
        &mut output,
        1_503_238_554,
        Some(&RustupToolchains {
            active: "nightly".to_string(),
            default: "stable".to_string(),
            installed: vec![
                "stable".to_string(),
                "nightly".to_string(),
                "beta".to_string(),
            ],
        }),
    );

    assert_eq!(
        output,
        "Rustup toolchains           1.4G\n    active: nightly\n    default: stable\n    additional: nightly, beta\n    removable:\n      rustup toolchain uninstall beta\n\n"
    );
}

#[test]
fn formats_described_metrics_with_commands() {
    let mut output = String::new();
    push_described_metric(&mut output, "Label", "1B", "a b", &["run this", "or that"]);
    assert_eq!(
        output,
        "Label                         1B\n    a b\n    `run this`\n    `or that`\n\n"
    );
}

#[test]
fn counts_local_target_repositories() {
    assert_eq!(format_local_targets_value(2048, 1), "2.0K (1 repository)");
    assert_eq!(format_local_targets_value(0, 3), "0B (3 repositories)");
}

#[test]
fn wraps_by_bytes_and_keeps_long_words() {
    let mut output = String::new();
    let long = "x".repeat(80);
    push_wrapped_description(&mut output, &format!("short {long} tail"));
    assert_eq!(output, format!("    short\n    {long}\n    tail\n"));

    let mut output = String::new();
    push_wrapped_description(&mut output, "   \t ");
    assert_eq!(output, "");

    // 35 two-byte characters make 70 bytes; one more word of two bytes would
    // exceed 72 bytes even though it fits in 72 characters.
    let wide = "é".repeat(35);
    let mut output = String::new();
    push_wrapped_description(&mut output, &format!("{wide} ab"));
    assert_eq!(output, format!("    {wide}\n    ab\n"));
}

#[test]
fn renders_the_whole_report() {
    let report = render_report(
        &build_artifacts(0, None),
        &CargoRegistryData {
            cache_bytes: 0,
            src_bytes: 0,
            index_bytes: 0,
        },
        0,
        0,
        None,
    );
    assert_eq!(
        report,
        "Rust maintenance report\n\nCargo build artifacts\n\nRustup toolchains             0B\n    remove old toolchains with\n    `rustup toolchain uninstall <toolchain>`\n\nRust projects scanned          0\n\nNo changes made."
    );
}

fn build_artifacts(project_bytes: u64, shared_bytes: Option<u64>) -> CargoBuildArtifacts {
    let projects = if project_bytes > 0 {
        vec![RustProject {
            name: "example".to_string(),
            path: "/tmp/example".to_string(),
            source_bytes: 0,
            target_bytes: project_bytes,
            workspace_members: 0,
        }]
    } else {
        Vec::new()
    };
    let shared_target = shared_bytes.map(|bytes| CargoTargetDir {
        path: "/tmp/shared-target".to_string(),
        bytes,
    });

    CargoBuildArtifacts {
        projects,
        shared_target,
    }
}
