use disk_maint::cli::{
    help_text, parse_args, CleanCommand, CleanSharedOptions, CleanTargetOptions, Command,
    GitCommand, ParseError,
};
use disk_maint::{default_repo_root, expand_home};

fn args(words: &[&str]) -> Vec<String> {
    words.iter().map(|w| w.to_string()).collect()
}

#[test]
fn parses_clean_target() {
    let cli = parse_args(&args(&["disk-maint", "--root", "/tmp/repos", "clean", "target"]), None).unwrap();
    assert_eq!(
        cli.command,
        Command::Clean(CleanCommand::Target(Default::default()))
    );
    assert_eq!(cli.root, "/tmp/repos");
}

#[test]
fn parses_clean_target_dry_run() {
    let cli = parse_args(&args(&["disk-maint", "clean", "target", "--dry-run"]), None).unwrap();
    assert_eq!(
        cli.command,
        Command::Clean(CleanCommand::Target(CleanTargetOptions {
            dry_run: true,
            yes: false,
        }))
    );
}

#[test]
fn parses_clean_target_yes() {
    let cli = parse_args(&args(&["disk-maint", "--yes", "clean", "target"]), None).unwrap();
    assert_eq!(
        cli.command,
        Command::Clean(CleanCommand::Target(CleanTargetOptions {
            dry_run: false,
            yes: true,
        }))
    );
}

#[test]
fn parses_git_status() {
    let cli = parse_args(&args(&["disk-maint", "--root=/tmp/repos", "git", "status"]), None).unwrap();
    assert_eq!(cli.command, Command::Git(GitCommand::Status));
    assert_eq!(cli.root, "/tmp/repos");
}

#[test]
fn rejects_unknown_commands() {
    let error = parse_args(&args(&["disk-maint", "clean", "registry"]), None).unwrap_err();
    assert!(error.message().contains("unknown command"));
}

#[test]
fn rejects_clean_target_dry_run_with_yes() {
    let error =
        parse_args(&args(&["disk-maint", "clean", "target", "--dry-run", "--yes"]), None).unwrap_err();
    assert!(
        error
            .message()
            .contains("--dry-run cannot be used with --yes")
    );
}

#[test]
fn rejects_clean_target_options_on_other_commands() {
    let error = parse_args(&args(&["disk-maint", "scan", "--dry-run"]), None).unwrap_err();
    assert!(
        error
            .message()
            .contains("--dry-run and --yes are only valid with `clean target`")
    );
}

#[test]
fn parses_simple_commands_with_default_root() {
    let cli = parse_args(&args(&["disk-maint", "scan"]), Some("/home/me")).unwrap();
    assert_eq!(cli.command, Command::Scan);
    assert_eq!(cli.root, "/home/me/labs/repos");
    let cli = parse_args(&args(&["disk-maint", "rust"]), None).unwrap();
    assert_eq!(cli.command, Command::Rust);
    assert_eq!(cli.root, "./labs/repos");
}

#[test]
fn parses_clean_shared() {
    let cli = parse_args(&args(&["disk-maint", "clean", "shared", "--yes"]), None).unwrap();
    assert_eq!(
        cli.command,
        Command::Clean(CleanCommand::Shared(CleanSharedOptions { yes: true }))
    );
    let error = parse_args(&args(&["disk-maint", "clean", "shared", "--dry-run"]), None).unwrap_err();
    assert_eq!(
        error,
        ParseError::Error("--dry-run is only valid with `clean target`".to_string())
    );
}

#[test]
fn expands_home_in_root() {
    let cli = parse_args(&args(&["disk-maint", "-r", "~/src", "scan"]), Some("/home/me")).unwrap();
    assert_eq!(cli.root, "/home/me/src");
    let cli = parse_args(&args(&["disk-maint", "--root=~", "scan"]), Some("/home/me")).unwrap();
    assert_eq!(cli.root, "/home/me");
    let cli = parse_args(&args(&["disk-maint", "--root=~/x", "scan"]), None).unwrap();
    assert_eq!(cli.root, "~/x");
    let cli = parse_args(&args(&["disk-maint", "--root=--root=/a", "scan"]), None).unwrap();
    assert_eq!(cli.root, "/a");
}

#[test]
fn help_and_missing_values() {
    assert_eq!(
        parse_args(&args(&["disk-maint", "--help"]), None).unwrap_err(),
        ParseError::Help(help_text())
    );
    assert_eq!(
        parse_args(&args(&["disk-maint"]), None).unwrap_err(),
        ParseError::Help(help_text())
    );
    assert_eq!(
        parse_args(&args(&["disk-maint", "scan", "--root"]), None).unwrap_err(),
        ParseError::Error("missing value for --root".to_string())
    );
    let error = parse_args(&args(&["disk-maint", "-x", "scan"]), None).unwrap_err();
    assert_eq!(error.message(), format!("unknown option: -x\n\n{}", help_text()));
    let error = parse_args(&args(&["disk-maint", "git", "log", "now"]), None).unwrap_err();
    assert_eq!(error.message(), format!("unknown command: git log now\n\n{}", help_text()));
    assert!(help_text().starts_with("Usage:\n"));
    assert!(help_text().ends_with("Show this help"));
}

#[test]
fn expands_home_paths() {
    assert_eq!(expand_home("~", Some("/home/me")), "/home/me");
    assert_eq!(expand_home("~", None), "~");
    assert_eq!(expand_home("~/labs", Some("/home/me/")), "/home/me/labs");
    assert_eq!(expand_home("~other", Some("/home/me")), "~other");
    assert_eq!(expand_home("/abs", Some("/home/me")), "/abs");
    assert_eq!(default_repo_root(Some("/root")), "/root/labs/repos");
    assert_eq!(default_repo_root(None), "./labs/repos");
}

#[test]
fn help_text_lists_commands_and_options() {
    assert_eq!(
        help_text(),
        "Usage:\n  disk-maint [--root PATH] scan\n  disk-maint [--root PATH] rust\n  disk-maint [--root PATH] git status\n  disk-maint [--root PATH] clean target [--dry-run | --yes]\n\nOptions:\n  -r, --root PATH   Repository root to scan (default: ~/labs/repos)\n      --dry-run     Show the clean target plan without prompting or deleting\n      --yes         Delete planned target/ directories without prompting\n  -h, --help        Show this help"
    );
}
