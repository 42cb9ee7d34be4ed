use disk_maint::git::{
    dirty_repositories, git_execution_error, is_excluded_dir, is_work_tree_output, nul_records,
    parse_name_status_records, render_statuses, repository_entry_action, repository_name,
    repository_status, status_entries_from, RepositoryStatus, RepositoryWalk,
};

#[test]
fn renders_clean_message() {
    assert_eq!(render_statuses(&[]), "All repositories are clean.");
}

#[test]
fn renders_dirty_repositories_with_blank_lines() {
    let output = render_statuses(&[
        RepositoryStatus {
            name: "alpha".to_string(),
            path: "alpha".into(),
            entries: vec![" M README.md".to_string()],
        },
        RepositoryStatus {
            name: "beta".to_string(),
            path: "beta".into(),
            entries: vec!["?? Cargo.lock".to_string()],
        },
    ]);

    assert_eq!(
        output,
        "== alpha ==\n M README.md\n\n== beta ==\n?? Cargo.lock"
    );
}

#[test]
fn splits_nul_records_and_drops_empty_ones() {
    assert_eq!(nul_records(b"a\0\0b c\0"), vec!["a".to_string(), "b c".to_string()]);
    assert_eq!(nul_records(b""), Vec::<String>::new());
    assert_eq!(nul_records(b"\xffx"), vec!["\u{fffd}x".to_string()]);
}

#[test]
fn parses_name_status_records_with_renames() {
    let output = b"M\0src/lib.rs\0R100\0old.rs\0new.rs\0A\0tab\tname\0D\0";
    assert_eq!(
        parse_name_status_records(output),
        vec![
            ('M', "src/lib.rs".to_string()),
            ('R', "new.rs".to_string()),
            ('A', "tab\tname".to_string()),
        ]
    );
}

#[test]
fn merges_staged_unstaged_and_untracked_entries() {
    let cached = b"M\0README.md\0A\0new.rs\0";
    let worktree = b"M\0README.md\0D\0gone.rs\0";
    let untracked = b"Cargo.lock\0notes/\0";
    assert_eq!(
        status_entries_from(cached, worktree, untracked),
        vec![
            " D gone.rs".to_string(),
            "?? Cargo.lock".to_string(),
            "?? notes/".to_string(),
            "A  new.rs".to_string(),
            "MM README.md".to_string(),
        ]
    );
}

#[test]
fn reports_modified_and_untracked_paths_from_git_output() {
    assert_eq!(
        status_entries_from(b"", b"M\0README.md\0", b"Cargo.lock\0"),
        vec![" M README.md".to_string(), "?? Cargo.lock".to_string()]
    );
}

#[test]
fn names_repositories_and_omits_clean_ones() {
    assert_eq!(repository_name("/tmp/repos/alpha"), "alpha");
    assert_eq!(repository_name("/"), "/");
    assert_eq!(repository_status("/tmp/a".to_string(), Vec::new()), None);
    let status = repository_status("/tmp/a/".to_string(), vec!["?? x".to_string()]).unwrap();
    assert_eq!(status.name, "a");
    assert_eq!(status.entries, vec!["?? x".to_string()]);
}

#[test]
fn reads_git_answers_and_errors() {
    assert!(is_work_tree_output(b"true\n"));
    assert!(!is_work_tree_output(b"false\n"));
    assert_eq!(
        git_execution_error(true, "ignored"),
        "git executable is unavailable: failed to run `git`"
    );
    assert_eq!(git_execution_error(false, "denied"), "failed to run git: denied");
    assert_eq!(
        disk_maint::git::inspection_failure_message("/r", b"fatal: bad\n"),
        "repository cannot be inspected at /r: git rev-parse failed: fatal: bad"
    );
    assert_eq!(disk_maint::git::git_failure_message("/r", b" oops "), "git failed in /r: oops");
}

#[test]
fn walks_directories_for_repositories() {
    assert_eq!(repository_entry_action(".git", true), RepositoryWalk::Inspect);
    assert_eq!(repository_entry_action("node_modules", true), RepositoryWalk::Skip);
    assert_eq!(repository_entry_action("src", true), RepositoryWalk::Descend);
    assert_eq!(repository_entry_action("file.txt", false), RepositoryWalk::Skip);
    assert!(is_excluded_dir(".venv"));
    assert!(!is_excluded_dir(".git"));
}

#[test]
fn reports_only_repositories_with_status_lines() {
    let dirty = dirty_repositories(vec![
        ("/r/clean".to_string(), vec![]),
        ("/r/one".to_string(), vec![" M a.rs".to_string()]),
        ("/r/two".to_string(), vec!["?? b".to_string(), "A  c".to_string()]),
    ]);
    assert_eq!(
        dirty,
        vec![
            RepositoryStatus {
                name: "one".to_string(),
                path: "/r/one".to_string(),
                entries: vec![" M a.rs".to_string()],
            },
            RepositoryStatus {
                name: "two".to_string(),
                path: "/r/two".to_string(),
                entries: vec!["?? b".to_string(), "A  c".to_string()],
            },
        ]
    );
    assert_eq!(
        render_statuses(&dirty),
        "== one ==\n M a.rs\n\n== two ==\n?? b\nA  c"
    );
    let clean = dirty_repositories(vec![("/r/a".to_string(), vec![]), ("/r/b".to_string(), vec![])]);
    assert_eq!(render_statuses(&clean), "All repositories are clean.");
}
