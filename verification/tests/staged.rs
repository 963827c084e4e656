use checkle::{parse_package_edition, parse_workspace_package_edition};

#[test]
fn parses_package_edition() {
    let text = r#"
[workspace]
members = []

[package]
name = "sample"
edition = "2021"
"#;
    assert_eq!(parse_package_edition(text), Some("2021"));
}

#[test]
fn parses_workspace_package_edition() {
    let text = r#"
[workspace.package]
edition = "2021"
"#;
    assert_eq!(parse_workspace_package_edition(text), Some("2021"));
}

use checkle::git::IndexEntry;
use checkle::staged::{
    entry_action, format_outcome, format_summary_of, should_mirror_worktree, verify_index_unchanged, EntryAction,
    FormatOutcome, StagedBlob, StagedError,
};
use checkle::{parse_table_edition, pick_edition};

#[test]
fn package_edition_ahead_of_workspace() {
    let text = "[workspace.package]\nedition = \"2018\"\n[package]\nedition = \"2021\"\n";
    assert_eq!(parse_package_edition(text), Some("2021"));
    assert_eq!(parse_workspace_package_edition(text), Some("2018"));
    assert_eq!(parse_package_edition("[package]\nedition = '2021'\n"), None);
    assert_eq!(parse_table_edition("[package]\nname = \"x\"\n", "[package]"), None);
    assert_eq!(parse_table_edition("[package]\nedition = \"2099\"\n", "[package]"), None);
}

#[test]
fn pick_edition_takes_nearest_manifest() {
    let manifests = vec![
        "[package]\nname = \"inner\"\n".to_string(),
        "[workspace.package]\nedition = \"2018\"\n".to_string(),
        "[package]\nedition = \"2021\"\n".to_string(),
    ];
    assert_eq!(pick_edition(&manifests), "2018");
    assert_eq!(pick_edition(&[]), "2024");
}

fn entry(mode: &str, sha: &str, stage: u8, path: &str) -> IndexEntry {
    IndexEntry { mode: mode.to_string(), sha: sha.to_string(), stage, path: path.to_string() }
}

fn blob(path: &str, mode: &str, sha: &str) -> StagedBlob {
    StagedBlob { path: path.to_string(), mode: mode.to_string(), sha: sha.to_string() }
}

#[test]
fn entry_actions() {
    assert_eq!(entry_action(&entry("100644", "abc", 0, "a.rs")), EntryAction::Format);
    assert_eq!(entry_action(&entry("100755", "abc", 0, "a.rs")), EntryAction::Format);
    assert_eq!(entry_action(&entry("120000", "abc", 0, "a.rs")), EntryAction::Skip);
    assert_eq!(entry_action(&entry("100644", "abc", 2, "a.rs")), EntryAction::Conflict);
}

#[test]
fn index_unchanged_checks_each_blob() {
    let entries = vec![entry("100644", "old", 0, "a.rs"), entry("100644", "abc", 0, "a.rs"), entry("100644", "def", 0, "b.rs")];
    assert_eq!(verify_index_unchanged(&[blob("a.rs", "100644", "abc"), blob("b.rs", "100644", "def")], &entries), Ok(()));
    assert_eq!(
        verify_index_unchanged(&[blob("a.rs", "100644", "old")], &entries),
        Err(StagedError::Changed("a.rs".to_string()))
    );
    let err = verify_index_unchanged(&[blob("c.rs", "100644", "abc")], &entries).unwrap_err();
    assert_eq!(err, StagedError::Disappeared("c.rs".to_string()));
    assert_eq!(err.message(), "staged Rust file disappeared: c.rs");
    assert_eq!(
        StagedError::MergeConflict("m.rs".to_string()).message(),
        "cannot format staged Rust file with merge conflicts: m.rs"
    );
    assert_eq!(
        StagedError::Changed("a.rs".to_string()).message(),
        "staged Rust file changed while formatting: a.rs"
    );
}

#[test]
fn mirrors_only_untouched_worktree_files() {
    assert!(should_mirror_worktree(true, &Some(b"same".to_vec()), b"same"));
    assert!(!should_mirror_worktree(true, &Some(b"edited".to_vec()), b"same"));
    assert!(!should_mirror_worktree(true, &None, b"same"));
    assert!(!should_mirror_worktree(false, &Some(b"same".to_vec()), b"same"));
}

#[test]
fn format_outcomes() {
    let dirty = vec!["src/dirty.rs".to_string()];
    assert_eq!(format_outcome(b"fn a() {}\n", b"fn a() {}\n", &dirty, "src/a.rs"), FormatOutcome::Unchanged);
    assert_eq!(
        format_outcome(b"fn a(){}", b"fn a() {}\n", &dirty, "src/a.rs"),
        FormatOutcome::Formatted { mirror_worktree: true }
    );
    assert_eq!(
        format_outcome(b"fn a(){}", b"fn a() {}\n", &dirty, "src/dirty.rs"),
        FormatOutcome::Formatted { mirror_worktree: false }
    );
}

#[test]
fn format_summary_follows_entries() {
    let entries = vec![
        entry("100644", "a", 0, "a.rs"),
        entry("120000", "b", 0, "link.rs"),
        entry("100755", "c", 0, "c.rs"),
    ];
    let outcomes = vec![
        Some(FormatOutcome::Formatted { mirror_worktree: true }),
        None,
        Some(FormatOutcome::Unchanged),
    ];
    let summary = format_summary_of(&entries, &outcomes).unwrap();
    assert_eq!(summary.formatted, vec!["a.rs".to_string()]);
    assert_eq!(summary.unchanged, vec!["c.rs".to_string()]);
    assert_eq!(summary.skipped, vec!["link.rs".to_string()]);
    assert_eq!(format_summary_of(&[], &[]).unwrap(), checkle::FormatSummary::default());
    let conflicted = vec![entry("100644", "a", 0, "a.rs"), entry("100644", "b", 2, "m.rs")];
    assert_eq!(
        format_summary_of(&conflicted, &[Some(FormatOutcome::Unchanged)]),
        Err(StagedError::MergeConflict("m.rs".to_string()))
    );
}
