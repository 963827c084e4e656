use checkle::git::{
    dirty_paths_args, index_entries, index_entries_args, nul_strings, parse_index_entry, staged_paths_args,
    trimmed_output, update_index_input, GitError, IndexEntry,
};

fn strings(list: &[&str]) -> Vec<String> {
    list.iter().map(|s| s.to_string()).collect()
}

#[test]
fn nul_strings_skip_empty_records() {
    assert_eq!(nul_strings(b"a.rs\0\0b c.rs\0").unwrap(), strings(&["a.rs", "b c.rs"]));
    assert_eq!(nul_strings(b"").unwrap(), Vec::<String>::new());
}

#[test]
fn nul_strings_refuse_invalid_utf8() {
    let err = nul_strings(b"ok\0\xff\0").unwrap_err();
    assert_eq!(err, GitError::DecodePath);
    assert_eq!(err.message(), "decode git path");
}

#[test]
fn parses_index_entry() {
    let e = parse_index_entry(b"100644 0123abcd 0\tsrc/a b.rs").unwrap();
    assert_eq!(
        e,
        IndexEntry {
            mode: "100644".to_string(),
            sha: "0123abcd".to_string(),
            stage: 0,
            path: "src/a b.rs".to_string()
        }
    );
}

#[test]
fn index_entry_errors() {
    assert_eq!(parse_index_entry(b"\xff\tx"), Err(GitError::DecodeIndexEntry));
    let err = parse_index_entry(b"100644 abc 0 x").unwrap_err();
    assert_eq!(err, GitError::IndexEntryFormat("100644 abc 0 x".to_string()));
    assert_eq!(err.message(), "parse git index entry: 100644 abc 0 x");
    assert_eq!(parse_index_entry(b"\tx"), Err(GitError::MissingMode));
    assert_eq!(parse_index_entry(b"100644\tx"), Err(GitError::MissingSha));
    assert_eq!(parse_index_entry(b"100644 abc\tx"), Err(GitError::MissingStage));
    assert_eq!(parse_index_entry(b"100644 abc 256\tx"), Err(GitError::StageNumber));
    assert_eq!(GitError::StageNumber.message(), "parse git index stage number");
}

#[test]
fn parses_index_entries() {
    let entries = index_entries(b"100644 abc 1\ta.rs\0100644 def 2\ta.rs\0").unwrap();
    assert_eq!(entries.len(), 2);
    assert_eq!(entries[1].stage, 2);
    assert_eq!(entries[1].sha, "def");
    assert_eq!(index_entries(b"100644 abc 1\ta.rs\0broken\0"), Err(GitError::IndexEntryFormat("broken".to_string())));
}

#[test]
fn git_arguments() {
    assert_eq!(
        staged_paths_args("ACMR", &strings(&["*.rs"])),
        strings(&["diff", "--cached", "--name-only", "-z", "--diff-filter=ACMR", "--", "*.rs"])
    );
    assert_eq!(index_entries_args(&strings(&["a.rs"])), strings(&["ls-files", "-s", "-z", "--", "a.rs"]));
    assert_eq!(dirty_paths_args(&strings(&["a.rs"])), strings(&["diff", "--name-only", "-z", "--", "a.rs"]));
}

#[test]
fn update_index_input_lines() {
    let input = update_index_input(&[
        ("100644".to_string(), "abc".to_string(), "a.rs".to_string()),
        ("100755".to_string(), "def".to_string(), "b c.rs".to_string()),
    ]);
    assert_eq!(input, b"100644 abc\ta.rs\0100755 def\tb c.rs\0".to_vec());
}

#[test]
fn trimmed_output_of_git() {
    assert_eq!(trimmed_output(b"/repo/root\n").unwrap(), "/repo/root");
    assert_eq!(trimmed_output(b"\xfe"), Err(GitError::DecodeOutput));
}
