use checkle::{checks_to_run, is_doc_or_media, staged_paths_are_docs_or_media_only};

#[test]
fn detects_doc_and_media_paths() {
    assert!(is_doc_or_media("README.md"));
    assert!(is_doc_or_media("assets/logo.PNG"));
    assert!(!is_doc_or_media("src/lib.rs"));
}

#[test]
fn doc_or_media_ignores_case() {
    assert!(is_doc_or_media("docs/GUIDE.MARKDOWN"));
    assert!(is_doc_or_media("img/Photo.JpEg"));
    assert!(!is_doc_or_media("notes.md.rs"));
}

#[test]
fn docs_only_commits() {
    let docs = vec!["README.md".to_string(), "a.svg".to_string()];
    assert!(staged_paths_are_docs_or_media_only(&docs));
    let mixed = vec!["README.md".to_string(), "src/main.rs".to_string()];
    assert!(!staged_paths_are_docs_or_media_only(&mixed));
    assert!(!staged_paths_are_docs_or_media_only(&[]));
}

#[test]
fn pre_commit_runs_all_by_default() {
    assert_eq!(checks_to_run(vec![]), vec!["all".to_string()]);
    assert_eq!(checks_to_run(vec!["clippy".to_string()]), vec!["clippy".to_string()]);
}
