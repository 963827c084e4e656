//! Compact, agent-friendly summaries of check output, and the decisions
//! around running project checks and formatting staged Rust files.
//!
//! [`summary`] reads the output of Cargo (JSON diagnostics), nextest (JSON
//! events or human output), rustfmt, cargo-deny and cargo-machete;
//! [`report`] renders what a failed check reports and writes its log;
//! [`suite`] resolves check names against the built-in checks and the
//! project configuration; [`staged`], [`git`] and [`precommit`] hold the
//! decisions of the staged-file formatter and the pre-commit hook. The
//! text model they are written in is in [`text`], the reading of JSON
//! events in [`json`].

pub mod git;
pub mod json;
pub mod precommit;
pub mod report;
pub mod staged;
pub mod suite;
pub mod summary;
pub mod text;

pub use precommit::{checks_to_run, is_doc_or_media, staged_paths_are_docs_or_media_only, PreCommitOptions};
pub use report::{
    failure_report, log_contents, log_file_name, recent_text, render_report, RunOptions, RunResult,
    SummaryLimits,
};
pub use staged::{
    parse_package_edition, parse_table_edition, parse_workspace_package_edition, pick_edition,
    FormatStagedOptions, FormatSummary,
};
pub use suite::{
    elapsed_seconds, latest_log_line, list_checks, resolution_terminates, resolve_checks,
    suite_exit_code, suite_report, CheckError, ConfigCheck, ConfigFile, ConfigGroup,
    ResolvedChecks, RunSpec, SkippedCheck, SuiteOptions, SuiteStatus, SuiteSummary,
};
pub use summary::{summarize, summarize_for_command, summarize_text, Diagnostic, Mode, Summary, TestFailure};
