use checkle::suite::{
    collect_statuses, label_width, next_frame, optional_tools, progress_glyph, progress_line,
    result_failed, skip_lines, strip_ansi, suite_start, SuiteStart,
};
use checkle::{
    elapsed_seconds, latest_log_line, list_checks, resolution_terminates, resolve_checks,
    suite_exit_code, suite_report, CheckError, ConfigCheck, ConfigFile, ConfigGroup, Mode, RunResult,
    SummaryLimits, SuiteStatus, SuiteSummary,
};

fn names(list: &[&str]) -> Vec<String> {
    list.iter().map(|s| s.to_string()).collect()
}

fn labels(specs: &[checkle::RunSpec]) -> Vec<String> {
    specs.iter().map(|s| s.label.clone()).collect()
}

#[test]
fn lists_builtin_checks() {
    let list = list_checks();
    assert!(list.contains("format-check"));
    assert!(list.contains("clippy"));
    assert!(list.contains("test"));
    assert!(list.contains("static-analysis"));
}

#[test]
fn rejects_unknown_checks() {
    let err = resolve_checks(&["wat".to_string()], &None, &[]).unwrap_err();
    assert!(err.message().contains("unknown check: wat"));
}

#[test]
fn rejects_duplicate_resolved_labels() {
    let err = resolve_checks(&["clippy".to_string(), "clippy".to_string()], &None, &[]).unwrap_err();
    assert!(err.message().contains("duplicate check label: clippy"));
}

#[test]
fn list_checks_exact() {
    assert_eq!(
        list_checks(),
        "available checks:\n  format-check\n  clippy\n  test\n  cargo-deny (optional tool)\n  cargo-machete (optional tool)\n  static-analysis (group)\n  all (group)\n"
    );
}

#[test]
fn builtin_check_commands() {
    let r = resolve_checks(&names(&["format-check", "clippy", "test"]), &None, &[]).unwrap();
    assert_eq!(r.specs[0].command, names(&["cargo", "fmt", "--all", "--", "--check"]));
    assert_eq!(r.specs[0].mode, Mode::Rustfmt);
    assert_eq!(
        r.specs[1].command,
        names(&["cargo", "clippy", "--message-format=json", "--all-targets", "--locked", "--", "-D", "warnings"])
    );
    assert_eq!(r.specs[2].command, names(&["cargo", "test", "--locked", "--message-format=json"]));
    assert_eq!(r.specs[2].mode, Mode::Cargo);
    assert!(r.skipped.is_empty());
}

#[test]
fn static_analysis_skips_missing_tools() {
    let r = resolve_checks(&names(&["static-analysis"]), &None, &[]).unwrap();
    assert!(r.specs.is_empty());
    assert_eq!(r.skipped.len(), 2);
    assert_eq!(r.skipped[0].label, "cargo-deny");
    assert_eq!(r.skipped[0].reason, "cargo-deny not installed");
    assert_eq!(r.skipped[1].label, "cargo-machete");
    assert_eq!(r.skipped[1].reason, "cargo-machete not installed");
}

#[test]
fn static_analysis_runs_installed_tools() {
    let r = resolve_checks(&names(&["static-analysis"]), &None, &names(&["cargo-machete"])).unwrap();
    assert_eq!(labels(&r.specs), names(&["cargo-machete"]));
    assert_eq!(r.specs[0].mode, Mode::CargoMachete);
    assert_eq!(r.skipped.len(), 1);
    assert_eq!(r.skipped[0].label, "cargo-deny");
}

#[test]
fn all_group_runs_builtin_checks() {
    let r = resolve_checks(&names(&["all"]), &None, &names(&["cargo-deny"])).unwrap();
    assert_eq!(labels(&r.specs), names(&["format-check", "clippy", "test", "cargo-deny"]));
    assert_eq!(r.skipped.len(), 1);
    assert_eq!(r.skipped[0].label, "cargo-machete");
}

#[test]
fn explicit_check_needs_its_tool() {
    let err = resolve_checks(&names(&["cargo-deny"]), &None, &[]).unwrap_err();
    assert_eq!(
        err,
        CheckError::MissingTool { name: "cargo-deny".to_string(), tool: "cargo-deny".to_string() }
    );
    assert_eq!(err.message(), "required tool for cargo-deny is not installed: cargo-deny");
    let ok = resolve_checks(&names(&["cargo-deny"]), &None, &names(&["cargo-deny"])).unwrap();
    assert_eq!(ok.specs[0].command, names(&["cargo", "deny", "--format", "json", "check"]));
}

fn sample_config() -> ConfigFile {
    ConfigFile {
        check: vec![
            ConfigCheck {
                name: "doc-test".to_string(),
                label: None,
                mode: Mode::Cargo,
                command: names(&["cargo", "test", "--doc"]),
            },
            ConfigCheck {
                name: "clippy".to_string(),
                label: Some("strict-clippy".to_string()),
                mode: Mode::Cargo,
                command: names(&["cargo", "clippy"]),
            },
        ],
        group: vec![ConfigGroup {
            name: "all".to_string(),
            checks: names(&["format-check", "doc-test", "static-analysis"]),
        }],
    }
}

#[test]
fn configured_check_takes_precedence() {
    let r = resolve_checks(&names(&["clippy"]), &Some(sample_config()), &[]).unwrap();
    assert_eq!(labels(&r.specs), names(&["strict-clippy"]));
    assert_eq!(r.specs[0].command, names(&["cargo", "clippy"]));
}

#[test]
fn configured_group_takes_precedence() {
    let r = resolve_checks(&names(&["all"]), &Some(sample_config()), &[]).unwrap();
    assert_eq!(labels(&r.specs), names(&["format-check", "doc-test"]));
    assert_eq!(r.skipped.len(), 2);
}

#[test]
fn group_containing_itself_does_not_terminate() {
    let config = Some(ConfigFile {
        check: vec![],
        group: vec![ConfigGroup { name: "loop".to_string(), checks: names(&["loop"]) }],
    });
    assert!(!resolution_terminates(&names(&["loop"]), &config, &[]));
    assert!(resolution_terminates(&names(&["clippy"]), &config, &[]));
}

#[test]
fn elapsed_seconds_formats() {
    assert_eq!(elapsed_seconds(250), "250ms");
    assert_eq!(elapsed_seconds(1999), "1s");
    assert_eq!(elapsed_seconds(42_500), "42s");
}

#[test]
fn strip_ansi_removes_escape_sequences() {
    let line: Vec<char> = "\u{1b}[1;31merror\u{1b}[0m: x".chars().collect();
    let out: String = strip_ansi(&line).into_iter().collect();
    assert_eq!(out, "error: x");
    let plain: Vec<char> = "plain [text]".chars().collect();
    let kept: String = strip_ansi(&plain).into_iter().collect();
    assert_eq!(kept, "plain [text]");
}

#[test]
fn latest_log_line_is_last_nonblank() {
    assert_eq!(latest_log_line("first\n\u{1b}[32mCompiling x\u{1b}[0m\n   \n"), "Compiling x");
    assert_eq!(latest_log_line(""), "");
}

fn status(label: &str, result: Result<RunResult, String>) -> SuiteStatus {
    SuiteStatus {
        label: label.to_string(),
        mode: Mode::Auto,
        command: names(&["true"]),
        elapsed_ms: 1500,
        result,
    }
}

#[test]
fn suite_report_and_exit_code() {
    let ok = status("a", Ok(RunResult { exit_code: 0, log_path: "a.log".to_string(), output: vec![] }));
    let failed = status(
        "b",
        Ok(RunResult { exit_code: 3, log_path: "b.log".to_string(), output: b"boom\n".to_vec() }),
    );
    let errored = status("c", Err("spawn failed".to_string()));
    let all_ok = SuiteSummary { statuses: vec![ok], finished: vec![0] };
    assert_eq!(suite_exit_code(&all_ok), 0);
    assert_eq!(suite_report(&all_ok, &SummaryLimits::default()), "ok a (1s)\n");
    let ok2 = status("a", Ok(RunResult { exit_code: 0, log_path: "a.log".to_string(), output: vec![] }));
    let summary = SuiteSummary { statuses: vec![ok2, failed, errored], finished: vec![0, 1, 2] };
    assert_eq!(suite_exit_code(&summary), 3);
    assert_eq!(
        suite_report(&summary, &SummaryLimits::default()),
        "ok a (1s)\nfail b (1s)\nerror c (1s)\n\nfull log: b.log\n\nno compact diagnostics found; showing recent log output:\n\nboom\n\nc\n  spawn failed\nfail 2/3 checks failed\n"
    );
}

#[test]
fn progress_display_lines() {
    let specs = vec![
        checkle::RunSpec { label: "clippy".to_string(), mode: Mode::Cargo, command: names(&["cargo"]) },
        checkle::RunSpec { label: "format-check".to_string(), mode: Mode::Rustfmt, command: names(&["cargo"]) },
    ];
    assert_eq!(label_width(&specs), 12);
    assert_eq!(label_width(&[]), 0);
    assert_eq!(progress_glyph(&None, 0), "\u{280b}");
    assert_eq!(progress_glyph(&None, 13), "\u{2838}");
    let passed = Some((5u64, Ok(RunResult { exit_code: 0, log_path: String::new(), output: vec![] })));
    let failed = Some((5u64, Err("x".to_string())));
    assert_eq!(progress_glyph(&passed, 4), "\u{2713}");
    assert_eq!(progress_glyph(&failed, 4), "\u{2716}");
    assert_eq!(next_frame(3), 4);
    assert_eq!(next_frame(9), 0);
    assert_eq!(
        progress_line("\u{2713}", "clippy", 12, "3s", ""),
        "\u{1b}[2K\u{2713} clippy        3s "
    );
    assert_eq!(progress_line("x", "longer-label", 4, "1s", "Compiling"), "\u{1b}[2Kx longer-label  1s Compiling");
}

#[test]
fn skip_lines_tell_of_skipped_checks() {
    let r = resolve_checks(&names(&["static-analysis"]), &None, &[]).unwrap();
    assert_eq!(
        skip_lines(&r.skipped),
        "skip cargo-deny: cargo-deny not installed\nskip cargo-machete: cargo-machete not installed\n"
    );
    assert_eq!(skip_lines(&[]), "");
}

#[test]
fn optional_tools_of_builtin_checks() {
    assert_eq!(optional_tools(), names(&["cargo-deny", "cargo-machete"]));
}

#[test]
fn statuses_follow_the_order_of_checks() {
    let specs = vec![
        checkle::RunSpec { label: "slow".to_string(), mode: Mode::Auto, command: names(&["sh", "-c", "sleep 1; exit 0"]) },
        checkle::RunSpec { label: "fast".to_string(), mode: Mode::Auto, command: names(&["sh", "-c", "exit 1"]) },
        checkle::RunSpec { label: "lost".to_string(), mode: Mode::Cargo, command: names(&["true"]) },
    ];
    let outcomes = vec![
        Some((1000u64, Ok(RunResult { exit_code: 0, log_path: "logs/slow.log".to_string(), output: vec![] }))),
        Some((3u64, Ok(RunResult { exit_code: 1, log_path: "logs/fast.log".to_string(), output: vec![] }))),
        None,
    ];
    let summary = collect_statuses(&specs, outcomes, &[1001, 1002, 1003], vec![1, 0]);
    assert_eq!(summary.finished, vec![1, 0]);
    let labels: Vec<&str> = summary.statuses.iter().map(|s| s.label.as_str()).collect();
    assert_eq!(labels, vec!["slow", "fast", "lost"]);
    assert_eq!(summary.statuses[0].result.as_ref().unwrap().exit_code, 0);
    assert_eq!(summary.statuses[1].result.as_ref().unwrap().exit_code, 1);
    assert_eq!(summary.statuses[1].elapsed_ms, 3);
    assert_eq!(summary.statuses[2].result.as_ref().unwrap_err(), "suite worker did not return a result");
    assert_eq!(summary.statuses[2].elapsed_ms, 1003);
    assert_eq!(summary.statuses[2].mode, Mode::Cargo);
    assert_eq!(suite_exit_code(&summary), 1);
}

fn finished_with(label: &str, code: i32) -> SuiteStatus {
    status(label, Ok(RunResult { exit_code: code, log_path: format!("{label}.log"), output: vec![] }))
}

#[test]
fn suite_keeps_exit_code_of_failing_check() {
    let one = SuiteSummary { statuses: vec![finished_with("a", 7)], finished: vec![0] };
    assert_eq!(suite_exit_code(&one), 7);
}

#[test]
fn suite_exit_code_is_first_to_fail() {
    let summary = SuiteSummary {
        statuses: vec![finished_with("a", 0), finished_with("b", 7), finished_with("c", 3)],
        finished: vec![0, 2, 1],
    };
    assert_eq!(suite_exit_code(&summary), 3);
    let errored = SuiteSummary {
        statuses: vec![status("a", Err("spawn failed".to_string())), finished_with("b", 7)],
        finished: vec![0, 1],
    };
    assert_eq!(suite_exit_code(&errored), 1);
    let unreported = SuiteSummary { statuses: vec![finished_with("a", 0), finished_with("b", 5)], finished: vec![0] };
    assert_eq!(suite_exit_code(&unreported), 5);
    let passed = SuiteSummary { statuses: vec![finished_with("a", 0), finished_with("b", 0)], finished: vec![1, 0] };
    assert_eq!(suite_exit_code(&passed), 0);
}

#[test]
fn failed_results() {
    assert!(!result_failed(&Ok(RunResult { exit_code: 0, log_path: String::new(), output: vec![] })));
    assert!(result_failed(&Ok(RunResult { exit_code: 2, log_path: String::new(), output: vec![] })));
    assert!(result_failed(&Err("x".to_string())));
}

#[test]
fn suite_start_decisions() {
    match suite_start(&[], &Ok(None), &[]) {
        SuiteStart::Exit { text, code } => {
            assert_eq!(text, list_checks());
            assert_eq!(code, 0);
        }
        SuiteStart::Run(_) => panic!("expected the list of checks"),
    }
    match suite_start(&names(&["clippy"]), &Err("parse checkle.toml: bad".to_string()), &[]) {
        SuiteStart::Exit { text, code } => {
            assert_eq!(text, "parse checkle.toml: bad\n");
            assert_eq!(code, 2);
        }
        SuiteStart::Run(_) => panic!("expected a configuration error"),
    }
    match suite_start(&names(&["wat"]), &Ok(None), &[]) {
        SuiteStart::Exit { text, code } => {
            assert_eq!(text, "unknown check: wat\n");
            assert_eq!(code, 2);
        }
        SuiteStart::Run(_) => panic!("expected a resolution error"),
    }
    match suite_start(&names(&["static-analysis"]), &Ok(None), &[]) {
        SuiteStart::Exit { text, code } => {
            assert_eq!(text, "skip cargo-deny: cargo-deny not installed\nskip cargo-machete: cargo-machete not installed\n");
            assert_eq!(code, 0);
        }
        SuiteStart::Run(_) => panic!("expected nothing to run"),
    }
    let looping = Ok(Some(ConfigFile {
        check: vec![],
        group: vec![ConfigGroup { name: "loop".to_string(), checks: names(&["loop"]) }],
    }));
    match suite_start(&names(&["loop"]), &looping, &[]) {
        SuiteStart::Exit { code, .. } => assert_eq!(code, 2),
        SuiteStart::Run(_) => panic!("expected a group error"),
    }
    match suite_start(&names(&["clippy"]), &Ok(None), &[]) {
        SuiteStart::Run(r) => assert_eq!(labels(&r.specs), names(&["clippy"])),
        SuiteStart::Exit { .. } => panic!("expected clippy to run"),
    }
}
