use checkle::{
    failure_report, log_contents, log_file_name, recent_text, render_report, summarize, Mode, RunOptions,
    RunResult, SummaryLimits,
};

const CARGO_LINE: &str = r#"{"reason":"compiler-message","message":{"level":"error","message":"sample failure","code":{"code":"clippy::sample"},"spans":[{"file_name":"src/lib.rs","line_start":1,"column_start":2,"is_primary":true}],"children":[{"level":"help","message":"try sample fix","spans":[]}]}}"#;

#[test]
fn log_file_name_of_valid_label() {
    assert_eq!(log_file_name("clippy-1.x_y").as_deref(), Some("clippy-1.x_y.log"));
}

#[test]
fn log_file_name_refuses_other_characters() {
    assert_eq!(log_file_name("a/b"), None);
    assert_eq!(log_file_name("a b"), None);
    assert_eq!(log_file_name("caf\u{e9}"), None);
}

#[test]
fn distinct_labels_have_distinct_logs() {
    let a = log_file_name("a.b").unwrap();
    let b = log_file_name("a_b").unwrap();
    assert_ne!(a, b);
}

#[test]
fn log_tags_each_stream_line() {
    assert_eq!(
        log_contents(b"hello\nworld\n", b"oops"),
        b"[stdout] hello\n[stdout] world\n[stderr] oops\n".to_vec()
    );
}

#[test]
fn log_keeps_empty_lines_and_skips_empty_streams() {
    assert_eq!(log_contents(b"a\n\nb", b""), b"[stdout] a\n[stdout] \n[stdout] b\n".to_vec());
    assert_eq!(log_contents(b"", b""), Vec::<u8>::new());
}

#[test]
fn recent_text_keeps_last_nonempty_lines() {
    assert_eq!(recent_text(b"one\n\ntwo\nthree\n", 2), "two\nthree\n");
}

#[test]
fn recent_text_of_blank_output_is_one_newline() {
    assert_eq!(recent_text(b"\n\n", 80), "\n");
}

#[test]
fn recent_text_replaces_invalid_utf8() {
    assert_eq!(recent_text(&[0x66, 0xff, 0x6f], 5), "f\u{fffd}o\n");
}

#[test]
fn report_renders_readme_example() {
    let output = format!("{CARGO_LINE}\n");
    let summary = summarize(Mode::Cargo, output.as_bytes());
    let report = render_report(
        &summary,
        "target/check-logs/clippy.log",
        &SummaryLimits::default(),
        output.as_bytes(),
    );
    assert_eq!(
        report,
        "full log: target/check-logs/clippy.log\n\nerror: src/lib.rs:1:2 clippy::sample\n  sample failure\n  help: try sample fix\n\n"
    );
}

#[test]
fn report_falls_back_to_recent_output() {
    let output = b"plain output\n";
    let summary = summarize(Mode::Auto, output);
    assert!(summary.is_empty());
    let report = render_report(&summary, "logs/x.log", &SummaryLimits::default(), output);
    assert_eq!(
        report,
        "full log: logs/x.log\n\nno compact diagnostics found; showing recent log output:\n\nplain output\n"
    );
}

#[test]
fn report_applies_limits() {
    let output = format!("{CARGO_LINE}\n{CARGO_LINE}\n");
    let summary = summarize(Mode::Cargo, output.as_bytes());
    assert_eq!(summary.diagnostics.len(), 2);
    let limits = SummaryLimits {
        max_diagnostics: 1,
        max_failures: 1,
        max_lines: 1,
        max_line_chars: 5,
        max_fallback_lines: 80,
    };
    let report = render_report(&summary, "l.log", &limits, output.as_bytes());
    assert_eq!(report, "full log: l.log\n\nerror: src/lib.rs:1:2 clippy::sample\n  sampl\n  help:\n\n");
}

#[test]
fn default_limits() {
    let limits = SummaryLimits::default();
    assert_eq!(limits.max_diagnostics, 20);
    assert_eq!(limits.max_failures, 20);
    assert_eq!(limits.max_lines, 12);
    assert_eq!(limits.max_line_chars, 240);
    assert_eq!(limits.max_fallback_lines, 80);
}

#[test]
fn log_of_printf_hello() {
    assert_eq!(log_file_name("sample").as_deref(), Some("sample.log"));
    assert_eq!(log_contents(b"hello", b""), b"[stdout] hello\n".to_vec());
}

#[test]
fn passing_check_prints_nothing() {
    let options = RunOptions {
        label: "ok".to_string(),
        mode: Mode::Auto,
        log_dir: "logs".to_string(),
        limits: SummaryLimits::default(),
        command: vec!["true".to_string()],
    };
    let passed = RunResult { exit_code: 0, log_path: "logs/ok.log".to_string(), output: b"done".to_vec() };
    assert_eq!(failure_report(&options, &passed), None);
    let failed = RunResult { exit_code: 7, log_path: "logs/ok.log".to_string(), output: b"done".to_vec() };
    assert_eq!(
        failure_report(&options, &failed).as_deref(),
        Some("full log: logs/ok.log\n\nno compact diagnostics found; showing recent log output:\n\ndone\n")
    );
}
