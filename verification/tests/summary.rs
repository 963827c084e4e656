use checkle::{summarize, summarize_for_command, summarize_text, Diagnostic, Mode, Summary, TestFailure};

#[test]
fn summarizes_cargo_json_diagnostics() {
    let input = r#"not json
{"reason":"compiler-message","message":{"level":"error","message":"sample failure","code":{"code":"clippy::sample"},"spans":[{"file_name":"src/lib.rs","line_start":1,"column_start":2,"is_primary":true}],"children":[{"level":"help","message":"try sample fix","spans":[]}]}}
{"reason":"compiler-artifact"}
"#;
    let summary = summarize(Mode::Cargo, input.as_bytes());
    assert_eq!(summary.diagnostics.len(), 1);
    assert_eq!(summary.diagnostics[0].severity, "error");
    assert_eq!(
        summary.diagnostics[0].location.as_deref(),
        Some("src/lib.rs:1:2")
    );
    assert_eq!(
        summary.diagnostics[0].code.as_deref(),
        Some("clippy::sample")
    );
    assert_eq!(summary.diagnostics[0].details, vec!["help: try sample fix"]);
}

#[test]
fn summarizes_cargo_warnings_and_context() {
    let input = r#"{"reason":"compiler-message","message":{"level":"warning","message":"lint failure","code":{"code":"clippy::dbg_macro"},"spans":[{"file_name":"src/lib.rs","line_start":3,"column_start":4,"is_primary":true,"label":"primary label"},{"file_name":"src/lib.rs","line_start":8,"column_start":9,"is_primary":false,"label":"secondary label"}],"children":[{"level":"help","message":"remove dbg","spans":[]},{"level":"note","message":"lint comes from command line","spans":[{"file_name":"src/main.rs","line_start":1,"column_start":1,"is_primary":false,"label":"note span"}]}],"rendered":"warning: lint failure\n  = note: rendered note\n  = help: rendered help\n"}}"#;
    let summary = summarize(Mode::Cargo, input.as_bytes());
    assert_eq!(summary.diagnostics.len(), 1);
    assert_eq!(summary.diagnostics[0].severity, "warning");
    assert_eq!(
        summary.diagnostics[0].location.as_deref(),
        Some("src/lib.rs:3:4")
    );
    assert_eq!(
        summary.diagnostics[0].code.as_deref(),
        Some("clippy::dbg_macro")
    );
    assert!(
        summary.diagnostics[0]
            .details
            .contains(&"src/lib.rs:8:9: secondary label".to_string())
    );
    assert!(
        summary.diagnostics[0]
            .details
            .contains(&"help: remove dbg".to_string())
    );
    assert!(
        summary.diagnostics[0]
            .details
            .contains(&"note: lint comes from command line".to_string())
    );
    assert!(
        summary.diagnostics[0]
            .details
            .contains(&"src/main.rs:1:1: note span".to_string())
    );
    assert!(
        summary.diagnostics[0]
            .details
            .contains(&"  = note: rendered note".to_string())
    );
}

#[test]
fn renders_diagnostic_severity() {
    let summary = Summary {
        diagnostics: vec![Diagnostic {
            severity: "warning".to_string(),
            location: Some("src/lib.rs:1:2".to_string()),
            code: Some("clippy::sample".to_string()),
            message: "sample failure".to_string(),
            details: vec!["help: try sample fix".to_string()],
        }],
        test_failures: Vec::new(),
        text_lines: Vec::new(),
    };
    let rendered = summary.render("target/check-logs/clippy.log");
    assert!(rendered.contains("warning: src/lib.rs:1:2 clippy::sample"));
    assert!(rendered.contains("  help: try sample fix"));
}

#[test]
fn summarizes_nextest_json_failures() {
    let input = r#"{"type":"test","event":"failed","name":"crate::test_name","stdout":"a\nb\nc","stderr":"panic\nbacktrace"}
{"type":"suite","event":"failed"}
"#;
    let summary = summarize(Mode::Nextest, input.as_bytes());
    assert_eq!(summary.test_failures.len(), 1);
    assert_eq!(summary.test_failures[0].name, "crate::test_name");
    assert_eq!(summary.test_failures[0].stdout, vec!["a", "b", "c"]);
    assert_eq!(summary.test_failures[0].stderr, vec!["panic", "backtrace"]);
}

#[test]
fn renders_nextest_stdout_and_stderr() {
    let summary = Summary {
        diagnostics: Vec::new(),
        test_failures: vec![TestFailure {
            name: "crate::test_name".to_string(),
            stdout: vec!["stdout line".to_string()],
            stderr: vec!["stderr line".to_string()],
        }],
        text_lines: Vec::new(),
    };
    let rendered = summary.render("target/check-logs/test.log");
    assert!(rendered.contains("  STDOUT\n  stdout line"));
    assert!(rendered.contains("  STDERR\n  stderr line"));
}

#[test]
fn deduplicates_nextest_json_failures() {
    let input = r#"{"type":"test","event":"failed","name":"crate::test_name","stdout":"first"}
{"type":"test","event":"failed","name":"crate::test_name","stdout":"second"}
"#;
    let summary = summarize(Mode::Nextest, input.as_bytes());
    assert_eq!(summary.test_failures.len(), 1);
    assert_eq!(summary.test_failures[0].stdout, vec!["first"]);
}

#[test]
fn summarizes_nextest_text_failures() {
    let input = "        FAIL [   1.000s] crate test_name\n--- STDOUT ---\nline1\nline2\n------------\nSummary [   1.000s] 1 test run: 0 passed, 1 failed\n";
    let summary = summarize(Mode::Nextest, input.as_bytes());
    assert!(summary.text_lines.iter().any(|line| line.contains("FAIL")));
    assert!(summary.text_lines.iter().any(|line| line == "  line1"));
    assert!(
        summary
            .text_lines
            .iter()
            .any(|line| line.starts_with("Summary"))
    );
}

#[test]
fn summarizes_rustfmt_diffs() {
    let input = "noise\nDiff in /tmp/example.rs:1:\n- bad\n+ good\n";
    let summary = summarize(Mode::Rustfmt, input.as_bytes());
    assert_eq!(
        summary.text_lines,
        vec!["Diff in /tmp/example.rs:1:", "- bad", "+ good"]
    );
}

#[test]
fn summarizes_cargo_deny_findings() {
    let input = "noise\nadvisories ok\nerror[duplicate]: duplicate dependency\n    ├ crate-a\n    └ crate-b\n";
    let summary = summarize(Mode::CargoDeny, input.as_bytes());
    assert_eq!(
        summary.text_lines,
        vec![
            "advisories ok",
            "error[duplicate]: duplicate dependency",
            "    ├ crate-a",
            "    └ crate-b",
        ]
    );
}

#[test]
fn auto_detects_supported_formats() {
    let cargo = r#"{"reason":"compiler-message","message":{"level":"error","message":"sample","spans":[],"children":[]}}"#;
    assert_eq!(summarize(Mode::Auto, cargo.as_bytes()).diagnostics.len(), 1);

    let nextest = r#"{"type":"test","event":"failed","name":"crate::test","stderr":"panic"}"#;
    assert_eq!(
        summarize(Mode::Auto, nextest.as_bytes())
            .test_failures
            .len(),
        1
    );

    let rustfmt = "Diff in /tmp/example.rs:1:\n- bad\n+ good\n";
    assert_eq!(
        summarize(Mode::Auto, rustfmt.as_bytes()).text_lines[0],
        "Diff in /tmp/example.rs:1:"
    );

    let deny = "advisories ok\nerror[duplicate]: duplicate dependency\n";
    assert_eq!(
        summarize(Mode::Auto, deny.as_bytes()).text_lines,
        vec!["advisories ok", "error[duplicate]: duplicate dependency"]
    );

    let machete = "The following dependencies seem to be unused:\n  anyhow\n";
    assert_eq!(
        summarize(Mode::Auto, machete.as_bytes()).text_lines,
        vec!["The following dependencies seem to be unused:", "  anyhow"]
    );
}

#[test]
fn auto_uses_command_when_content_is_ambiguous() {
    let command = vec!["cargo".to_string(), "fmt".to_string()];
    let summary = summarize_for_command(Mode::Auto, &command, b"error: bad format\n");
    assert_eq!(summary.text_lines, vec!["error: bad format"]);
}

#[test]
fn auto_uses_one_parser() {
    let input = r#"{"reason":"compiler-message","message":{"level":"error","message":"sample","spans":[],"children":[]}}
error: fallback duplicate
"#;
    let summary = summarize(Mode::Auto, input.as_bytes());
    assert_eq!(summary.diagnostics.len(), 1);
    assert!(summary.text_lines.is_empty());
}

#[test]
fn summarizes_cargo_machete_findings() {
    let input = "noise\nThe following dependencies seem to be unused:\n  anyhow\n  serde\n";
    let summary = summarize(Mode::CargoMachete, input.as_bytes());
    assert_eq!(
        summary.text_lines,
        vec![
            "The following dependencies seem to be unused:",
            "  anyhow",
            "  serde"
        ]
    );
}

#[test]
fn named_mode_ignores_command() {
    let input = r#"{"reason":"compiler-message","message":{"level":"error","message":"boom","spans":[],"children":[]}}"#;
    let command = vec!["cargo".to_string(), "nextest".to_string(), "run".to_string()];
    let summary = summarize_for_command(Mode::Cargo, &command, input.as_bytes());
    assert_eq!(summary.diagnostics.len(), 1);
    assert_eq!(summary.diagnostics[0].location, None);
    assert_eq!(summary.diagnostics[0].code, None);
    assert_eq!(summary.diagnostics[0].message, "boom");
    assert!(summary.test_failures.is_empty());
}

#[test]
fn failed_test_output_keeps_last_twelve_lines() {
    let stdout: Vec<String> = (1..=20).map(|i| format!("l{i}")).collect();
    let line = format!(
        r#"{{"type":"test","event":"failed","name":"t1","stdout":"{}"}}"#,
        stdout.join("\\n")
    );
    let summary = summarize(Mode::Nextest, line.as_bytes());
    assert_eq!(summary.test_failures.len(), 1);
    let expected: Vec<String> = (9..=20).map(|i| format!("l{i}")).collect();
    assert_eq!(summary.test_failures[0].stdout, expected);
    assert!(summary.test_failures[0].stderr.is_empty());
}

#[test]
fn diagnostic_without_location_renders_code() {
    let summary = Summary {
        diagnostics: vec![Diagnostic {
            severity: "warning".to_string(),
            location: None,
            code: Some("unused".to_string()),
            message: "m".to_string(),
            details: vec![],
        }],
        test_failures: vec![TestFailure {
            name: "t".to_string(),
            stdout: vec![],
            stderr: vec!["e".to_string()],
        }],
        text_lines: vec!["tail".to_string()],
    };
    assert_eq!(
        summary.render("x.log"),
        "full log: x.log\n\nwarning: unused\n  m\n\nfailed: t\n  STDERR\n  e\n\ntail\n"
    );
    assert!(!summary.is_empty());
    let empty = Summary { diagnostics: vec![], test_failures: vec![], text_lines: vec![] };
    assert!(empty.is_empty());
}

#[test]
fn invalid_utf8_output_is_read_lossily() {
    let mut bytes = b"error: bad \xff byte\n".to_vec();
    bytes.extend_from_slice(b"other\n");
    let summary = summarize(Mode::Auto, &bytes);
    assert_eq!(summary.text_lines, vec!["error: bad \u{fffd} byte".to_string()]);
}

#[test]
fn summarize_text_reads_decoded_output() {
    let command = vec!["cargo".to_string(), "fmt".to_string(), "--check".to_string()];
    let summary = summarize_text(Mode::Auto, &command, "Diff in /x/src/lib.rs at line 1:\n-a\n+b\n");
    assert!(summary.diagnostics.is_empty());
    assert_eq!(
        summary.text_lines,
        vec!["Diff in /x/src/lib.rs at line 1:".to_string(), "-a".to_string(), "+b".to_string()]
    );
}

#[test]
fn deep_ignored_fields_do_not_hide_a_diagnostic() {
    let mut expansion = String::from("null");
    for _ in 0..300 {
        expansion = format!("{{\"span\":{expansion}}}");
    }
    let line = format!(
        r#"{{"reason":"compiler-message","message":{{"level":"error","message":"recursion limit reached","spans":[{{"file_name":"src/lib.rs","line_start":4,"column_start":5,"is_primary":true,"expansion":{expansion}}}],"children":[]}},"extra":1e400}}"#
    );
    let summary = summarize(Mode::Cargo, line.as_bytes());
    assert_eq!(summary.diagnostics.len(), 1);
    assert_eq!(summary.diagnostics[0].location.as_deref(), Some("src/lib.rs:4:5"));
    assert_eq!(summary.diagnostics[0].message, "recursion limit reached");
}

#[test]
fn cargo_event_fields_keep_their_types() {
    let bad_line = r#"{"reason":"compiler-message","message":{"level":"error","message":"m","spans":[{"file_name":"a.rs","line_start":1.0,"column_start":1,"is_primary":true}]}}"#;
    assert!(summarize(Mode::Cargo, bad_line.as_bytes()).diagnostics.is_empty());
    let short_seq = r#"{"reason":"compiler-message","message":["error","m",null,[["a.rs",2,3,true,null]]]}"#;
    assert!(summarize(Mode::Cargo, short_seq.as_bytes()).diagnostics.is_empty());
    let seq_line = r#"{"reason":"compiler-message","message":["error","m",null,[["a.rs",2,3,true,null]],[],null]}"#;
    let summary = summarize(Mode::Cargo, seq_line.as_bytes());
    assert_eq!(summary.diagnostics.len(), 1);
    assert_eq!(summary.diagnostics[0].location.as_deref(), Some("a.rs:2:3"));
}
