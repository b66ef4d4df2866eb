use harvest_tools::cargo_output::{CargoMessage, OutputError};
use harvest_tools::clippy_lint::{
    after_check, after_fix, clippy_error_output, join_linter_messages, parse_linted_artifacts,
    parse_linter_messages, ClippyLintResult, ClippyRun, LintStep,
};
use harvest_tools::diagnostic_attributor::DiagnosticAttributor;
use harvest_tools::fix_build_check::{
    diagnostics_from_messages, parse_diagnostics, DiagLevel, RawBuildResult, RelatedLevel,
};
use harvest_tools::split_and_format::SplitPackage;
use harvest_tools::try_cargo_build::{
    build_args, features_from_presets, read_test_features, CargoBuildResult,
};
use serde_json::Value;

/// What cargo prints for one diagnostic.
fn diagnostic_line(level: &str, message: &str, line: usize, primary: bool, children: &str) -> String {
    let span = span_text("src/main.rs", line, primary);
    let rendered = Value::from(format!("{level}: {message}\n"));
    format!(
        "{{\"reason\":\"compiler-message\",\"package_id\":\"p 0.1.0\",\
         \"manifest_path\":\"/p/Cargo.toml\",\"target\":{TARGET},\"message\":{{\
         \"rendered\":{rendered},\"children\":[{children}],\
         \"code\":{{\"code\":\"E0425\",\"explanation\":null}},\"level\":\"{level}\",\
         \"message\":{message},\"spans\":[{span}]}}}}\n",
        message = Value::from(message),
    )
}

const TARGET: &str = "{\"kind\":[\"bin\"],\"crate_types\":[\"bin\"],\"name\":\"p\",\
    \"src_path\":\"/p/src/main.rs\",\"edition\":\"2021\",\"doc\":true,\"doctest\":false,\"test\":true}";

fn span_text(file: &str, line: usize, primary: bool) -> String {
    format!(
        "{{\"file_name\":\"{file}\",\"byte_start\":10,\"byte_end\":12,\"line_start\":{line},\
         \"line_end\":{line},\"column_start\":5,\"column_end\":7,\"is_primary\":{primary},\
         \"text\":[],\"label\":null,\"suggested_replacement\":null,\
         \"suggestion_applicability\":null,\"expansion\":null}}"
    )
}

fn note_text(level: &str, message: &str, file: &str, line: usize) -> String {
    let span = span_text(file, line, true);
    format!(
        "{{\"message\":\"{message}\",\"code\":null,\"level\":\"{level}\",\"spans\":[{span}],\
         \"children\":[],\"rendered\":null}}"
    )
}

fn artifact_line() -> String {
    format!(
        "{{\"reason\":\"compiler-artifact\",\"package_id\":\"p 0.1.0\",\
         \"manifest_path\":\"/p/Cargo.toml\",\"target\":{TARGET},\"profile\":{{\
         \"opt_level\":\"3\",\"debuginfo\":0,\"debug_assertions\":false,\
         \"overflow_checks\":false,\"test\":false}},\"features\":[],\
         \"filenames\":[\"/p/target/release/p\"],\"executable\":\"/p/target/release/p\",\
         \"fresh\":false}}\n"
    )
}

const FINISHED: &str = "{\"reason\":\"build-finished\",\"success\":true}\n";
const FAILED: &str = "{\"reason\":\"build-finished\",\"success\":false}\n";

#[test]
fn a_build_that_succeeds_lists_its_artifacts() {
    let stdout = artifact_line() + FINISHED;
    let result = CargoBuildResult::from_output(stdout.as_bytes(), b"Compiling p").unwrap();
    assert!(result.success);
    assert_eq!(result.artifacts, vec![vec!["/p/target/release/p".to_string()]]);
    assert!(result.diagnostics.is_empty());
    assert_eq!(
        result.describe(),
        "Built Rust artifact:\n  Build succeeded. Artifacts:\n    /p/target/release/p\n"
    );
}

#[test]
fn a_build_that_fails_reports_its_standard_error() {
    let stdout = diagnostic_line("error", "cannot find `x`", 3, true, "") + FAILED;
    let result = CargoBuildResult::from_output(stdout.as_bytes(), b"could not compile").unwrap();
    assert!(!result.success);
    assert_eq!(result.diagnostics.len(), 1);
    let (level, message, spans) = &result.diagnostics[0][0];
    assert_eq!(level, "Error");
    assert_eq!(message, "cannot find `x`");
    assert_eq!(
        spans,
        &vec![("src/main.rs".to_string(), 3, 3, 5, 7, 10, 12, true)]
    );
    assert_eq!(
        result.describe(),
        "Built Rust artifact:\n  Build failed: could not compile\n"
    );
}

#[test]
fn a_build_without_a_last_message_failed() {
    let result = CargoBuildResult::from_output(artifact_line().as_bytes(), b"").unwrap();
    assert!(!result.success);
}

#[test]
fn unreadable_output_is_refused() {
    let bad = CargoBuildResult::from_messages(vec![CargoMessage::Unreadable], b"");
    assert_eq!(bad.err(), Some(OutputError::Unreadable));
    let bytes = CargoBuildResult::from_output(b"\xff\xfe\n", b"");
    assert_eq!(bytes.err(), Some(OutputError::Unreadable));
    let stderr = CargoBuildResult::from_output(FINISHED.as_bytes(), b"\xff");
    assert_eq!(stderr.err(), Some(OutputError::NotUtf8));
}

#[test]
fn features_turn_the_defaults_off() {
    assert_eq!(build_args(&vec![]), vec!["build", "--release", "--message-format=json"]);
    assert_eq!(
        build_args(&vec!["128f".to_string(), "blake".to_string()]),
        vec![
            "build",
            "--release",
            "--message-format=json",
            "--no-default-features",
            "--features",
            "128f,blake"
        ]
    );
}

#[test]
fn presets_that_inherit_each_other_have_no_features() {
    let presets = r#"{"configurePresets": [
        {"name": "test", "inherits": "a"}, {"name": "a", "inherits": "test"}]}"#;
    assert_eq!(read_test_features(Some(presets)), None);
}

#[test]
fn presets_that_are_no_json_have_no_features() {
    assert_eq!(read_test_features(Some("{")), Some(vec![]));
}

#[test]
fn a_later_preset_wins_over_what_it_inherits() {
    let presets = r#"{"configurePresets": [
        {"name": "base", "cacheVariables": {"MODE": "slow", "KEEP": "kept"}},
        {"name": "test", "inherits": ["base"], "cacheVariables": {"MODE": "fast"}}]}"#;
    let mut features = read_test_features(Some(presets)).unwrap();
    features.sort();
    assert_eq!(features, vec!["fast", "kept"]);
}

#[test]
fn presets_without_a_list_have_no_features() {
    let none = harvest_tools::json::Json::Object(vec![]);
    assert_eq!(features_from_presets(&none), Some(vec![]));
}

fn run(success: bool, stdout: &str, stderr: &str) -> ClippyRun {
    ClippyRun {
        success,
        stdout: stdout.as_bytes().to_vec(),
        stderr: stderr.as_bytes().to_vec(),
    }
}

#[test]
fn a_project_that_passes_is_not_fixed() {
    let stdout = diagnostic_line("warning", "unused variable", 1, true, "") + FINISHED;
    match after_check(&run(true, &stdout, "")).unwrap() {
        LintStep::Passed(list) => assert_eq!(list, vec!["unused variable"]),
        LintStep::Fix => panic!("the project passed"),
    }
    assert!(matches!(after_check(&run(false, &stdout, "")), Ok(LintStep::Fix)));
}

#[test]
fn fixes_that_fail_report_the_second_run() {
    let check = run(false, &diagnostic_line("error", "first", 1, true, ""), "one");
    let fix = run(false, &diagnostic_line("error", "second", 1, true, ""), "two");
    assert_eq!(
        after_fix(&check, &fix).unwrap(),
        Err("Linter Message: error: second\n\ntwo".to_string())
    );
    let fixed = run(true, "", "");
    assert_eq!(after_fix(&check, &fixed).unwrap(), Ok(vec!["first".to_string()]));
    assert_eq!(
        clippy_error_output(&check).unwrap(),
        Err("Linter Message: error: first\n\none".to_string())
    );
}

#[test]
fn linter_messages_are_joined_by_lines() {
    let stdout = diagnostic_line("warning", "a", 1, true, "")
        + &diagnostic_line("warning", "b", 2, true, "");
    assert_eq!(
        parse_linter_messages(stdout.as_bytes()).unwrap(),
        "Linter Message: warning: a\n\nLinter Message: warning: b\n"
    );
    assert_eq!(parse_linted_artifacts(stdout.as_bytes()).unwrap(), vec!["a", "b"]);
    let unrendered = vec![CargoMessage::Diagnostic(vec![], None, None)];
    assert_eq!(
        join_linter_messages(&unrendered).unwrap(),
        "Linter Message: cargo didn't render this message"
    );
}

#[test]
fn unreadable_linter_output_is_refused() {
    let bad = run(true, "", "");
    let bad = ClippyRun { stdout: b"\xff\n".to_vec(), ..bad };
    assert_eq!(after_check(&bad).err(), Some(OutputError::Unreadable));
    assert_eq!(after_fix(&bad, &bad).err(), Some(OutputError::Unreadable));
    assert_eq!(clippy_error_output(&bad).err(), Some(OutputError::Unreadable));
}

#[test]
fn a_lint_result_tells_how_it_went() {
    let passed = ClippyLintResult { result: Ok(vec!["unused".to_string()]) };
    assert_eq!(
        passed.describe(),
        "Linter output artifact:\n  Linter passed. Linter output:\n    unused\n"
    );
    let failed = ClippyLintResult { result: Err("boom".to_string()) };
    assert_eq!(failed.describe(), "Linter output artifact:\n  Linter failed: boom\n");
}

#[test]
fn diagnostics_keep_errors_and_warnings_with_a_primary_span() {
    let note = note_text("note", "defined here", "src/main.rs", 9);
    let stdout = diagnostic_line("error", "broken", 3, true, &note)
        + &diagnostic_line("warning", "odd", 4, true, "")
        + &diagnostic_line("note", "dropped", 5, true, "")
        + &diagnostic_line("error", "nowhere", 6, false, "");
    let diags = parse_diagnostics(stdout.as_bytes());
    assert_eq!(diags.len(), 2);
    assert_eq!(diags[0].level, DiagLevel::Error);
    assert_eq!(diags[0].code.as_deref(), Some("E0425"));
    assert_eq!(diags[0].file, "src/main.rs");
    assert_eq!(
        (diags[0].line_start, diags[0].line_end, diags[0].col_start, diags[0].col_end),
        (3, 3, 5, 7)
    );
    assert_eq!(diags[0].full_text, "error: broken\n");
    assert_eq!(diags[0].related_spans.len(), 1);
    assert_eq!(diags[0].related_spans[0].level, RelatedLevel::Note);
    assert_eq!(diags[0].related_spans[0].line_start, 9);
    assert_eq!(diags[1].level, DiagLevel::Warning);
}

#[test]
fn an_unrendered_diagnostic_shows_its_message() {
    let span = ("src/lib.rs".to_string(), 1, 2, 3, 4, 5, 6, true);
    let head = ("Ice".to_string(), "panicked".to_string(), vec![span]);
    let diags = diagnostics_from_messages(&vec![CargoMessage::Diagnostic(vec![head], None, None)]);
    assert_eq!(diags.len(), 1);
    assert_eq!(diags[0].level, DiagLevel::Error);
    assert_eq!(diags[0].full_text, "panicked");
}

fn split() -> SplitPackage {
    SplitPackage::from_declarations(
        vec![
            "fn a() {\n    b();\n}".to_string(),
            "struct S;".to_string(),
            "fn b() {}".to_string(),
        ],
        "[package]\n".to_string(),
        "src/main.rs".to_string(),
    )
}

#[test]
fn a_split_package_indexes_its_lines() {
    let pkg = split();
    assert_eq!(pkg.assembled_source, "fn a() {\n    b();\n}\n\nstruct S;\n\nfn b() {}");
    assert_eq!(pkg.line_index, vec![(1, 3, 0), (5, 5, 1), (7, 7, 2)]);
    assert_eq!(
        pkg.describe(),
        format!("SplitPackage (3 declarations, source: src/main.rs):\n{}", pkg.assembled_source)
    );
    // The lines of an entry are those of its declaration.
    let lines: Vec<&str> = pkg.assembled_source.split('\n').collect();
    for (start, end, i) in &pkg.line_index {
        assert_eq!(lines[start - 1..*end].join("\n"), pkg.declarations[*i]);
    }
    let files = pkg.files();
    assert_eq!(files.get_file("Cargo.toml").unwrap(), b"[package]\n");
    assert_eq!(files.get_file("src/main.rs").unwrap(), pkg.assembled_source.as_bytes());
}

#[test]
fn diagnostics_reach_their_declarations() {
    let note = note_text("help", "change this", "src/main.rs", 7);
    let outside = note_text("note", "elsewhere", "src/other.rs", 5);
    let stdout = diagnostic_line("error", "broken", 2, true, &format!("{note},{outside}"))
        + &diagnostic_line("warning", "odd", 5, true, "")
        + &diagnostic_line("error", "between", 4, true, "");
    let result = RawBuildResult::from_output(false, stdout.as_bytes());
    assert!(!result.success);
    let diags = DiagnosticAttributor.run(&split(), &result);
    assert!(diags.has_errors);
    assert_eq!(diags.decl_errors.len(), 1);
    assert_eq!(diags.decl_errors[&0], vec!["error: broken\n"]);
    // The note at line 7 tells declaration 2; the one in another file tells none.
    assert_eq!(diags.decl_warnings.len(), 2);
    assert_eq!(diags.decl_warnings[&1], vec!["warning: odd\n"]);
    assert_eq!(diags.decl_warnings[&2], vec!["error: broken\n"]);
}
