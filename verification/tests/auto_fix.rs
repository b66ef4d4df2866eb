use harvest_tools::auto_fix::compiler::BuildResult;
use harvest_tools::auto_fix::error_classifier::{
    classify_errors, is_summary_line, parse_diag_header, parse_diagnostics, parse_location_line,
    DiagLevel,
};
use harvest_tools::auto_fix::fix_loop::{project_name, FixPlan, FixRun};
use harvest_tools::auto_fix::version_manager::{
    iteration_dir_name, keeps_version, skips_entry, version_path, versioned_name,
    WorkingDirectory,
};

const OUTPUT: &str = "   Compiling p v0.1.0
error[E0425]: cannot find value `x` in this scope
 --> src/b.rs:2:5
  |
2 |     x
  |     ^ not found

warning: unused variable: `y`
 --> src/b.rs:7:9

error: expected `;`
 --> src/a.rs:1:1

error[E0308]: mismatched types
 --> src/b.rs:9:1

warning: unused import
 --> src/c.rs:3:5

error: could not compile `p` (bin \"p\") due to 3 previous errors; 2 warnings emitted
";

fn build(success: bool, output: &str) -> BuildResult {
    BuildResult::from_output(success, b"", output.as_bytes())
}

#[test]
fn counts_come_from_the_combined_output() {
    let result = build(false, OUTPUT);
    assert_eq!(result.combined_output, format!("\n{OUTPUT}"));
    // `error:` twice with the summary, `error[` twice.
    assert_eq!(result.error_count, 4);
    assert_eq!(result.warning_count, 2);
}

#[test]
fn output_that_is_no_text_is_read_lossily() {
    let result = BuildResult::from_output(true, b"a\xffb", b"");
    assert_eq!(result.stdout, "a\u{fffd}b");
}

#[test]
fn files_are_reported_by_errors_then_name() {
    let found = classify_errors(&build(false, OUTPUT));
    assert_eq!(found.total_errors, 3);
    assert_eq!(found.total_warnings, 2);
    let paths: Vec<&str> = found.files.iter().map(|f| f.file_path.as_str()).collect();
    // `src/c.rs` has only a warning.
    assert_eq!(paths, vec!["src/b.rs", "src/a.rs"]);
    assert_eq!(found.files[0].error_count, 2);
    assert_eq!(found.files[0].warning_count, 1);
    assert!(found.files[0].errors_text.starts_with("COMPILATION ERRORS FOR src/b.rs:\n\n"));
    assert!(found.files[0].errors_text.contains("WARNINGS FOR src/b.rs:\n\n"));
    assert!(!found.files[1].errors_text.contains("WARNINGS"));
    // The error counts of the files add up to the total.
    let sum: usize = found.files.iter().map(|f| f.error_count).sum();
    assert_eq!(sum, found.total_errors);
}

#[test]
fn diagnostics_carry_their_place() {
    let diags = parse_diagnostics(OUTPUT);
    assert_eq!(diags.len(), 5);
    assert_eq!(diags[0].level, DiagLevel::Error);
    assert_eq!(diags[0].code.as_deref(), Some("E0425"));
    assert_eq!(diags[0].message, "cannot find value `x` in this scope");
    assert_eq!((diags[0].file.as_str(), diags[0].line, diags[0].col), ("src/b.rs", 2, 5));
    assert_eq!(diags[2].code, None);
}

#[test]
fn headers_and_locations_are_read() {
    let header = parse_diag_header("warning: unused").unwrap();
    assert_eq!(header.level, DiagLevel::Warning);
    assert_eq!(header.message, "unused");
    assert!(parse_diag_header("note: see below").is_none());
    assert_eq!(parse_diag_header("error: ").unwrap().message, "");
    assert!(parse_diag_header("error:").is_none());
    assert!(parse_diag_header("error[foo]: x").is_none());
    assert!(parse_diag_header("error[E]: x").is_none());
    assert!(parse_diag_header("warning[E12a]: x").is_none());
    let coded = parse_diag_header("error[E0308]: mismatched types").unwrap();
    assert_eq!(coded.code.as_deref(), Some("E0308"));
    assert_eq!(parse_location_line("  --> src/main.rs:12:34"), Some(("src/main.rs".into(), 12, 34)));
    assert_eq!(parse_location_line("  --> src/main.rs:12"), None);
    assert_eq!(parse_location_line("src/main.rs:1:2"), None);
    assert!(is_summary_line("error: could not compile `p`"));
    assert!(is_summary_line("warning: `p` (bin \"p\") generated 2 warnings"));
    assert!(!is_summary_line("error: expected `;`"));
}

#[test]
fn a_project_that_builds_is_left_alone() {
    let run = FixRun::start(5, build(true, "warning: odd\n"));
    assert!(matches!(run.plan(), FixPlan::Stop));
    let summary = run.summary("p".to_string());
    assert!(summary.final_success);
    assert_eq!(summary.total_iterations, 0);
    assert_eq!(summary.initial_error_count, 0);
}

#[test]
fn a_run_fixes_until_the_build_succeeds() {
    let mut run = FixRun::start(5, build(false, OUTPUT));
    match run.plan() {
        FixPlan::Fix { iteration, classification } => {
            assert_eq!(iteration, 0);
            assert_eq!(classification.files.len(), 2);
        }
        other => panic!("unexpected plan {other:?}"),
    }
    assert!(run.record_fixes(&vec![("src/b.rs".into(), true), ("src/a.rs".into(), false)]));
    run.record_build(build(false, "error: x\n --> src/b.rs:1:1\n"));
    assert!(matches!(run.plan(), FixPlan::Fix { iteration: 1, .. }));
    assert!(run.record_fixes(&vec![("src/b.rs".into(), true)]));
    run.record_build(build(true, ""));
    assert!(matches!(run.plan(), FixPlan::Stop));
    let summary = run.summary(project_name("/tmp/p"));
    assert_eq!(summary.project_name, "p");
    assert!(summary.final_success);
    assert_eq!(summary.total_iterations, 2);
    assert_eq!(summary.initial_error_count, 4);
    assert_eq!(summary.final_error_count, 0);
    // A file fixed twice is listed once.
    assert_eq!(summary.files_modified, vec!["src/b.rs"]);
    assert_eq!(summary.iterations[0].errors_before, 4);
    assert_eq!(summary.iterations[0].errors_after, 1);
    assert_eq!(summary.iterations[1].iteration, 1);
    // Each iteration starts where the one before it ended.
    assert_eq!(summary.iterations[1].errors_before, 1);
    assert_eq!(summary.iterations[1].errors_after, 0);
}

#[test]
fn a_run_ends_when_nothing_was_fixed() {
    let mut run = FixRun::start(5, build(false, OUTPUT));
    assert!(!run.record_fixes(&vec![("src/b.rs".into(), false)]));
    assert!(matches!(run.plan(), FixPlan::Stop));
    let summary = run.summary("p".to_string());
    assert_eq!(summary.total_iterations, 1);
    assert_eq!(summary.final_error_count, 4);
    assert!(!summary.final_success);
}

#[test]
fn errors_without_a_place_end_the_run_after_a_snapshot() {
    let run = FixRun::start(5, build(false, "error: linking failed\n"));
    assert!(matches!(run.plan(), FixPlan::SnapshotAndStop { iteration: 0 }));
}

#[test]
fn a_run_keeps_to_its_limit() {
    let run = FixRun::start(0, build(false, OUTPUT));
    assert!(matches!(run.plan(), FixPlan::Stop));
}

#[test]
fn versions_are_named_by_iteration() {
    assert_eq!(versioned_name("main.rs", 3), "main.3.rs");
    assert_eq!(versioned_name("Makefile", 0), "Makefile.0");
    assert_eq!(versioned_name("a.b.rs", 12), "a.b.12.rs");
    assert_eq!(version_path("src/net/io.rs", 2), Some("src/net/io.2.rs".to_string()));
    assert_eq!(version_path("", 2), None);
    assert_eq!(iteration_dir_name(7), "iteration_7");
    assert!(skips_entry(".fix_history"));
    assert!(skips_entry("target"));
    assert!(!skips_entry("src"));
    assert!(keeps_version("src/main.rs"));
    assert!(!keeps_version("src/main.c"));
}

#[test]
fn the_history_lies_below_the_project() {
    let dirs = WorkingDirectory::at("/tmp/p");
    assert_eq!(dirs.root, "/tmp/p");
    assert_eq!(dirs.history_dir, "/tmp/p/.fix_history");
    assert_eq!(dirs.log_file, "/tmp/p/.fix_history/fix_log.jsonl");
    assert_eq!(dirs.iteration_all_dir, "/tmp/p/.fix_history/iteration_all");
}

#[test]
fn a_root_without_a_name_is_unknown() {
    assert_eq!(project_name("/"), "unknown");
}
