//! Groups the diagnostics of `cargo build --message-format=json` by file.
use crate::auto_fix::error_classifier::{
    group_by_file, is_report_list, level_count, of_file, select, DiagnosticView,
    FileErrorReportView,
};
pub use crate::auto_fix::error_classifier::{DiagLevel, Diagnostic};
use crate::cargo_output::{cargo_messages, parse_stream, CargoMessage};
use crate::fix_build_check::{self, diagnostics_from_messages, diagnostics_in};
use vstd::prelude::*;

verus! {

/// Raw output from a `cargo build --message-format=json` invocation.
#[derive(Debug)]
pub struct BuildOutput {
    pub success: bool,
    /// Raw JSON-lines stdout.
    pub stdout_bytes: Vec<u8>,
}

/// Per-file summary: only files that have at least one error-level diagnostic.
/// Warnings are included alongside errors so the fixer has full context.
#[derive(Debug)]
pub struct FileErrorReport {
    pub file_path: String,
    pub error_count: usize,
    pub warning_count: usize,
    /// All error-level diagnostics for this file (for line to declaration
    /// mapping).
    pub diagnostics: Vec<Diagnostic>,
    /// Formatted text of errors (and warnings) for this file.
    pub errors_text: String,
}

/// Top-level result of `classify_errors`.
#[derive(Debug)]
pub struct ErrorClassification {
    /// Only files that have an error-level diagnostic.
    pub files: Vec<FileErrorReport>,
    pub total_errors: usize,
    pub total_warnings: usize,
}

/// What a report says, apart from the diagnostics that it lists.
pub open spec fn summary_of(r: FileErrorReport) -> FileErrorReportView {
    FileErrorReportView {
        file_path: r.file_path@,
        error_count: r.error_count as nat,
        warning_count: r.warning_count as nat,
        errors_text: r.errors_text@,
    }
}

/// What the reports say, apart from the diagnostics that they list.
pub open spec fn summaries_of(files: Seq<FileErrorReport>) -> Seq<FileErrorReportView> {
    Seq::new(files.len(), |i: int| summary_of(files[i]))
}

/// The classification of `diags`: a report for each file with an error, with
/// its errors, in order, and the totals.
pub open spec fn classifies(diags: Seq<DiagnosticView>, c: ErrorClassification) -> bool {
    &&& is_report_list(diags, summaries_of(c.files@))
    &&& forall|i: int|
        0 <= i < c.files@.len() ==> (#[trigger] c.files@[i]).diagnostics.deep_view() == of_file(
            diags,
            c.files@[i].file_path@,
            DiagLevel::Error,
        )
    &&& c.total_errors == level_count(diags, DiagLevel::Error)
    &&& c.total_warnings == level_count(diags, DiagLevel::Warning)
}

/// A diagnostic located by the first line and column of its primary span.
pub open spec fn located(d: fix_build_check::DiagnosticView) -> DiagnosticView {
    DiagnosticView {
        level: match d.level {
            fix_build_check::DiagLevel::Error => DiagLevel::Error,
            fix_build_check::DiagLevel::Warning => DiagLevel::Warning,
        },
        code: d.code,
        message: d.message,
        file: d.file,
        line: d.line_start,
        col: d.col_start,
        full_text: d.full_text,
    }
}

/// The errors and warnings that the messages of cargo carry.
pub open spec fn located_in(messages: Seq<CargoMessage>) -> Seq<DiagnosticView> {
    Seq::new(diagnostics_in(messages).len(), |i: int| located(diagnostics_in(messages)[i]))
}

fn locate(d: &fix_build_check::Diagnostic) -> (r: Diagnostic)
    ensures
        r.deep_view() == located(d.deep_view()),
{
    Diagnostic {
        level: match d.level {
            fix_build_check::DiagLevel::Error => DiagLevel::Error,
            fix_build_check::DiagLevel::Warning => DiagLevel::Warning,
        },
        code: match &d.code {
            Some(c) => Some(c.as_str().to_owned()),
            None => None,
        },
        message: d.message.as_str().to_owned(),
        file: d.file.as_str().to_owned(),
        line: d.line_start,
        col: d.col_start,
        full_text: d.full_text.as_str().to_owned(),
    }
}

fn copy_diagnostic(d: &Diagnostic) -> (r: Diagnostic)
    ensures
        r.deep_view() == d.deep_view(),
{
    Diagnostic {
        level: d.level,
        code: match &d.code {
            Some(c) => Some(c.as_str().to_owned()),
            None => None,
        },
        message: d.message.as_str().to_owned(),
        file: d.file.as_str().to_owned(),
        line: d.line,
        col: d.col,
        full_text: d.full_text.as_str().to_owned(),
    }
}

fn errors_of_file(diags: &Vec<Diagnostic>, file: &str) -> (r: Vec<Diagnostic>)
    ensures
        r.deep_view() == of_file(diags.deep_view(), file@, DiagLevel::Error),
{
    let picked = select(diags, file, DiagLevel::Error);
    let ghost want = of_file(diags.deep_view(), file@, DiagLevel::Error);
    let mut out: Vec<Diagnostic> = Vec::new();
    let mut i: usize = 0;
    proof {
        assert(want.len() == picked@.len());
        assert forall|j: int| 0 <= j < picked@.len() implies #[trigger] want[j]
            == diags.deep_view()[picked@[j] as int] by {
            assert(want[j] == Seq::new(
                picked@.len(),
                |k: int| diags.deep_view()[picked@[k] as int],
            )[j]);
        }
    }
    while i < picked.len()
        invariant
            want.len() == picked@.len(),
            forall|j: int|
                0 <= j < picked@.len() ==> #[trigger] want[j]
                    == diags.deep_view()[picked@[j] as int],
            forall|j: int| 0 <= j < picked@.len() ==> (#[trigger] picked@[j]) < diags@.len(),
            i <= picked@.len(),
            out@.len() == i,
            forall|j: int| 0 <= j < i ==> (#[trigger] out@[j]).deep_view() == want[j],
        decreases picked@.len() - i,
    {
        let k: usize = picked[i];
        out.push(copy_diagnostic(&diags[k]));
        proof {
            assert(want[i as int] == diags@[k as int].deep_view());
        }
        i += 1;
    }
    proof {
        assert(out.deep_view() =~= want);
    }
    out
}

/// The errors and warnings among the messages of cargo.
pub fn locate_diagnostics(messages: &Vec<CargoMessage>) -> (r: Vec<Diagnostic>)
    ensures
        r.deep_view() == located_in(messages@),
{
    let found = diagnostics_from_messages(messages);
    let ghost all = found.deep_view();
    let mut out: Vec<Diagnostic> = Vec::new();
    let mut i: usize = 0;
    while i < found.len()
        invariant
            all == found.deep_view(),
            i <= found@.len(),
            out@.len() == i,
            forall|j: int| 0 <= j < i ==> (#[trigger] out@[j]).deep_view() == located(all[j]),
        decreases found@.len() - i,
    {
        out.push(locate(&found[i]));
        i += 1;
    }
    proof {
        assert(out.deep_view() =~= located_in(messages@));
    }
    out
}

/// Groups diagnostics by file, with the errors of each file.
pub fn classify_diagnostics(diags: &Vec<Diagnostic>) -> (r: ErrorClassification)
    ensures
        classifies(diags.deep_view(), r),
{
    let groups = group_by_file(diags);
    let ghost want = groups.files.deep_view();
    let mut files: Vec<FileErrorReport> = Vec::new();
    let mut i: usize = 0;
    while i < groups.files.len()
        invariant
            want == groups.files.deep_view(),
            i <= groups.files@.len(),
            files@.len() == i,
            forall|j: int| 0 <= j < i ==> summary_of(#[trigger] files@[j]) == want[j],
            forall|j: int|
                0 <= j < i ==> (#[trigger] files@[j]).diagnostics.deep_view() == of_file(
                    diags.deep_view(),
                    files@[j].file_path@,
                    DiagLevel::Error,
                ),
        decreases groups.files@.len() - i,
    {
        let g = &groups.files[i];
        files.push(
            FileErrorReport {
                file_path: g.file_path.as_str().to_owned(),
                error_count: g.error_count,
                warning_count: g.warning_count,
                diagnostics: errors_of_file(diags, g.file_path.as_str()),
                errors_text: g.errors_text.as_str().to_owned(),
            },
        );
        proof {
            assert(summary_of(files@[i as int]) =~= want[i as int]);
        }
        i += 1;
    }
    proof {
        assert(summaries_of(files@) =~= want);
    }
    ErrorClassification {
        files,
        total_errors: groups.total_errors,
        total_warnings: groups.total_warnings,
    }
}

/// Parse `cargo build --message-format=json` output and group diagnostics by
/// file. Files with only warnings are excluded from the result.
pub fn classify_errors(build_output: &BuildOutput) -> (r: ErrorClassification)
    ensures
        classifies(located_in(cargo_messages(build_output.stdout_bytes@)), r),
{
    let messages = parse_stream(build_output.stdout_bytes.as_slice());
    let diags = locate_diagnostics(&messages);
    classify_diagnostics(&diags)
}

} // verus!
