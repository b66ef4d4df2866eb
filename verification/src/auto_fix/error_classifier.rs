//! Symbolic (local) error classifier: parses `cargo build` output.
use crate::auto_fix::compiler::BuildResult;
use crate::order::{lex_antisymmetric, lex_lt, lex_total, lex_transitive, text_le};
use crate::text::{
    after_prefix, all_digits, chars_of, contains, contains_char, cut_at, digit_char, has_part, join, joined, lines, lines_of,
    parse_u32, same, split_once, starts_with, strip_prefix, trim, trim_start, trim_start_of,
    trimmed, u32_of,
};
use vstd::prelude::*;

verus! {

#[derive(Debug, Clone, Copy, PartialEq, Eq, Structural)]
pub enum DiagLevel {
    Error,
    Warning,
}

/// A single rustc diagnostic (error or warning), including its full original
/// text.
#[derive(Debug)]
pub struct Diagnostic {
    pub level: DiagLevel,
    /// Error code, e.g. `"E0308"`. `None` if the diagnostic has no code.
    pub code: Option<String>,
    /// Short message, e.g. `"mismatched types"`.
    pub message: String,
    /// Relative file path that owns this diagnostic, derived from the *first*
    /// `-->` pointer in the block.
    pub file: String,
    pub line: u32,
    pub col: u32,
    /// Complete block text (header + source excerpt + notes/help).
    pub full_text: String,
}

/// Per-file summary, only for files that have at least one error. Warnings are
/// included alongside errors so the fixer has full context.
#[derive(Debug)]
pub struct FileErrorReport {
    pub file_path: String,
    pub error_count: usize,
    pub warning_count: usize,
    /// Formatted diagnostic text for this file only.
    pub errors_text: String,
}

/// Top-level result of `classify_errors`.
#[derive(Debug)]
pub struct ErrorClassification {
    /// Only files that have an error-level diagnostic.
    pub files: Vec<FileErrorReport>,
    pub total_errors: usize,
    pub total_warnings: usize,
}

#[verifier::ext_equal]
pub ghost struct DiagnosticView {
    pub level: DiagLevel,
    pub code: Option<Seq<char>>,
    pub message: Seq<char>,
    pub file: Seq<char>,
    pub line: u32,
    pub col: u32,
    pub full_text: Seq<char>,
}

impl DeepView for Diagnostic {
    type V = DiagnosticView;

    open spec fn deep_view(&self) -> DiagnosticView {
        DiagnosticView {
            level: self.level,
            code: self.code.deep_view(),
            message: self.message@,
            file: self.file@,
            line: self.line,
            col: self.col,
            full_text: self.full_text@,
        }
    }
}

#[verifier::ext_equal]
pub ghost struct FileErrorReportView {
    pub file_path: Seq<char>,
    pub error_count: nat,
    pub warning_count: nat,
    pub errors_text: Seq<char>,
}

impl DeepView for FileErrorReport {
    type V = FileErrorReportView;

    open spec fn deep_view(&self) -> FileErrorReportView {
        FileErrorReportView {
            file_path: self.file_path@,
            error_count: self.error_count as nat,
            warning_count: self.warning_count as nat,
            errors_text: self.errors_text@,
        }
    }
}

// ---------------------------------------------------------------------------
// Lines
// ---------------------------------------------------------------------------

/// The line summarizes other diagnostics.
pub open spec fn summary_line(line: Seq<char>) -> bool {
    ||| "error: could not compile"@.is_prefix_of(line)
    ||| (after_prefix(line, "warning:"@) matches Some(rest) && has_part(rest, "generated"@) && (
    has_part(rest, "warning"@) || has_part(rest, "error"@)))
    ||| "Some errors have detailed explanations:"@.is_prefix_of(line)
    ||| "For more information about an error"@.is_prefix_of(line)
}

/// Lines matched by the summary-line filter do not start a new diagnostic
/// block even though they begin with "error:" or "warning:".
pub fn is_summary_line(line: &str) -> (r: bool)
    ensures
        r == summary_line(line@),
{
    if starts_with(line, "error: could not compile") {
        return true;
    }
    match strip_prefix(line, "warning:") {
        Some(rest) => {
            if contains(rest, "generated") && (contains(rest, "warning") || contains(rest, "error")) {
                return true;
            }
        },
        None => {},
    }
    starts_with(line, "Some errors have detailed explanations:") || starts_with(
        line,
        "For more information about an error",
    )
}

/// Level, code and message of a diagnostic.
pub ghost struct HeaderView {
    pub level: DiagLevel,
    pub code: Option<Seq<char>>,
    pub message: Seq<char>,
}

/// The level that a line starts with, and the rest of the line.
pub open spec fn level_and_rest(line: Seq<char>) -> Option<(DiagLevel, Seq<char>)> {
    match after_prefix(line, "error"@) {
        Some(rest) => Some((DiagLevel::Error, rest)),
        None => match after_prefix(line, "warning"@) {
            Some(rest) => Some((DiagLevel::Warning, rest)),
            None => None,
        },
    }
}

/// An error code: `E` and one or more digits.
pub open spec fn error_code(s: Seq<char>) -> bool {
    s.len() > 0 && s[0] == 'E' && all_digits(s.skip(1))
}

/// The optional `[CODE]` at the start of `s`, and the rest; `None` if the
/// bracket does not close or holds no error code.
pub open spec fn code_and_rest(s: Seq<char>) -> Option<(Option<Seq<char>>, Seq<char>)> {
    match after_prefix(s, "["@) {
        Some(t) => match cut_at(t, ']') {
            Some((code, rest)) => if error_code(code) {
                Some((Some(code), rest))
            } else {
                None
            },
            None => None,
        },
        None => Some((None, s)),
    }
}

/// What a line that starts a diagnostic block says: `error` or `warning`, an
/// optional error code in brackets, `: ` and the message.
pub open spec fn header_of(line: Seq<char>) -> Option<HeaderView> {
    match level_and_rest(line) {
        Some((level, rest)) => match code_and_rest(rest) {
            Some((code, rest)) => match after_prefix(rest, ": "@) {
                Some(message) => Some(HeaderView { level, code, message }),
                None => None,
            },
            None => None,
        },
        None => None,
    }
}

/// The header of a diagnostic block.
#[derive(Debug)]
pub struct DiagHeader {
    pub level: DiagLevel,
    pub code: Option<String>,
    pub message: String,
}

impl DeepView for DiagHeader {
    type V = HeaderView;

    open spec fn deep_view(&self) -> HeaderView {
        HeaderView { level: self.level, code: self.code.deep_view(), message: self.message@ }
    }
}

fn is_error_code(s: &str) -> (r: bool)
    ensures
        r == error_code(s@),
{
    let cs = chars_of(s);
    if cs.len() < 2 || cs[0] != 'E' {
        return false;
    }
    let mut i: usize = 1;
    while i < cs.len()
        invariant
            cs@ == s@,
            1 <= i <= cs@.len(),
            forall|j: int| 1 <= j < i ==> digit_char(#[trigger] s@[j]),
        decreases cs@.len() - i,
    {
        if !('0' <= cs[i] && cs[i] <= '9') {
            proof {
                assert(!digit_char(s@.skip(1)[i - 1]));
            }
            return false;
        }
        i += 1;
    }
    true
}

/// The header, if `line` is the start of a new diagnostic block.
pub fn parse_diag_header(line: &str) -> (r: Option<DiagHeader>)
    ensures
        r.deep_view() == header_of(line@),
{
    let (level, rest): (DiagLevel, &str) = match strip_prefix(line, "error") {
        Some(rest) => (DiagLevel::Error, rest),
        None => match strip_prefix(line, "warning") {
            Some(rest) => (DiagLevel::Warning, rest),
            None => {
                return None;
            },
        },
    };
    let (code, rest): (Option<String>, &str) = match strip_prefix(rest, "[") {
        Some(t) => match split_once(t, ']') {
            Some((code, after)) => if is_error_code(code) {
                (Some(code.to_owned()), after)
            } else {
                return None;
            },
            None => {
                return None;
            },
        },
        None => (None, rest),
    };
    match strip_prefix(rest, ": ") {
        Some(message) => Some(DiagHeader { level, code, message: message.to_owned() }),
        None => None,
    }
}

/// File, line and column of a line like `   --> src/deflate.rs:908:17`.
pub open spec fn location_of(line: Seq<char>) -> Option<(Seq<char>, u32, u32)> {
    match after_prefix(trim_start_of(line), "--> "@) {
        Some(rest) => match cut_at(rest, ':') {
            Some((file, rest)) => match cut_at(rest, ':') {
                Some((ln, col)) => match (u32_of(ln), u32_of(trimmed(col))) {
                    (Some(ln), Some(col)) => if file.len() > 0 && !file.contains('\n') {
                        Some((file, ln, col))
                    } else {
                        None
                    },
                    _ => None,
                },
                None => None,
            },
            None => None,
        },
        None => None,
    }
}

/// Extract `(file, line, col)` from a rustc location line.
pub fn parse_location_line(line: &str) -> (r: Option<(String, u32, u32)>)
    ensures
        r.deep_view() == location_of(line@),
{
    let rest = match strip_prefix(trim_start(line), "--> ") {
        Some(rest) => rest,
        None => {
            return None;
        },
    };
    let (file, rest) = match split_once(rest, ':') {
        Some(p) => p,
        None => {
            return None;
        },
    };
    let (ln, col) = match split_once(rest, ':') {
        Some(p) => p,
        None => {
            return None;
        },
    };
    match (parse_u32(ln), parse_u32(trim(col))) {
        (Some(ln), Some(col)) => if file.is_empty() || contains_char(file, '\n') {
            None
        } else {
            Some((file.to_owned(), ln, col))
        },
        _ => None,
    }
}

// ---------------------------------------------------------------------------
// Blocks
// ---------------------------------------------------------------------------

/// A diagnostic block that is being read.
#[verifier::ext_equal]
pub ghost struct BlockView {
    pub header: Option<HeaderView>,
    pub lines: Seq<Seq<char>>,
    pub location: Option<(Seq<char>, u32, u32)>,
}

impl BlockView {
    pub open spec fn nothing() -> BlockView {
        BlockView { header: None, lines: seq![], location: None }
    }

    /// The diagnostic of a block that has a header and a location.
    pub open spec fn flushed(self) -> Seq<DiagnosticView> {
        match (self.header, self.location) {
            (Some(h), Some(loc)) => seq![
                DiagnosticView {
                    level: h.level,
                    code: h.code,
                    message: h.message,
                    file: loc.0,
                    line: loc.1,
                    col: loc.2,
                    full_text: joined(self.lines, "\n"@),
                },
            ],
            _ => seq![],
        }
    }

    /// The block with one more line; the first location counts.
    pub open spec fn with_line(self, line: Seq<char>) -> BlockView {
        BlockView {
            header: self.header,
            lines: self.lines.push(line),
            location: if self.location is Some {
                self.location
            } else {
                location_of(line)
            },
        }
    }
}

/// The diagnostics of `input`, read after the open block `open`. A summary line
/// ends the open block and belongs to none; a header line ends it and starts
/// the next.
pub open spec fn diagnostics_after(input: Seq<Seq<char>>, open: BlockView) -> Seq<DiagnosticView>
    decreases input.len(),
{
    if input.len() == 0 {
        open.flushed()
    } else if summary_line(input[0]) {
        open.flushed() + diagnostics_after(input.skip(1), BlockView::nothing())
    } else {
        match header_of(input[0]) {
            Some(h) => open.flushed() + diagnostics_after(
                input.skip(1),
                BlockView { header: Some(h), lines: seq![input[0]], location: None },
            ),
            None => diagnostics_after(input.skip(1), open.with_line(input[0])),
        }
    }
}

/// The diagnostics of a build output.
pub open spec fn diagnostics_of(output: Seq<char>) -> Seq<DiagnosticView> {
    diagnostics_after(lines_of(output), BlockView::nothing())
}

struct Block {
    header: Option<DiagHeader>,
    lines: Vec<String>,
    location: Option<(String, u32, u32)>,
}

impl DeepView for Block {
    type V = BlockView;

    closed spec fn deep_view(&self) -> BlockView {
        BlockView {
            header: self.header.deep_view(),
            lines: self.lines.deep_view(),
            location: self.location.deep_view(),
        }
    }
}

fn flush(block: Block, result: &mut Vec<Diagnostic>)
    ensures
        final(result).deep_view() == old(result).deep_view() + block.deep_view().flushed(),
{
    let ghost before = result.deep_view();
    let ghost view = block.deep_view();
    let Block { header, lines, location } = block;
    match (header, location) {
        (Some(h), Some(loc)) => {
            let full_text = join(lines.as_slice(), "\n");
            proof {
                assert(Seq::new(lines@.len(), |i: int| lines@[i]@) =~= lines.deep_view());
            }
            let d = Diagnostic {
                level: h.level,
                code: h.code,
                message: h.message,
                file: loc.0,
                line: loc.1,
                col: loc.2,
                full_text,
            };
            result.push(d);
            proof {
                assert(view.flushed() =~= seq![d.deep_view()]);
                assert(result.deep_view() =~= before + view.flushed());
            }
        },
        _ => {
            proof {
                assert(result.deep_view() =~= before + view.flushed());
            }
        },
    }
}

/// Walk all lines in the build output and produce a flat list of diagnostics.
pub fn parse_diagnostics(output: &str) -> (r: Vec<Diagnostic>)
    ensures
        r.deep_view() == diagnostics_of(output@),
{
    let all = lines(output);
    let ghost input = all.deep_view();
    let mut result: Vec<Diagnostic> = Vec::new();
    let mut open = Block { header: None, lines: Vec::new(), location: None };
    let mut i: usize = 0;
    proof {
        assert(open.deep_view() =~= BlockView::nothing());
        assert(input.skip(0) =~= input);
        assert(result.deep_view() + diagnostics_after(input, open.deep_view())
            =~= diagnostics_of(output@));
    }
    while i < all.len()
        invariant
            input == all.deep_view(),
            i <= all@.len(),
            result.deep_view() + diagnostics_after(input.skip(i as int), open.deep_view())
                == diagnostics_of(output@),
        decreases all@.len() - i,
    {
        let line = all[i].as_str();
        let ghost before = result.deep_view();
        let ghost was = open.deep_view();
        proof {
            assert(input.skip(i as int)[0] == line@);
            assert(input.skip(i as int).skip(1) =~= input.skip(i + 1));
        }
        if is_summary_line(line) {
            let next = Block { header: None, lines: Vec::new(), location: None };
            flush(open, &mut result);
            open = next;
            proof {
                assert(open.deep_view() =~= BlockView::nothing());
                let rest = diagnostics_after(input.skip(i + 1), open.deep_view());
                assert(result.deep_view() + rest =~= before + (was.flushed() + rest));
            }
        } else {
            match parse_diag_header(line) {
                Some(h) => {
                    let mut first: Vec<String> = Vec::new();
                    first.push(line.to_owned());
                    let next = Block { header: Some(h), lines: first, location: None };
                    flush(open, &mut result);
                    open = next;
                    proof {
                        assert(open.deep_view() =~= (BlockView {
                            header: Some(h.deep_view()),
                            lines: seq![line@],
                            location: None,
                        }));
                        let rest = diagnostics_after(input.skip(i + 1), open.deep_view());
                        assert(result.deep_view() + rest =~= before + (was.flushed() + rest));
                    }
                },
                None => {
                    let Block { header, mut lines, location } = open;
                    let location = match location {
                        Some(l) => Some(l),
                        None => parse_location_line(line),
                    };
                    lines.push(line.to_owned());
                    open = Block { header, lines, location };
                    proof {
                        assert(open.deep_view() =~= was.with_line(line@));
                    }
                },
            }
        }
        i += 1;
    }
    proof {
        assert(input.skip(i as int) =~= seq![]);
    }
    flush(open, &mut result);
    result
}

// ---------------------------------------------------------------------------
// Grouping
// ---------------------------------------------------------------------------

/// The diagnostics of one file and level, in order.
pub open spec fn of_file(diags: Seq<DiagnosticView>, file: Seq<char>, level: DiagLevel) -> Seq<
    DiagnosticView,
>
    decreases diags.len(),
{
    if diags.len() == 0 {
        seq![]
    } else {
        let rest = of_file(diags.drop_last(), file, level);
        if diags.last().file == file && diags.last().level == level {
            rest.push(diags.last())
        } else {
            rest
        }
    }
}

/// How many diagnostics have a level.
pub open spec fn level_count(diags: Seq<DiagnosticView>, level: DiagLevel) -> nat
    decreases diags.len(),
{
    if diags.len() == 0 {
        0
    } else {
        level_count(diags.drop_last(), level) + (if diags.last().level == level {
            1nat
        } else {
            0
        })
    }
}

/// The full texts, each followed by an empty line.
pub open spec fn texts_of(diags: Seq<DiagnosticView>) -> Seq<char>
    decreases diags.len(),
{
    if diags.len() == 0 {
        seq![]
    } else {
        texts_of(diags.drop_last()) + diags.last().full_text + "\n\n"@
    }
}

/// The text that the fixer is given for one file.
pub open spec fn errors_text_of(
    file: Seq<char>,
    errors: Seq<DiagnosticView>,
    warnings: Seq<DiagnosticView>,
) -> Seq<char> {
    "COMPILATION ERRORS FOR "@ + file + ":\n\n"@ + texts_of(errors) + (if warnings.len() > 0 {
        "WARNINGS FOR "@ + file + ":\n\n"@ + texts_of(warnings)
    } else {
        seq![]
    })
}

/// The report of one file.
pub open spec fn report_of(diags: Seq<DiagnosticView>, file: Seq<char>) -> FileErrorReportView {
    let errors = of_file(diags, file, DiagLevel::Error);
    let warnings = of_file(diags, file, DiagLevel::Warning);
    FileErrorReportView {
        file_path: file,
        error_count: errors.len(),
        warning_count: warnings.len(),
        errors_text: errors_text_of(file, errors, warnings),
    }
}

/// `a` is reported before `b`: more errors first, then alphabetical.
pub open spec fn reported_before(a: FileErrorReportView, b: FileErrorReportView) -> bool {
    a.error_count > b.error_count || (a.error_count == b.error_count && lex_lt(
        a.file_path,
        b.file_path,
    ))
}

/// A report for the path is among `reports`.
pub open spec fn has_report(reports: Seq<FileErrorReportView>, file: Seq<char>) -> bool {
    exists|i: int| 0 <= i < reports.len() && (#[trigger] reports[i]).file_path == file
}

/// `reports` reports exactly the files with an error among `diags`, each once,
/// in order.
pub open spec fn is_report_list(
    diags: Seq<DiagnosticView>,
    reports: Seq<FileErrorReportView>,
) -> bool {
    &&& forall|i: int|
        0 <= i < reports.len() ==> #[trigger] reports[i] == report_of(diags, reports[i].file_path)
            && reports[i].error_count > 0
    &&& forall|i: int|
        0 <= i < diags.len() && (#[trigger] diags[i]).level == DiagLevel::Error ==> has_report(
            reports,
            diags[i].file,
        )
    &&& forall|i: int, j: int|
        0 <= i < j < reports.len() ==> reported_before(#[trigger] reports[i], #[trigger] reports[j])
}

/// The positions of the diagnostics of one file and level.
pub fn select(diags: &Vec<Diagnostic>, file: &str, level: DiagLevel) -> (r: Vec<usize>)
    ensures
        Seq::new(r@.len(), |i: int| diags.deep_view()[r@[i] as int]) == of_file(
            diags.deep_view(),
            file@,
            level,
        ),
        forall|i: int| 0 <= i < r@.len() ==> (#[trigger] r@[i]) < diags@.len(),
        r@.len() <= diags@.len(),
{
    let ghost all = diags.deep_view();
    let mut out: Vec<usize> = Vec::new();
    let mut i: usize = 0;
    proof {
        assert(Seq::new(out@.len(), |k: int| all[out@[k] as int]) =~= of_file(
            all.take(0),
            file@,
            level,
        ));
    }
    while i < diags.len()
        invariant
            all == diags.deep_view(),
            i <= diags@.len(),
            out@.len() <= i,
            forall|k: int| 0 <= k < out@.len() ==> (#[trigger] out@[k]) < diags@.len(),
            Seq::new(out@.len(), |k: int| all[out@[k] as int]) == of_file(
                all.take(i as int),
                file@,
                level,
            ),
        decreases diags@.len() - i,
    {
        let ghost before = Seq::new(out@.len(), |k: int| all[out@[k] as int]);
        proof {
            assert(all.take(i + 1).drop_last() =~= all.take(i as int));
        }
        if diags[i].level == level && same(diags[i].file.as_str(), file) {
            out.push(i);
            proof {
                assert(Seq::new(out@.len(), |k: int| all[out@[k] as int]) =~= before.push(
                    all[i as int],
                ));
            }
        }
        i += 1;
    }
    proof {
        assert(all.take(i as int) =~= all);
    }
    out
}

fn push_texts(out: &mut String, diags: &Vec<Diagnostic>, picked: &Vec<usize>)
    requires
        forall|i: int| 0 <= i < picked@.len() ==> (#[trigger] picked@[i]) < diags@.len(),
    ensures
        final(out)@ == old(out)@ + texts_of(
            Seq::new(picked@.len(), |i: int| diags.deep_view()[picked@[i] as int]),
        ),
{
    let ghost all = Seq::new(picked@.len(), |i: int| diags.deep_view()[picked@[i] as int]);
    let ghost start = out@;
    let mut i: usize = 0;
    proof {
        assert(out@ =~= start + texts_of(all.take(0)));
    }
    while i < picked.len()
        invariant
            forall|i: int| 0 <= i < picked@.len() ==> (#[trigger] picked@[i]) < diags@.len(),
            all == Seq::new(picked@.len(), |i: int| diags.deep_view()[picked@[i] as int]),
            i <= picked@.len(),
            out@ == start + texts_of(all.take(i as int)),
        decreases picked@.len() - i,
    {
        let k: usize = picked[i];
        out.push_str(diags[k].full_text.as_str());
        out.push_str("\n\n");
        proof {
            assert(all.take(i + 1).drop_last() =~= all.take(i as int));
            assert(all.take(i + 1).last() == diags@[k as int].deep_view());
            assert(out@ =~= start + texts_of(all.take(i + 1)));
        }
        i += 1;
    }
    proof {
        assert(all.take(i as int) =~= all);
    }
}

/// The report of one file: its errors and warnings, formatted for the fixer.
pub fn report_file(diags: &Vec<Diagnostic>, file: &str) -> (r: FileErrorReport)
    ensures
        r.deep_view() == report_of(diags.deep_view(), file@),
{
    let errors = select(diags, file, DiagLevel::Error);
    let warnings = select(diags, file, DiagLevel::Warning);
    let ghost es = of_file(diags.deep_view(), file@, DiagLevel::Error);
    let ghost ws = of_file(diags.deep_view(), file@, DiagLevel::Warning);
    proof {
        assert(es.len() == errors@.len());
        assert(ws.len() == warnings@.len());
    }
    let mut text = "COMPILATION ERRORS FOR ".to_owned();
    text.push_str(file);
    text.push_str(":\n\n");
    push_texts(&mut text, diags, &errors);
    if warnings.len() > 0 {
        text.push_str("WARNINGS FOR ");
        text.push_str(file);
        text.push_str(":\n\n");
        push_texts(&mut text, diags, &warnings);
    }
    proof {
        assert(text@ =~= errors_text_of(file@, es, ws));
    }
    FileErrorReport {
        file_path: file.to_owned(),
        error_count: errors.len(),
        warning_count: warnings.len(),
        errors_text: text,
    }
}

fn is_before(a: &FileErrorReport, b: &FileErrorReport) -> (r: bool)
    ensures
        r == reported_before(a.deep_view(), b.deep_view()),
{
    a.error_count > b.error_count || (a.error_count == b.error_count && text_le(
        a.file_path.as_str(),
        b.file_path.as_str(),
    ) && !same(a.file_path.as_str(), b.file_path.as_str()))
}

fn is_reported(reports: &Vec<FileErrorReport>, file: &str) -> (r: bool)
    ensures
        r == has_report(reports.deep_view(), file@),
{
    let ghost all = reports.deep_view();
    let mut i: usize = 0;
    while i < reports.len()
        invariant
            all == reports.deep_view(),
            i <= reports@.len(),
            forall|j: int| 0 <= j < i ==> (#[trigger] all[j]).file_path != file@,
        decreases reports@.len() - i,
    {
        if same(reports[i].file_path.as_str(), file) {
            proof {
                assert(all[i as int].file_path == file@);
            }
            return true;
        }
        i += 1;
    }
    false
}

proof fn before_transitive(a: FileErrorReportView, b: FileErrorReportView, c: FileErrorReportView)
    requires
        reported_before(a, b),
        reported_before(b, c),
    ensures
        reported_before(a, c),
{
    if a.error_count == c.error_count {
        lex_transitive(a.file_path, b.file_path, c.file_path);
        if a.file_path == c.file_path {
            lex_antisymmetric(a.file_path, b.file_path);
        }
    }
}

proof fn before_total(a: FileErrorReportView, b: FileErrorReportView)
    requires
        a.file_path != b.file_path,
    ensures
        reported_before(a, b) || reported_before(b, a),
{
    lex_total(a.file_path, b.file_path);
}

proof fn has_error_count(diags: Seq<DiagnosticView>, i: int)
    requires
        0 <= i < diags.len(),
        diags[i].level == DiagLevel::Error,
    ensures
        of_file(diags, diags[i].file, DiagLevel::Error).len() > 0,
    decreases diags.len(),
{
    if i < diags.len() - 1 {
        has_error_count(diags.drop_last(), i);
    }
}

/// Puts a report into the list at its place.
fn insert_report(reports: &mut Vec<FileErrorReport>, report: FileErrorReport)
    requires
        forall|i: int, j: int|
            0 <= i < j < old(reports)@.len() ==> reported_before(
                #[trigger] old(reports).deep_view()[i],
                #[trigger] old(reports).deep_view()[j],
            ),
        !has_report(old(reports).deep_view(), report.file_path@),
    ensures
        exists|at: int|
            0 <= at <= old(reports)@.len() && final(reports).deep_view()
                == #[trigger] old(reports).deep_view().insert(at, report.deep_view()),
        forall|i: int, j: int|
            0 <= i < j < final(reports)@.len() ==> reported_before(
                #[trigger] final(reports).deep_view()[i],
                #[trigger] final(reports).deep_view()[j],
            ),
{
    let ghost all = reports.deep_view();
    let ghost new = report.deep_view();
    let mut n: usize = 0;
    while n < reports.len() && is_before(&reports[n], &report)
        invariant
            all == reports.deep_view(),
            new == report.deep_view(),
            n <= reports@.len(),
            forall|i: int| 0 <= i < n ==> reported_before(#[trigger] all[i], new),
        decreases reports@.len() - n,
    {
        n += 1;
    }
    proof {
        assert forall|i: int| n <= i < all.len() implies reported_before(
            new,
            #[trigger] all[i],
        ) by {
            assert(all[n as int].file_path != new.file_path);
            before_total(all[n as int], new);
            if i > n {
                assert(reported_before(all[n as int], all[i]));
                before_transitive(new, all[n as int], all[i]);
            }
        }
    }
    reports.insert(n, report);
    proof {
        let after = reports.deep_view();
        assert(after =~= all.insert(n as int, new));
        assert forall|i: int, j: int| 0 <= i < j < after.len() implies reported_before(
            #[trigger] after[i],
            #[trigger] after[j],
        ) by {
            let a = if i < n {
                all[i]
            } else {
                all[i - 1]
            };
            let b = if j < n {
                all[j]
            } else {
                all[j - 1]
            };
            assert(i != n ==> after[i] == a);
            assert(j != n ==> after[j] == b);
        }
    }
}

/// Groups diagnostics by file. Files with only warnings are not included in the
/// result; files with errors are included together with any warnings they also
/// carry.
pub fn group_by_file(diags: &Vec<Diagnostic>) -> (r: ErrorClassification)
    ensures
        is_report_list(diags.deep_view(), r.files.deep_view()),
        r.total_errors == level_count(diags.deep_view(), DiagLevel::Error),
        r.total_warnings == level_count(diags.deep_view(), DiagLevel::Warning),
{
    let ghost all = diags.deep_view();
    let mut files: Vec<FileErrorReport> = Vec::new();
    let mut total_errors: usize = 0;
    let mut total_warnings: usize = 0;
    let mut i: usize = 0;
    while i < diags.len()
        invariant
            all == diags.deep_view(),
            i <= diags@.len(),
            total_errors <= i,
            total_warnings <= i,
            total_errors == level_count(all.take(i as int), DiagLevel::Error),
            total_warnings == level_count(all.take(i as int), DiagLevel::Warning),
            forall|k: int|
                0 <= k < files@.len() ==> #[trigger] files.deep_view()[k] == report_of(
                    all,
                    files.deep_view()[k].file_path,
                ) && files.deep_view()[k].error_count > 0,
            forall|k: int|
                0 <= k < i && (#[trigger] all[k]).level == DiagLevel::Error ==> has_report(
                    files.deep_view(),
                    all[k].file,
                ),
            forall|k: int, j: int|
                0 <= k < j < files@.len() ==> reported_before(
                    #[trigger] files.deep_view()[k],
                    #[trigger] files.deep_view()[j],
                ),
        decreases diags@.len() - i,
    {
        proof {
            assert(all.take(i + 1).drop_last() =~= all.take(i as int));
        }
        if diags[i].level == DiagLevel::Error {
            total_errors += 1;
            let file = diags[i].file.as_str();
            if !is_reported(&files, file) {
                let report = report_file(diags, file);
                let ghost before = files.deep_view();
                let ghost new = report.deep_view();
                proof {
                    has_error_count(all, i as int);
                }
                insert_report(&mut files, report);
                proof {
                    let after = files.deep_view();
                    let at = choose|at: int|
                        0 <= at <= before.len() && after == #[trigger] before.insert(at, new);
                    assert forall|k: int| 0 <= k < after.len() implies #[trigger] after[k]
                        == report_of(all, after[k].file_path) && after[k].error_count > 0 by {
                        if k < at {
                            assert(after[k] == before[k]);
                        } else if k > at {
                            assert(after[k] == before[k - 1]);
                        }
                    }
                    assert forall|k: int|
                        0 <= k < i + 1 && (#[trigger] all[k]).level
                            == DiagLevel::Error implies has_report(after, all[k].file) by {
                        if k < i {
                            let m = choose|m: int|
                                0 <= m < before.len() && (#[trigger] before[m]).file_path
                                    == all[k].file;
                            assert(after[if m < at {
                                m
                            } else {
                                m + 1
                            }] == before[m]);
                        } else {
                            assert(after[at].file_path == all[k].file);
                        }
                    }
                }
            }
        } else {
            total_warnings += 1;
        }
        i += 1;
    }
    proof {
        assert(all.take(i as int) =~= all);
    }
    ErrorClassification { files, total_errors, total_warnings }
}

/// Parse `cargo build` / `cargo check` output and group diagnostics by file.
pub fn classify_errors(build_result: &BuildResult) -> (r: ErrorClassification)
    ensures
        is_report_list(diagnostics_of(build_result.combined_output@), r.files.deep_view()),
        r.total_errors == level_count(
            diagnostics_of(build_result.combined_output@),
            DiagLevel::Error,
        ),
        r.total_warnings == level_count(
            diagnostics_of(build_result.combined_output@),
            DiagLevel::Warning,
        ),
{
    let diags = parse_diagnostics(build_result.combined_output.as_str());
    group_by_file(&diags)
}

// ---------------------------------------------------------------------------
// Laws
// ---------------------------------------------------------------------------

/// Each report comes before those that follow it.
pub open spec fn in_report_order(reports: Seq<FileErrorReportView>) -> bool {
    forall|i: int, j: int|
        0 <= i < j < reports.len() ==> reported_before(#[trigger] reports[i], #[trigger] reports[j])
}

proof fn never_before_itself(a: FileErrorReportView, b: FileErrorReportView)
    ensures
        !(reported_before(a, b) && reported_before(b, a)),
{
    if reported_before(a, b) && reported_before(b, a) {
        lex_antisymmetric(a.file_path, b.file_path);
    }
}

proof fn ordered_lists_agree(a: Seq<FileErrorReportView>, b: Seq<FileErrorReportView>)
    requires
        in_report_order(a),
        in_report_order(b),
        forall|r: FileErrorReportView| a.contains(r) == #[trigger] b.contains(r),
    ensures
        a == b,
    decreases a.len(),
{
    if a.len() == 0 {
        if b.len() > 0 {
            assert(b.contains(b[0]));
        }
        assert(a =~= b);
    } else {
        assert(a.contains(a[0]));
        assert(b.contains(a[0]));
        let j = choose|j: int| 0 <= j < b.len() && b[j] == a[0];
        assert(b.contains(b[0]));
        assert(a.contains(b[0]));
        let i = choose|i: int| 0 <= i < a.len() && a[i] == b[0];
        if i > 0 && j > 0 {
            never_before_itself(a[0], a[i]);
        }
        assert(a[0] == b[0]);
        let x = a.skip(1);
        let y = b.skip(1);
        assert forall|r: FileErrorReportView| x.contains(r) == #[trigger] y.contains(r) by {
            if x.contains(r) {
                let k = choose|k: int| 0 <= k < x.len() && x[k] == r;
                assert(a[k + 1] == r);
                never_before_itself(a[0], r);
                assert(a.contains(r));
                assert(b.contains(r));
                let m = choose|m: int| 0 <= m < b.len() && b[m] == r;
                assert(m != 0);
                assert(y[m - 1] == r);
            }
            if y.contains(r) {
                let k = choose|k: int| 0 <= k < y.len() && y[k] == r;
                assert(b[k + 1] == r);
                never_before_itself(b[0], r);
                assert(b.contains(r));
                let m = choose|m: int| 0 <= m < a.len() && a[m] == r;
                assert(m != 0);
                assert(x[m - 1] == r);
            }
        }
        assert forall|k: int, m: int| 0 <= k < m < x.len() implies reported_before(
            #[trigger] x[k],
            #[trigger] x[m],
        ) by {
            assert(reported_before(a[k + 1], a[m + 1]));
        }
        assert forall|k: int, m: int| 0 <= k < m < y.len() implies reported_before(
            #[trigger] y[k],
            #[trigger] y[m],
        ) by {
            assert(reported_before(b[k + 1], b[m + 1]));
        }
        ordered_lists_agree(x, y);
        assert(a =~= seq![a[0]] + x);
        assert(b =~= seq![b[0]] + y);
    }
}

proof fn reported_file_has_an_error(diags: Seq<DiagnosticView>, file: Seq<char>)
    requires
        of_file(diags, file, DiagLevel::Error).len() > 0,
    ensures
        exists|i: int|
            0 <= i < diags.len() && (#[trigger] diags[i]).file == file && diags[i].level
                == DiagLevel::Error,
    decreases diags.len(),
{
    if diags.len() > 0 {
        let last = diags.len() - 1;
        if !(diags[last].file == file && diags[last].level == DiagLevel::Error) {
            let rest = diags.drop_last();
            reported_file_has_an_error(rest, file);
            let i = choose|i: int|
                0 <= i < rest.len() && (#[trigger] rest[i]).file == file && rest[i].level
                    == DiagLevel::Error;
            assert(diags[i] == rest[i]);
        }
    }
}

proof fn report_is_shared(
    diags: Seq<DiagnosticView>,
    a: Seq<FileErrorReportView>,
    b: Seq<FileErrorReportView>,
    r: FileErrorReportView,
)
    requires
        is_report_list(diags, a),
        is_report_list(diags, b),
        a.contains(r),
    ensures
        b.contains(r),
{
    let i = choose|i: int| 0 <= i < a.len() && a[i] == r;
    assert(a[i].error_count > 0);
    reported_file_has_an_error(diags, r.file_path);
    let k = choose|k: int|
        0 <= k < diags.len() && (#[trigger] diags[k]).file == r.file_path && diags[k].level
            == DiagLevel::Error;
    assert(has_report(b, diags[k].file));
    let j = choose|j: int| 0 <= j < b.len() && (#[trigger] b[j]).file_path == r.file_path;
    assert(b[j] == report_of(diags, r.file_path));
    assert(a[i] == report_of(diags, r.file_path));
}

/// The diagnostics determine the reports and their order.
pub proof fn reports_are_determined(
    diags: Seq<DiagnosticView>,
    a: Seq<FileErrorReportView>,
    b: Seq<FileErrorReportView>,
)
    requires
        is_report_list(diags, a),
        is_report_list(diags, b),
    ensures
        a == b,
{
    assert forall|r: FileErrorReportView| a.contains(r) == #[trigger] b.contains(r) by {
        if a.contains(r) {
            report_is_shared(diags, a, b, r);
        }
        if b.contains(r) {
            report_is_shared(diags, b, a, r);
        }
    }
    ordered_lists_agree(a, b);
}

/// The sum of the error counts of the reports.
pub open spec fn reported_errors(reports: Seq<FileErrorReportView>) -> nat
    decreases reports.len(),
{
    if reports.len() == 0 {
        0
    } else {
        reported_errors(reports.drop_last()) + reports.last().error_count
    }
}

/// How many of the errors among `diags` are in the files of `reports`.
spec fn errors_in(diags: Seq<DiagnosticView>, reports: Seq<FileErrorReportView>) -> nat
    decreases reports.len(),
{
    if reports.len() == 0 {
        0
    } else {
        errors_in(diags, reports.drop_last()) + of_file(
            diags,
            reports.last().file_path,
            DiagLevel::Error,
        ).len()
    }
}

spec fn paths_differ(reports: Seq<FileErrorReportView>) -> bool {
    forall|i: int, j: int|
        0 <= i < j < reports.len() ==> (#[trigger] reports[i]).file_path != (
        #[trigger] reports[j]).file_path
}

proof fn one_more_diagnostic(diags: Seq<DiagnosticView>, reports: Seq<FileErrorReportView>)
    requires
        diags.len() > 0,
        paths_differ(reports),
    ensures
        errors_in(diags, reports) == errors_in(diags.drop_last(), reports) + (if diags.last().level
            == DiagLevel::Error && has_report(reports, diags.last().file) {
            1nat
        } else {
            0
        }),
    decreases reports.len(),
{
    if reports.len() > 0 {
        let rest = reports.drop_last();
        let file = diags.last().file;
        assert forall|i: int, j: int| 0 <= i < j < rest.len() implies (
        #[trigger] rest[i]).file_path != (#[trigger] rest[j]).file_path by {
            assert(reports[i].file_path != reports[j].file_path);
        }
        one_more_diagnostic(diags, rest);
        if has_report(rest, file) {
            let i = choose|i: int| 0 <= i < rest.len() && (#[trigger] rest[i]).file_path == file;
            assert(reports[i].file_path == file);
            assert(reports[i].file_path != reports[reports.len() - 1].file_path);
        }
        if has_report(reports, file) && reports.last().file_path != file {
            let i = choose|i: int|
                0 <= i < reports.len() && (#[trigger] reports[i]).file_path == file;
            assert(rest[i].file_path == file);
        }
        if reports.last().file_path == file {
            assert(reports[reports.len() - 1].file_path == file);
        }
    }
}

proof fn no_diagnostics_no_errors(reports: Seq<FileErrorReportView>)
    ensures
        errors_in(seq![], reports) == 0,
    decreases reports.len(),
{
    if reports.len() > 0 {
        no_diagnostics_no_errors(reports.drop_last());
    }
}

proof fn errors_are_in_reports(diags: Seq<DiagnosticView>, reports: Seq<FileErrorReportView>)
    requires
        paths_differ(reports),
        forall|i: int|
            0 <= i < diags.len() && (#[trigger] diags[i]).level == DiagLevel::Error ==> has_report(
                reports,
                diags[i].file,
            ),
    ensures
        errors_in(diags, reports) == level_count(diags, DiagLevel::Error),
    decreases diags.len(),
{
    if diags.len() == 0 {
        assert(diags =~= seq![]);
        no_diagnostics_no_errors(reports);
    } else {
        let rest = diags.drop_last();
        assert forall|i: int|
            0 <= i < rest.len() && (#[trigger] rest[i]).level == DiagLevel::Error implies has_report(
            reports,
            rest[i].file,
        ) by {
            assert(diags[i] == rest[i]);
        }
        errors_are_in_reports(rest, reports);
        one_more_diagnostic(diags, reports);
        assert(diags[diags.len() - 1] == diags.last());
    }
}

proof fn counts_add_up(diags: Seq<DiagnosticView>, reports: Seq<FileErrorReportView>)
    requires
        forall|i: int|
            0 <= i < reports.len() ==> #[trigger] reports[i] == report_of(
                diags,
                reports[i].file_path,
            ),
    ensures
        reported_errors(reports) == errors_in(diags, reports),
    decreases reports.len(),
{
    if reports.len() > 0 {
        let rest = reports.drop_last();
        assert forall|i: int| 0 <= i < rest.len() implies #[trigger] rest[i] == report_of(
            diags,
            rest[i].file_path,
        ) by {
            assert(reports[i] == rest[i]);
        }
        counts_add_up(diags, rest);
        assert(reports[reports.len() - 1] == reports.last());
    }
}

/// The error counts of the reports add up to the number of errors: each error
/// is in the report of one file.
pub proof fn every_error_is_reported_once(
    diags: Seq<DiagnosticView>,
    reports: Seq<FileErrorReportView>,
)
    requires
        is_report_list(diags, reports),
    ensures
        reported_errors(reports) == level_count(diags, DiagLevel::Error),
{
    assert forall|i: int, j: int| 0 <= i < j < reports.len() implies (
    #[trigger] reports[i]).file_path != (#[trigger] reports[j]).file_path by {
        assert(reported_before(reports[i], reports[j]));
        assert(reports[i] == report_of(diags, reports[i].file_path));
        assert(reports[j] == report_of(diags, reports[j].file_path));
    }
    errors_are_in_reports(diags, reports);
    counts_add_up(diags, reports);
}

} // verus!
