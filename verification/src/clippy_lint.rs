//! Reads the outcome of `cargo clippy` and of `cargo clippy --fix`.
use crate::cargo_output::{
    all_read, cargo_messages, parse_stream, CargoMessage, MessagePart, OutputError,
};
use crate::text::{from_utf8_lossy, join, joined, lossy_text};
use vstd::prelude::*;

verus! {

/// The lint tool.
pub struct TryClippyLint;

/// The messages of the linter, or the text of its errors.
pub type LintResult = Result<Vec<String>, String>;

/// What the linter made of a project.
#[derive(Debug)]
pub struct ClippyLintResult {
    pub result: LintResult,
}

/// The view of what the linter made of a project.
pub open spec fn lint_view(r: LintResult) -> Result<Seq<Seq<char>>, Seq<char>> {
    match r {
        Ok(v) => Ok(v.deep_view()),
        Err(e) => Err(e@),
    }
}

/// The text of a diagnostic as the compiler renders it.
pub open spec fn rendered_text(rendered: Option<String>) -> Seq<char> {
    match rendered {
        Some(text) => text@,
        None => "cargo didn't render this message"@,
    }
}

/// The rendered diagnostics, each behind a heading.
pub open spec fn linter_texts(messages: Seq<CargoMessage>) -> Seq<Seq<char>>
    decreases messages.len(),
{
    if messages.len() == 0 {
        seq![]
    } else {
        let rest = linter_texts(messages.drop_last());
        match messages.last() {
            CargoMessage::Diagnostic(_, _, rendered) => rest.push(
                "Linter Message: "@ + rendered_text(rendered),
            ),
            _ => rest,
        }
    }
}

/// The message of a diagnostic.
pub open spec fn message_of(parts: Seq<MessagePart>) -> Seq<char> {
    if parts.len() > 0 {
        parts[0].1@
    } else {
        seq![]
    }
}

/// The messages of the diagnostics.
pub open spec fn said(messages: Seq<CargoMessage>) -> Seq<Seq<char>>
    decreases messages.len(),
{
    if messages.len() == 0 {
        seq![]
    } else {
        let rest = said(messages.drop_last());
        match messages.last() {
            CargoMessage::Diagnostic(parts, _, _) => rest.push(message_of(parts@)),
            _ => rest,
        }
    }
}

/// The errors of a run: its rendered diagnostics, then its standard error.
pub open spec fn lint_errors(messages: Seq<CargoMessage>, stderr: Seq<u8>) -> Seq<char> {
    joined(linter_texts(messages), "\n"@) + "\n"@ + lossy_text(stderr)
}

fn every_line_read(messages: &Vec<CargoMessage>) -> (r: bool)
    ensures
        r == all_read(messages@),
{
    let mut i: usize = 0;
    while i < messages.len()
        invariant
            i <= messages@.len(),
            forall|j: int| 0 <= j < i ==> !(#[trigger] messages@[j] is Unreadable),
        decreases messages@.len() - i,
    {
        match messages[i] {
            CargoMessage::Unreadable => {
                return false;
            },
            _ => {},
        }
        i += 1;
    }
    true
}

/// The rendered diagnostics of a run, one after another.
pub fn join_linter_messages(messages: &Vec<CargoMessage>) -> (r: Result<String, OutputError>)
    ensures
        match r {
            Ok(text) => all_read(messages@) && text@ == joined(linter_texts(messages@), "\n"@),
            Err(e) => !all_read(messages@) && e == OutputError::Unreadable,
        },
{
    if !every_line_read(messages) {
        return Err(OutputError::Unreadable);
    }
    let ghost all = messages@;
    let mut texts: Vec<String> = Vec::new();
    let mut i: usize = 0;
    proof {
        assert(texts.deep_view() =~= linter_texts(all.take(0)));
    }
    while i < messages.len()
        invariant
            all == messages@,
            i <= all.len(),
            texts.deep_view() == linter_texts(all.take(i as int)),
        decreases all.len() - i,
    {
        let ghost before = texts.deep_view();
        proof {
            assert(all.take(i + 1).drop_last() =~= all.take(i as int));
        }
        match &messages[i] {
            CargoMessage::Diagnostic(_, _, rendered) => {
                let mut text = "Linter Message: ".to_owned();
                match rendered {
                    Some(shown) => {
                        text.push_str(shown.as_str());
                    },
                    None => {
                        text.push_str("cargo didn't render this message");
                    },
                }
                texts.push(text);
                proof {
                    assert(texts.deep_view() =~= before.push(text@));
                }
            },
            _ => {},
        }
        i += 1;
    }
    proof {
        assert(all.take(i as int) =~= all);
        assert(Seq::new(texts@.len(), |k: int| texts@[k]@) =~= texts.deep_view());
    }
    Ok(join(texts.as_slice(), "\n"))
}

/// The messages of the diagnostics of a run.
pub fn collect_linter_messages(messages: &Vec<CargoMessage>) -> (r: Result<
    Vec<String>,
    OutputError,
>)
    ensures
        match r {
            Ok(list) => all_read(messages@) && list.deep_view() == said(messages@),
            Err(e) => !all_read(messages@) && e == OutputError::Unreadable,
        },
{
    if !every_line_read(messages) {
        return Err(OutputError::Unreadable);
    }
    let ghost all = messages@;
    let mut out: Vec<String> = Vec::new();
    let mut i: usize = 0;
    proof {
        assert(out.deep_view() =~= said(all.take(0)));
    }
    while i < messages.len()
        invariant
            all == messages@,
            i <= all.len(),
            out.deep_view() == said(all.take(i as int)),
        decreases all.len() - i,
    {
        let ghost before = out.deep_view();
        proof {
            assert(all.take(i + 1).drop_last() =~= all.take(i as int));
        }
        match &messages[i] {
            CargoMessage::Diagnostic(parts, _, _) => {
                let text = if parts.len() > 0 {
                    parts[0].1.as_str().to_owned()
                } else {
                    String::new()
                };
                proof {
                    assert(text@ =~= message_of(parts@));
                }
                out.push(text);
                proof {
                    assert(out.deep_view() =~= before.push(text@));
                }
            },
            _ => {},
        }
        i += 1;
    }
    proof {
        assert(all.take(i as int) =~= all);
    }
    Ok(out)
}

/// Reads the standard output of a run and concatenates its diagnostics.
pub fn parse_linter_messages(stdout: &[u8]) -> (r: Result<String, OutputError>)
    ensures
        match r {
            Ok(text) => all_read(cargo_messages(stdout@)) && text@ == joined(
                linter_texts(cargo_messages(stdout@)),
                "\n"@,
            ),
            Err(e) => !all_read(cargo_messages(stdout@)) && e == OutputError::Unreadable,
        },
{
    join_linter_messages(&parse_stream(stdout))
}

/// Reads the standard output of a run and collects the messages of its
/// diagnostics.
pub fn parse_linted_artifacts(stdout: &[u8]) -> (r: Result<Vec<String>, OutputError>)
    ensures
        match r {
            Ok(list) => all_read(cargo_messages(stdout@)) && list.deep_view() == said(
                cargo_messages(stdout@),
            ),
            Err(e) => !all_read(cargo_messages(stdout@)) && e == OutputError::Unreadable,
        },
{
    collect_linter_messages(&parse_stream(stdout))
}

/// One run of the linter.
#[derive(Debug)]
pub struct ClippyRun {
    pub success: bool,
    pub stdout: Vec<u8>,
    pub stderr: Vec<u8>,
}

impl ClippyRun {
    /// What was read from the standard output.
    pub open spec fn messages(self) -> Seq<CargoMessage> {
        cargo_messages(self.stdout@)
    }
}

/// The errors of a run: its rendered diagnostics, then its standard error.
pub fn clippy_error_output(run: &ClippyRun) -> (r: Result<LintResult, OutputError>)
    ensures
        match r {
            Ok(lint) => all_read(run.messages()) && lint_view(lint)
                == Err::<Seq<Seq<char>>, Seq<char>>(lint_errors(run.messages(), run.stderr@)),
            Err(e) => !all_read(run.messages()) && e == OutputError::Unreadable,
        },
{
    let stderr = from_utf8_lossy(run.stderr.as_slice());
    match parse_linter_messages(run.stdout.as_slice()) {
        Ok(text) => {
            let mut text = text;
            text.push_str("\n");
            text.push_str(stderr.as_str());
            Ok(Err(text))
        },
        Err(e) => Err(e),
    }
}

/// What follows the first run of the linter.
#[derive(Debug)]
pub enum LintStep {
    /// The project passed.
    Passed(Vec<String>),
    /// The linter is to be run again, with `--fix`.
    Fix,
}

/// What follows the first run: a project that passes is done, any other is to
/// be fixed.
pub fn after_check(run: &ClippyRun) -> (r: Result<LintStep, OutputError>)
    ensures
        match r {
            Ok(LintStep::Passed(list)) => run.success && all_read(run.messages())
                && list.deep_view() == said(run.messages()),
            Ok(LintStep::Fix) => !run.success,
            Err(e) => run.success && !all_read(run.messages()) && e == OutputError::Unreadable,
        },
{
    if run.success {
        match parse_linted_artifacts(run.stdout.as_slice()) {
            Ok(list) => Ok(LintStep::Passed(list)),
            Err(e) => Err(e),
        }
    } else {
        Ok(LintStep::Fix)
    }
}

/// What the run with `--fix` amounts to: the messages of the first run if the
/// fixes were made, else the errors of the second.
pub fn after_fix(check: &ClippyRun, fix: &ClippyRun) -> (r: Result<LintResult, OutputError>)
    ensures
        match r {
            Ok(lint) => if fix.success {
                all_read(check.messages()) && lint_view(lint) == Ok::<Seq<Seq<char>>, Seq<char>>(
                    said(check.messages()),
                )
            } else {
                all_read(fix.messages()) && lint_view(lint) == Err::<Seq<Seq<char>>, Seq<char>>(
                    lint_errors(fix.messages(), fix.stderr@),
                )
            },
            Err(e) => e == OutputError::Unreadable && !all_read(
                if fix.success {
                    check.messages()
                } else {
                    fix.messages()
                },
            ),
        },
{
    if fix.success {
        match parse_linted_artifacts(check.stdout.as_slice()) {
            Ok(list) => Ok(Ok(list)),
            Err(e) => Err(e),
        }
    } else {
        clippy_error_output(fix)
    }
}

/// One indented line per text.
pub open spec fn indented_lines(texts: Seq<Seq<char>>) -> Seq<char>
    decreases texts.len(),
{
    if texts.len() == 0 {
        seq![]
    } else {
        indented_lines(texts.drop_last()) + "    "@ + texts.last() + "\n"@
    }
}

impl ClippyLintResult {
    /// The outcome as text.
    pub open spec fn description(self) -> Seq<char> {
        "Linter output artifact:\n"@ + match lint_view(self.result) {
            Err(e) => "  Linter failed: "@ + e + "\n"@,
            Ok(list) => "  Linter passed. Linter output:\n"@ + indented_lines(list),
        }
    }

    /// The outcome as text: what the linter said, or its errors.
    pub fn describe(&self) -> (r: String)
        ensures
            r@ == self.description(),
    {
        let mut out = String::new();
        out.push_str("Linter output artifact:\n");
        match &self.result {
            Err(e) => {
                out.push_str("  Linter failed: ");
                out.push_str(e.as_str());
                out.push_str("\n");
            },
            Ok(list) => {
                out.push_str("  Linter passed. Linter output:\n");
                let ghost head = out@;
                let ghost all = list.deep_view();
                let mut i: usize = 0;
                while i < list.len()
                    invariant
                        all == list.deep_view(),
                        i <= list@.len(),
                        out@ == head + indented_lines(all.take(i as int)),
                    decreases list@.len() - i,
                {
                    proof {
                        assert(all.take(i + 1).drop_last() =~= all.take(i as int));
                    }
                    out.push_str("    ");
                    out.push_str(list[i].as_str());
                    out.push_str("\n");
                    proof {
                        assert(out@ =~= head + indented_lines(all.take(i + 1)));
                    }
                    i += 1;
                }
                proof {
                    assert(all.take(i as int) =~= all);
                }
            },
        }
        proof {
            assert(out@ =~= self.description());
        }
        out
    }
}

} // verus!
