//! What cargo prints with `--message-format=json`, read by `cargo_metadata`.
use crate::cargo_output::CargoMessage::{Artifact, Diagnostic, Finished, Other, Unreadable};
use cargo_metadata::Message::{self, BuildFinished, CompilerArtifact, CompilerMessage};
use std::iter::once;
use vstd::prelude::*;

verus! {

/// A span of source text: its file; the first line, the last line, the first
/// and the last column; the first and the last byte; and whether the
/// diagnostic points at it first of all.
pub type MessageSpan = (String, usize, usize, usize, usize, u32, u32, bool);

/// What a diagnostic or one of its notes says: the name of its level (`Ice`,
/// `Error`, `Warning`, `FailureNote`, `Note` or `Help`), the message, and the
/// spans.
pub type MessagePart = (String, String, Vec<MessageSpan>);

/// One line of cargo's output.
#[derive(Debug, PartialEq, Eq)]
pub enum CargoMessage {
    /// A diagnostic of the compiler followed by its notes, the error code, and
    /// the text as rustc renders it.
    Diagnostic(Vec<MessagePart>, Option<String>, Option<String>),
    /// The files of a compiled target.
    Artifact(Vec<String>),
    /// The build ended, with success or not.
    Finished(bool),
    /// A build script or a line of plain text.
    Other,
    /// A line that is not UTF-8.
    Unreadable,
}

/// The messages that `cargo_metadata` reads from `stdout`.
pub uninterp spec fn cargo_messages(stdout: Seq<u8>) -> Seq<CargoMessage>;

/// `cargo_metadata::Message::parse_stream` reads one message per line. The
/// result is a function of the bytes; which line reads as which message is left
/// to that crate.
#[verifier::external_body]
pub(crate) fn parse_stream(stdout: &[u8]) -> (r: Vec<CargoMessage>)
    ensures
        r@ == cargo_messages(stdout@),
{
    Message::parse_stream(stdout).map(|m| m.map_or(Unreadable, |m| match m {
        CompilerMessage(c) => Diagnostic(
            once(c.message.clone()).chain(c.message.children).map(|d| (
                format!("{:?}", d.level),
                d.message,
                d.spans.into_iter().map(|s| (s.file_name, s.line_start, s.line_end,
                    s.column_start, s.column_end, s.byte_start, s.byte_end, s.is_primary)).collect()
            )).collect(),
            c.message.code.map(|c| c.code),
            c.message.rendered
        ),
        CompilerArtifact(a) => Artifact(a.filenames.into_iter().map(String::from).collect()),
        BuildFinished(b) => Finished(b.success),
        _ => Other
    })).collect()
}

/// Why the output of cargo cannot be read.
#[derive(Debug, Clone, Copy, PartialEq, Eq, Structural)]
pub enum OutputError {
    /// A line of the standard output cannot be read.
    Unreadable,
    /// The standard error is not UTF-8.
    NotUtf8,
}

/// Every line of the output was read.
pub open spec fn all_read(messages: Seq<CargoMessage>) -> bool {
    forall|i: int| 0 <= i < messages.len() ==> !(#[trigger] messages[i] is Unreadable)
}

} // verus!
