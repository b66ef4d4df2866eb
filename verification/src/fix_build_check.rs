//! Structured diagnostics of a build: errors and warnings with the locations of
//! their notes.
use crate::cargo_output::{cargo_messages, parse_stream, CargoMessage, MessagePart, MessageSpan};
use crate::text::{decimal, decimal_of, same};
use vstd::prelude::*;

verus! {

/// Severity level of a rustc diagnostic.
#[derive(Debug, Clone, Copy, PartialEq, Eq, Structural)]
pub enum DiagLevel {
    Error,
    Warning,
}

/// Level of a child note or suggestion within a parent diagnostic.
#[derive(Debug, Clone, Copy, PartialEq, Eq, Structural)]
pub enum RelatedLevel {
    Note,
    Help,
}

/// A child note or help span attached to a parent [`Diagnostic`].
#[derive(Debug)]
pub struct RelatedSpan {
    pub level: RelatedLevel,
    /// Short message, e.g. `"immutable borrow occurs here"`.
    pub message: String,
    /// Source file referenced by this note, e.g. `"src/lib.rs"`.
    pub file: String,
    pub line_start: u32,
    pub line_end: u32,
    pub col_start: u32,
    pub col_end: u32,
}

/// A single rustc diagnostic (error or warning) with its full rendered text.
#[derive(Debug)]
pub struct Diagnostic {
    pub level: DiagLevel,
    /// Error code, e.g. `"E0308"`. `None` if the diagnostic has no code.
    pub code: Option<String>,
    /// Short message, e.g. `"mismatched types"`.
    pub message: String,
    /// Source file that owns this diagnostic, e.g. `"src/lib.rs"`.
    pub file: String,
    /// 1-indexed start line of the primary span.
    pub line_start: u32,
    /// 1-indexed end line of the primary span.
    pub line_end: u32,
    /// 1-indexed start column of the primary span.
    pub col_start: u32,
    /// 1-indexed end column of the primary span.
    pub col_end: u32,
    /// Complete rendered diagnostic block.
    pub full_text: String,
    /// Structured locations of child note/help spans.
    pub related_spans: Vec<RelatedSpan>,
}

/// Result of a build attempt on a split package.
#[derive(Debug)]
pub struct RawBuildResult {
    /// `true` if `cargo build` exited successfully (exit code 0).
    pub success: bool,
    /// All error- and warning-level diagnostics emitted by rustc.
    pub diagnostics: Vec<Diagnostic>,
}

#[verifier::ext_equal]
pub ghost struct RelatedSpanView {
    pub level: RelatedLevel,
    pub message: Seq<char>,
    pub file: Seq<char>,
    pub line_start: u32,
    pub line_end: u32,
    pub col_start: u32,
    pub col_end: u32,
}

impl DeepView for RelatedSpan {
    type V = RelatedSpanView;

    open spec fn deep_view(&self) -> RelatedSpanView {
        RelatedSpanView {
            level: self.level,
            message: self.message@,
            file: self.file@,
            line_start: self.line_start,
            line_end: self.line_end,
            col_start: self.col_start,
            col_end: self.col_end,
        }
    }
}

#[verifier::ext_equal]
pub ghost struct DiagnosticView {
    pub level: DiagLevel,
    pub code: Option<Seq<char>>,
    pub message: Seq<char>,
    pub file: Seq<char>,
    pub line_start: u32,
    pub line_end: u32,
    pub col_start: u32,
    pub col_end: u32,
    pub full_text: Seq<char>,
    pub related_spans: Seq<RelatedSpanView>,
}

impl DeepView for Diagnostic {
    type V = DiagnosticView;

    open spec fn deep_view(&self) -> DiagnosticView {
        DiagnosticView {
            level: self.level,
            code: self.code.deep_view(),
            message: self.message@,
            file: self.file@,
            line_start: self.line_start,
            line_end: self.line_end,
            col_start: self.col_start,
            col_end: self.col_end,
            full_text: self.full_text@,
            related_spans: self.related_spans.deep_view(),
        }
    }
}

// ---------------------------------------------------------------------------
// Reading messages
// ---------------------------------------------------------------------------

/// The level of a diagnostic that is kept: internal compiler errors are errors,
/// and anything that is neither an error nor a warning is dropped.
pub open spec fn kept_level(name: Seq<char>) -> Option<DiagLevel> {
    if name == "Error"@ || name == "Ice"@ {
        Some(DiagLevel::Error)
    } else if name == "Warning"@ {
        Some(DiagLevel::Warning)
    } else {
        None
    }
}

/// The level of a note that is kept.
pub open spec fn note_level(name: Seq<char>) -> Option<RelatedLevel> {
    if name == "Note"@ {
        Some(RelatedLevel::Note)
    } else if name == "Help"@ {
        Some(RelatedLevel::Help)
    } else {
        None
    }
}

/// The position of the first primary span at or after `i`, or the length.
pub open spec fn primary_from(spans: Seq<MessageSpan>, i: int) -> int
    decreases spans.len() - i,
{
    if i >= spans.len() || spans[i].7 {
        i
    } else {
        primary_from(spans, i + 1)
    }
}

/// The location that a note gives: its first primary span, or its first span.
pub open spec fn related_of(part: MessagePart) -> Option<RelatedSpanView> {
    match note_level(part.0@) {
        Some(level) => {
            let k = primary_from(part.2@, 0);
            let i = if k < part.2@.len() {
                k
            } else {
                0
            };
            if i < part.2@.len() {
                let s = part.2@[i];
                Some(
                    RelatedSpanView {
                        level,
                        message: part.1@,
                        file: s.0@,
                        line_start: s.1 as u32,
                        line_end: s.2 as u32,
                        col_start: s.3 as u32,
                        col_end: s.4 as u32,
                    },
                )
            } else {
                None
            }
        },
        None => None,
    }
}

/// The locations that the notes give, in order.
pub open spec fn related_all(notes: Seq<MessagePart>) -> Seq<RelatedSpanView>
    decreases notes.len(),
{
    if notes.len() == 0 {
        seq![]
    } else {
        let rest = related_all(notes.drop_last());
        match related_of(notes.last()) {
            Some(s) => rest.push(s),
            None => rest,
        }
    }
}

/// The diagnostic that a message of cargo carries, if it is one that is kept
/// and has a primary span.
pub open spec fn diagnostic_of(m: CargoMessage) -> Option<DiagnosticView> {
    match m {
        CargoMessage::Diagnostic(parts, code, rendered) => if parts@.len() == 0 {
            None
        } else {
            let head = parts@[0];
            let k = primary_from(head.2@, 0);
            match kept_level(head.0@) {
                Some(level) => if k < head.2@.len() {
                    let s = head.2@[k];
                    Some(
                        DiagnosticView {
                            level,
                            code: code.deep_view(),
                            message: head.1@,
                            file: s.0@,
                            line_start: s.1 as u32,
                            line_end: s.2 as u32,
                            col_start: s.3 as u32,
                            col_end: s.4 as u32,
                            full_text: match rendered {
                                Some(t) => t@,
                                None => head.1@,
                            },
                            related_spans: related_all(parts@.skip(1)),
                        },
                    )
                } else {
                    None
                },
                None => None,
            }
        },
        _ => None,
    }
}

/// The diagnostics that the messages of cargo carry, in order.
pub open spec fn diagnostics_in(messages: Seq<CargoMessage>) -> Seq<DiagnosticView>
    decreases messages.len(),
{
    if messages.len() == 0 {
        seq![]
    } else {
        let rest = diagnostics_in(messages.drop_last());
        match diagnostic_of(messages.last()) {
            Some(d) => rest.push(d),
            None => rest,
        }
    }
}

/// The position of the first primary span.
pub fn find_primary(spans: &Vec<MessageSpan>) -> (r: usize)
    ensures
        r == primary_from(spans@, 0),
        r <= spans@.len(),
{
    let mut i: usize = 0;
    while i < spans.len() && !spans[i].7
        invariant
            i <= spans@.len(),
            primary_from(spans@, i as int) == primary_from(spans@, 0),
        decreases spans@.len() - i,
    {
        i += 1;
    }
    i
}

/// The level of a diagnostic that is kept.
pub fn read_level(name: &str) -> (r: Option<DiagLevel>)
    ensures
        r == kept_level(name@),
{
    if same(name, "Error") || same(name, "Ice") {
        Some(DiagLevel::Error)
    } else if same(name, "Warning") {
        Some(DiagLevel::Warning)
    } else {
        None
    }
}

fn read_note(part: &MessagePart) -> (r: Option<RelatedSpan>)
    ensures
        r.deep_view() == related_of(*part),
{
    let level = if same(part.0.as_str(), "Note") {
        RelatedLevel::Note
    } else if same(part.0.as_str(), "Help") {
        RelatedLevel::Help
    } else {
        return None;
    };
    let k: usize = find_primary(&part.2);
    let i: usize = if k < part.2.len() {
        k
    } else {
        0
    };
    if i < part.2.len() {
        let s = &part.2[i];
        Some(
            RelatedSpan {
                level,
                message: part.1.as_str().to_owned(),
                file: s.0.as_str().to_owned(),
                line_start: #[verifier::truncate] (s.1 as u32),
                line_end: #[verifier::truncate] (s.2 as u32),
                col_start: #[verifier::truncate] (s.3 as u32),
                col_end: #[verifier::truncate] (s.4 as u32),
            },
        )
    } else {
        None
    }
}

fn read_notes(parts: &Vec<MessagePart>) -> (r: Vec<RelatedSpan>)
    requires
        parts@.len() > 0,
    ensures
        r.deep_view() == related_all(parts@.skip(1)),
{
    let ghost notes = parts@.skip(1);
    let mut out: Vec<RelatedSpan> = Vec::new();
    let mut i: usize = 1;
    proof {
        assert(out.deep_view() =~= related_all(notes.take(0)));
    }
    while i < parts.len()
        invariant
            notes == parts@.skip(1),
            1 <= i <= parts@.len(),
            out.deep_view() == related_all(notes.take(i - 1)),
        decreases parts@.len() - i,
    {
        let ghost before = out.deep_view();
        proof {
            assert(notes.take(i as int).drop_last() =~= notes.take(i - 1));
            assert(notes.take(i as int).last() == parts@[i as int]);
        }
        match read_note(&parts[i]) {
            Some(s) => {
                out.push(s);
                proof {
                    assert(out.deep_view() =~= before.push(s.deep_view()));
                }
            },
            None => {},
        }
        i += 1;
    }
    proof {
        assert(notes.take(i - 1) =~= notes);
    }
    out
}

/// The diagnostic that a message of cargo carries.
pub fn read_diagnostic(message: &CargoMessage) -> (r: Option<Diagnostic>)
    ensures
        r.deep_view() == diagnostic_of(*message),
{
    let (parts, code, rendered) = match message {
        CargoMessage::Diagnostic(p, c, t) => (p, c, t),
        _ => {
            return None;
        },
    };
    if parts.len() == 0 {
        return None;
    }
    let head = &parts[0];
    let level = match read_level(head.0.as_str()) {
        Some(l) => l,
        None => {
            return None;
        },
    };
    let k: usize = find_primary(&head.2);
    if k >= head.2.len() {
        return None;
    }
    let s = &head.2[k];
    let full_text = match rendered {
        Some(t) => t.as_str().to_owned(),
        None => head.1.as_str().to_owned(),
    };
    Some(
        Diagnostic {
            level,
            code: match code {
                Some(c) => Some(c.as_str().to_owned()),
                None => None,
            },
            message: head.1.as_str().to_owned(),
            file: s.0.as_str().to_owned(),
            line_start: #[verifier::truncate] (s.1 as u32),
            line_end: #[verifier::truncate] (s.2 as u32),
            col_start: #[verifier::truncate] (s.3 as u32),
            col_end: #[verifier::truncate] (s.4 as u32),
            full_text,
            related_spans: read_notes(parts),
        },
    )
}

/// The errors and warnings among the messages of cargo.
pub fn diagnostics_from_messages(messages: &Vec<CargoMessage>) -> (r: Vec<Diagnostic>)
    ensures
        r.deep_view() == diagnostics_in(messages@),
{
    let ghost all = messages@;
    let mut out: Vec<Diagnostic> = Vec::new();
    let mut i: usize = 0;
    proof {
        assert(out.deep_view() =~= diagnostics_in(all.take(0)));
    }
    while i < messages.len()
        invariant
            all == messages@,
            i <= messages@.len(),
            out.deep_view() == diagnostics_in(all.take(i as int)),
        decreases messages@.len() - i,
    {
        let ghost before = out.deep_view();
        proof {
            assert(all.take(i + 1).drop_last() =~= all.take(i as int));
        }
        match read_diagnostic(&messages[i]) {
            Some(d) => {
                out.push(d);
                proof {
                    assert(out.deep_view() =~= before.push(d.deep_view()));
                }
            },
            None => {},
        }
        i += 1;
    }
    proof {
        assert(all.take(i as int) =~= all);
    }
    out
}

/// The errors and warnings in what `cargo build --message-format=json` printed.
pub fn parse_diagnostics(stdout: &[u8]) -> (r: Vec<Diagnostic>)
    ensures
        r.deep_view() == diagnostics_in(cargo_messages(stdout@)),
{
    let messages = parse_stream(stdout);
    diagnostics_from_messages(&messages)
}

// ---------------------------------------------------------------------------
// Results
// ---------------------------------------------------------------------------

/// The name of a level.
pub open spec fn level_name(level: DiagLevel) -> Seq<char> {
    match level {
        DiagLevel::Error => "Error"@,
        DiagLevel::Warning => "Warning"@,
    }
}

/// The line that describes a diagnostic.
pub open spec fn diagnostic_line(d: DiagnosticView) -> Seq<char> {
    "  ["@ + level_name(d.level) + "] "@ + d.file + ":"@ + decimal_of(d.line_start as nat)
        + " \u{2014} "@ + d.message + "\n"@
}

/// The lines that describe the diagnostics.
pub open spec fn diagnostic_lines(diags: Seq<DiagnosticView>) -> Seq<char>
    decreases diags.len(),
{
    if diags.len() == 0 {
        seq![]
    } else {
        diagnostic_lines(diags.drop_last()) + diagnostic_line(diags.last())
    }
}

impl RawBuildResult {
    /// The result of a build that printed `stdout`.
    pub fn from_output(success: bool, stdout: &[u8]) -> (r: RawBuildResult)
        ensures
            r.success == success,
            r.diagnostics.deep_view() == diagnostics_in(cargo_messages(stdout@)),
    {
        RawBuildResult { success, diagnostics: parse_diagnostics(stdout) }
    }

    /// A description of the result: a heading, then a line per diagnostic.
    pub fn describe(&self) -> (r: String)
        ensures
            r@ == (if self.success {
                "RawBuildResult: success\n"@
            } else {
                "RawBuildResult: failed ("@ + decimal_of(self.diagnostics@.len())
                    + " diagnostics)\n"@
            }) + diagnostic_lines(self.diagnostics.deep_view()),
    {
        let mut out = String::new();
        if self.success {
            out.push_str("RawBuildResult: success\n");
        } else {
            out.push_str("RawBuildResult: failed (");
            out.push_str(decimal(self.diagnostics.len()).as_str());
            out.push_str(" diagnostics)\n");
        }
        let ghost head = out@;
        let ghost all = self.diagnostics.deep_view();
        let mut i: usize = 0;
        proof {
            assert(out@ =~= head + diagnostic_lines(all.take(0)));
        }
        while i < self.diagnostics.len()
            invariant
                all == self.diagnostics.deep_view(),
                i <= self.diagnostics@.len(),
                out@ == head + diagnostic_lines(all.take(i as int)),
            decreases self.diagnostics@.len() - i,
        {
            let d = &self.diagnostics[i];
            out.push_str("  [");
            match d.level {
                DiagLevel::Error => out.push_str("Error"),
                DiagLevel::Warning => out.push_str("Warning"),
            }
            out.push_str("] ");
            out.push_str(d.file.as_str());
            out.push_str(":");
            out.push_str(decimal(d.line_start as usize).as_str());
            out.push_str(" \u{2014} ");
            out.push_str(d.message.as_str());
            out.push_str("\n");
            proof {
                assert(all.take(i + 1).drop_last() =~= all.take(i as int));
                assert(out@ =~= head + diagnostic_lines(all.take(i + 1)));
            }
            i += 1;
        }
        proof {
            assert(all.take(i as int) =~= all);
        }
        out
    }
}

/// Builds a split package and returns structured diagnostics.
pub struct FixBuildCheck;

// ---------------------------------------------------------------------------
// Laws
// ---------------------------------------------------------------------------

/// The diagnostics are those of the messages, in order, and the related spans
/// those of the notes; what is no diagnostic or has no place is passed over.
pub proof fn diagnostics_follow_the_messages(
    messages: Seq<CargoMessage>,
    notes: Seq<MessagePart>,
)
    ensures
        diagnostics_in(messages) == messages.filter_map(|m: CargoMessage| diagnostic_of(m)),
        related_all(notes) == notes.filter_map(|p: MessagePart| related_of(p)),
        forall|i: int|
            0 <= i < messages.len() ==> (diagnostic_of(#[trigger] messages[i]) matches Some(d)
                ==> diagnostics_in(messages).contains(d)),
        forall|i: int|
            0 <= i < notes.len() ==> (related_of(#[trigger] notes[i]) matches Some(s)
                ==> related_all(notes).contains(s)),
    decreases messages.len() + notes.len(),
{
    let f = |m: CargoMessage| diagnostic_of(m);
    let g = |p: MessagePart| related_of(p);
    messages_one_by_one(messages);
    notes_one_by_one(notes);
    crate::seqs::filter_map_has(messages, f);
    crate::seqs::filter_map_has(notes, g);
    assert forall|i: int| 0 <= i < messages.len() implies (diagnostic_of(
        #[trigger] messages[i],
    ) matches Some(d) ==> diagnostics_in(messages).contains(d)) by {
        assert(f(messages[i]) == diagnostic_of(messages[i]));
    }
    assert forall|i: int| 0 <= i < notes.len() implies (related_of(
        #[trigger] notes[i],
    ) matches Some(s) ==> related_all(notes).contains(s)) by {
        assert(g(notes[i]) == related_of(notes[i]));
    }
}

proof fn messages_one_by_one(messages: Seq<CargoMessage>)
    ensures
        diagnostics_in(messages) == messages.filter_map(|m: CargoMessage| diagnostic_of(m)),
    decreases messages.len(),
{
    if messages.len() > 0 {
        messages_one_by_one(messages.drop_last());
        assert(diagnostics_in(messages) =~= messages.filter_map(
            |m: CargoMessage| diagnostic_of(m),
        ));
    }
}

proof fn notes_one_by_one(notes: Seq<MessagePart>)
    ensures
        related_all(notes) == notes.filter_map(|p: MessagePart| related_of(p)),
    decreases notes.len(),
{
    if notes.len() > 0 {
        notes_one_by_one(notes.drop_last());
        assert(related_all(notes) =~= notes.filter_map(|p: MessagePart| related_of(p)));
    }
}

/// The primary span is the first that is marked so.
pub proof fn first_marked_span_is_primary(spans: Seq<MessageSpan>, i: int)
    requires
        0 <= i <= spans.len(),
    ensures
        i <= primary_from(spans, i) <= spans.len(),
        primary_from(spans, i) < spans.len() ==> spans[primary_from(spans, i)].7,
        forall|j: int| i <= j < primary_from(spans, i) ==> !(#[trigger] spans[j]).7,
    decreases spans.len() - i,
{
    if i < spans.len() && !spans[i].7 {
        first_marked_span_is_primary(spans, i + 1);
    }
}

/// Errors and crashes of the compiler count as errors, warnings as warnings, and
/// nothing else is kept; notes and helps are related, and nothing else is.
pub proof fn levels_are_read_by_name(name: Seq<char>)
    ensures
        kept_level("Error"@) == Some(DiagLevel::Error),
        kept_level("Ice"@) == Some(DiagLevel::Error),
        kept_level("Warning"@) == Some(DiagLevel::Warning),
        kept_level(name) is Some ==> name == "Error"@ || name == "Ice"@ || name == "Warning"@,
        note_level("Note"@) == Some(RelatedLevel::Note),
        note_level("Help"@) == Some(RelatedLevel::Help),
        note_level(name) is Some ==> name == "Note"@ || name == "Help"@,
{
    reveal_strlit("Error");
    reveal_strlit("Ice");
    reveal_strlit("Warning");
    reveal_strlit("Note");
    reveal_strlit("Help");
    assert("Error"@.len() == 5 && "Ice"@.len() == 3 && "Warning"@.len() == 7);
    assert("Note"@[0] == 'N' && "Help"@[0] == 'H');
}

/// A diagnostic stands where its first primary span stands, and tells what was
/// rendered, or its message where nothing was.
pub proof fn diagnostics_stand_at_their_primary_span(
    parts: Vec<MessagePart>,
    code: Option<String>,
    rendered: Option<String>,
    k: int,
)
    requires
        parts@.len() > 0,
        0 <= k < parts@[0].2@.len(),
        parts@[0].2@[k].7,
        forall|j: int| 0 <= j < k ==> !(#[trigger] parts@[0].2@[j]).7,
        parts@[0].0@ == "Error"@ || parts@[0].0@ == "Warning"@,
    ensures
        diagnostic_of(CargoMessage::Diagnostic(parts, code, rendered)) matches Some(d) && {
            let s = parts@[0].2@[k];
            &&& (d.level == DiagLevel::Error <==> parts@[0].0@ == "Error"@)
            &&& d.code == code.deep_view()
            &&& d.message == parts@[0].1@
            &&& d.file == s.0@
            &&& d.line_start == s.1 as u32
            &&& d.line_end == s.2 as u32
            &&& d.col_start == s.3 as u32
            &&& d.col_end == s.4 as u32
            &&& rendered is Some ==> d.full_text == rendered->0@
            &&& rendered is None ==> d.full_text == d.message
            &&& d.related_spans == parts@.skip(1).filter_map(|p: MessagePart| related_of(p))
        },
{
    let spans = parts@[0].2@;
    first_marked_span_is_primary(spans, 0);
    let p = primary_from(spans, 0);
    assert(p == k) by {
        if p < k {
            assert(!spans[p].7);
        }
        if k < p {
            assert(!spans[k].7);
        }
    }
    levels_are_read_by_name("Error"@);
    reveal_strlit("Error");
    reveal_strlit("Warning");
    assert("Error"@.len() == 5 && "Warning"@.len() == 7);
    notes_one_by_one(parts@.skip(1));
}

/// A report has one line for each diagnostic, in order.
pub proof fn reports_have_a_line_per_diagnostic(diags: Seq<DiagnosticView>)
    ensures
        diagnostic_lines(diags) == diags.flat_map(
            |d: DiagnosticView|
                "  ["@ + (if d.level == DiagLevel::Error {
                    "Error"@
                } else {
                    "Warning"@
                }) + "] "@ + d.file + ":"@ + decimal_of(d.line_start as nat) + " \u{2014} "@
                    + d.message + "\n"@,
        ),
    decreases diags.len(),
{
    let f = |d: DiagnosticView|
        "  ["@ + (if d.level == DiagLevel::Error {
            "Error"@
        } else {
            "Warning"@
        }) + "] "@ + d.file + ":"@ + decimal_of(d.line_start as nat) + " \u{2014} "@ + d.message
            + "\n"@;
    crate::seqs::flat_map_last(diags, f);
    if diags.len() > 0 {
        reports_have_a_line_per_diagnostic(diags.drop_last());
        assert(diagnostic_line(diags.last()) == f(diags.last()));
    } else {
        assert(diagnostic_lines(diags) =~= diags.flat_map(f));
    }
}

/// A note or help is related by its first primary span, or by its first span where
/// none is primary; one without a span is passed over.
pub proof fn notes_stand_at_their_first_span(part: MessagePart)
    requires
        part.0@ == "Note"@ || part.0@ == "Help"@,
    ensures
        part.2@.len() == 0 ==> related_of(part) is None,
        part.2@.len() > 0 && (forall|j: int|
            0 <= j < part.2@.len() ==> !(#[trigger] part.2@[j]).7) ==> (related_of(
            part,
        ) matches Some(r) && r.file == part.2@[0].0@ && r.line_start == part.2@[0].1 as u32
            && r.message == part.1@),
        forall|k: int|
            0 <= k < part.2@.len() && (#[trigger] part.2@[k]).7 && (forall|j: int|
                0 <= j < k ==> !(#[trigger] part.2@[j]).7) ==> (related_of(part) matches Some(r)
                && r.file == part.2@[k].0@ && r.line_start == part.2@[k].1 as u32 && r.line_end
                == part.2@[k].2 as u32 && r.col_start == part.2@[k].3 as u32 && r.col_end
                == part.2@[k].4 as u32 && r.message == part.1@),
{
    let spans = part.2@;
    first_marked_span_is_primary(spans, 0);
    levels_are_read_by_name(part.0@);
    let p = primary_from(spans, 0);
    assert forall|k: int|
        0 <= k < spans.len() && (#[trigger] spans[k]).7 && (forall|j: int|
            0 <= j < k ==> !(#[trigger] spans[j]).7) implies p == k by {
        if p < k {
            assert(!spans[p].7);
        }
        if k < p {
            assert(!spans[k].7);
        }
    }
    if forall|j: int| 0 <= j < spans.len() ==> !(#[trigger] spans[j]).7 {
        if p < spans.len() {
            assert(!spans[p].7);
        }
    }
}

} // verus!
