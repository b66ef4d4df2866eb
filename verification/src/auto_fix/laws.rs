//! What holds of the classification of compiler output and of a fix run.
use crate::auto_fix::compiler::build_result;
use crate::auto_fix::error_classifier::{
    diagnostics_after, diagnostics_of, errors_text_of, has_report, header_of, is_report_list,
    level_count, location_of, of_file, report_of, reported_before, summary_line, texts_of,
    BlockView, DiagLevel, DiagnosticView, FileErrorReportView, HeaderView,
};
use crate::auto_fix::fix_loop::{fixed_paths, with_new, FixRunView};
use crate::auto_fix::version_manager::{layout, version_path_of, versioned};
use crate::path::{child_path, entry_name, joined_names_are_components, last_dot_is};
use crate::seqs::filter_has;
use crate::text::{all_digits, decimal_of, has_part, joined, part_count};
use crate::text_laws::{
    blank, cutting_finds_the_first, decimals_are_read, decimals_denote_their_number,
    parts_are_found, prefix_is_taken_off, start_without_blank, tight_is_trimmed,
};
use crate::order::lex_lt;
use vstd::prelude::*;

verus! {

// ---------------------------------------------------------------------------
// Lines
// ---------------------------------------------------------------------------

/// The first line of a diagnostic gives its level, its code if it has one, and its
/// message.
pub proof fn headers_are_read(digits: Seq<char>, message: Seq<char>)
    requires
        all_digits(digits),
    ensures
        header_of("error[E"@ + digits + "]: "@ + message) == Some(
            HeaderView { level: DiagLevel::Error, code: Some("E"@ + digits), message },
        ),
        header_of("warning[E"@ + digits + "]: "@ + message) == Some(
            HeaderView { level: DiagLevel::Warning, code: Some("E"@ + digits), message },
        ),
        header_of("error: "@ + message) == Some(
            HeaderView { level: DiagLevel::Error, code: None, message },
        ),
        header_of("warning: "@ + message) == Some(
            HeaderView { level: DiagLevel::Warning, code: None, message },
        ),
{
    reveal_strlit("error");
    reveal_strlit("warning");
    reveal_strlit("error[E");
    reveal_strlit("warning[E");
    reveal_strlit("error: ");
    reveal_strlit("warning: ");
    reveal_strlit("]: ");
    reveal_strlit(": ");
    reveal_strlit("[");
    reveal_strlit("E");
    let code = "E"@ + digits;
    let coded = "["@ + (code + seq![']'] + (": "@ + message));
    let plain = ": "@ + message;
    assert("error[E"@ + digits + "]: "@ + message =~= "error"@ + coded);
    assert("warning[E"@ + digits + "]: "@ + message =~= "warning"@ + coded);
    assert("error: "@ + message =~= "error"@ + plain);
    assert("warning: "@ + message =~= "warning"@ + plain);
    prefix_is_taken_off("error"@, coded);
    prefix_is_taken_off("error"@, plain);
    prefix_is_taken_off("warning"@, coded);
    prefix_is_taken_off("warning"@, plain);
    assert(!"error"@.is_prefix_of("warning"@ + coded)) by {
        if "error"@.is_prefix_of("warning"@ + coded) {
            assert(("warning"@ + coded).subrange(0, 5)[0] == ("warning"@ + coded)[0]);
        }
    }
    assert(!"error"@.is_prefix_of("warning"@ + plain)) by {
        if "error"@.is_prefix_of("warning"@ + plain) {
            assert(("warning"@ + plain).subrange(0, 5)[0] == ("warning"@ + plain)[0]);
        }
    }
    prefix_is_taken_off("["@, code + seq![']'] + (": "@ + message));
    assert(!"["@.is_prefix_of(plain)) by {
        if "["@.is_prefix_of(plain) {
            assert(plain.subrange(0, 1)[0] == plain[0]);
        }
    }
    assert(!code.contains(']')) by {
        if code.contains(']') {
            let i = choose|i: int| 0 <= i < code.len() && code[i] == ']';
            if i > 0 {
                assert(code[i] == digits[i - 1]);
            }
        }
    }
    cutting_finds_the_first(code, ']', ": "@ + message);
    assert(code.skip(1) =~= digits);
    prefix_is_taken_off(": "@, message);
}

/// A line with an arrow gives the file, the line and the column, with blanks in
/// front of the arrow or not.
pub proof fn locations_are_read(space: Seq<char>, file: Seq<char>, line: u32, col: u32)
    requires
        blank(space),
        file.len() > 0,
        !file.contains(':'),
        !file.contains('\n'),
    ensures
        location_of(
            space + ("--> "@ + file + ":"@ + decimal_of(line as nat) + ":"@ + decimal_of(
                col as nat,
            )),
        ) == Some((file, line, col)),
{
    reveal_strlit("--> ");
    reveal_strlit(":");
    let n = decimal_of(line as nat);
    let m = decimal_of(col as nat);
    let text = "--> "@ + file + ":"@ + n + ":"@ + m;
    start_without_blank(space, text);
    assert(text[0] == '-');
    assert(crate::text::trim_start_of(text) == text);
    let rest = file + seq![':'] + (n + seq![':'] + m);
    assert(text =~= "--> "@ + rest);
    prefix_is_taken_off("--> "@, rest);
    cutting_finds_the_first(file, ':', n + seq![':'] + m);
    decimals_denote_their_number(line as nat);
    decimals_denote_their_number(col as nat);
    assert(!n.contains(':')) by {
        if n.contains(':') {
            let i = choose|i: int| 0 <= i < n.len() && n[i] == ':';
            assert(crate::text::digit_char(n[i]));
        }
    }
    cutting_finds_the_first(n, ':', m);
    decimals_are_read(line);
    decimals_are_read(col);
    assert(crate::text::digit_char(m[0]));
    assert(crate::text::digit_char(m[m.len() - 1]));
    tight_is_trimmed(m);
}

/// The lines with which the compiler sums up belong to no diagnostic.
pub proof fn closing_lines_are_known(a: Seq<char>, b: Seq<char>)
    ensures
        summary_line("error: could not compile"@ + a),
        summary_line("warning:"@ + a + "generated"@ + " 1 warning"@ + b),
        summary_line("Some errors have detailed explanations:"@ + a),
        summary_line("For more information about an error"@ + a),
{
    prefix_is_taken_off("error: could not compile"@, a);
    prefix_is_taken_off("Some errors have detailed explanations:"@, a);
    prefix_is_taken_off("For more information about an error"@, a);
    let line = "warning:"@ + a + "generated"@ + " 1 warning"@ + b;
    let rest = a + "generated"@ + " 1 warning"@ + b;
    assert(line =~= "warning:"@ + rest);
    prefix_is_taken_off("warning:"@, rest);
    assert(rest =~= a + "generated"@ + (" 1 warning"@ + b));
    parts_are_found(a, "generated"@, " 1 warning"@ + b);
    reveal_strlit(" 1 warning");
    reveal_strlit("warning");
    let head = a + "generated"@ + " 1 warning"@.take(3);
    assert(" 1 warning"@ =~= " 1 warning"@.take(3) + "warning"@);
    assert(rest =~= head + "warning"@ + b);
    parts_are_found(head, "warning"@, b);
}

// ---------------------------------------------------------------------------
// Blocks
// ---------------------------------------------------------------------------

/// The line neither starts a diagnostic nor sums up.
pub open spec fn inner_line(line: Seq<char>) -> bool {
    !summary_line(line) && header_of(line) is None
}

proof fn inner_lines_are_collected(
    body: Seq<Seq<char>>,
    rest: Seq<Seq<char>>,
    open: BlockView,
)
    requires
        forall|i: int| 0 <= i < body.len() ==> inner_line(#[trigger] body[i]),
    ensures
        diagnostics_after(body + rest, open) == diagnostics_after(
            rest,
            BlockView {
                header: open.header,
                lines: open.lines + body,
                location: if open.location is Some {
                    open.location
                } else {
                    first_location(body)
                },
            },
        ),
    decreases body.len(),
{
    if body.len() == 0 {
        assert(body + rest =~= rest);
        assert(open.lines + body =~= open.lines);
        assert(first_location(body) is None);
        assert(BlockView {
            header: open.header,
            lines: open.lines + body,
            location: if open.location is Some {
                open.location
            } else {
                first_location(body)
            },
        } == open);
    } else {
        let less = body.skip(1);
        let all = body + rest;
        assert(inner_line(body[0]));
        assert(all[0] == body[0]);
        assert(all.skip(1) =~= less + rest);
        assert forall|i: int| 0 <= i < less.len() implies inner_line(#[trigger] less[i]) by {
            assert(less[i] == body[i + 1]);
        }
        let next = open.with_line(body[0]);
        inner_lines_are_collected(less, rest, next);
        assert(next.lines + less =~= open.lines + body);
    }
}

/// The first place that the lines name.
pub open spec fn first_location(lines: Seq<Seq<char>>) -> Option<(Seq<char>, u32, u32)>
    decreases lines.len(),
{
    if lines.len() == 0 {
        None
    } else if location_of(lines[0]) is Some {
        location_of(lines[0])
    } else {
        first_location(lines.skip(1))
    }
}

proof fn first_location_stands(
    before: Seq<Seq<char>>,
    line: Seq<char>,
    after: Seq<Seq<char>>,
)
    requires
        forall|i: int| 0 <= i < before.len() ==> location_of(#[trigger] before[i]) is None,
        location_of(line) is Some,
    ensures
        first_location(before + seq![line] + after) == location_of(line),
    decreases before.len(),
{
    let all = before + seq![line] + after;
    if before.len() == 0 {
        assert(all[0] == line);
    } else {
        let less = before.skip(1);
        assert(location_of(before[0]) is None);
        assert(all[0] == before[0]);
        assert(all.skip(1) =~= less + seq![line] + after);
        assert forall|i: int| 0 <= i < less.len() implies location_of(
            #[trigger] less[i],
        ) is None by {
            assert(less[i] == before[i + 1]);
        }
        first_location_stands(less, line, after);
    }
}

/// A diagnostic goes from its first line to the next diagnostic, to a line that
/// sums up or to the end: it holds all these lines, and stands at the first place
/// that they name. What follows is read on its own.
pub proof fn diagnostics_are_blocks_of_lines(
    first: Seq<char>,
    before: Seq<Seq<char>>,
    place: Seq<char>,
    after: Seq<Seq<char>>,
    rest: Seq<Seq<char>>,
)
    requires
        header_of(first) is Some,
        !summary_line(first),
        forall|i: int|
            0 <= i < before.len() ==> inner_line(#[trigger] before[i]) && location_of(
                before[i],
            ) is None,
        inner_line(place),
        location_of(place) is Some,
        forall|i: int| 0 <= i < after.len() ==> inner_line(#[trigger] after[i]),
        rest.len() > 0 ==> summary_line(rest[0]) || header_of(rest[0]) is Some,
    ensures
        ({
            let block = seq![first] + before + seq![place] + after;
            let h = header_of(first)->0;
            let l = location_of(place)->0;
            diagnostics_after(block + rest, BlockView::nothing()) == seq![
                DiagnosticView {
                    level: h.level,
                    code: h.code,
                    message: h.message,
                    file: l.0,
                    line: l.1,
                    col: l.2,
                    full_text: joined(block, "\n"@),
                },
            ] + diagnostics_after(rest, BlockView::nothing())
        }),
{
    let block = seq![first] + before + seq![place] + after;
    let body = before + seq![place] + after;
    let all = block + rest;
    let h = header_of(first)->0;
    let open = BlockView { header: Some(h), lines: seq![first], location: None };
    assert(all[0] == first);
    assert(all.skip(1) =~= body + rest);
    assert(BlockView::nothing().flushed() =~= seq![]);
    assert(diagnostics_after(all, BlockView::nothing()) =~= diagnostics_after(body + rest, open));
    assert forall|i: int| 0 <= i < body.len() implies inner_line(#[trigger] body[i]) by {
        if i < before.len() {
            assert(inner_line(before[i]));
        } else if i > before.len() {
            assert(inner_line(after[i - before.len() - 1]));
        }
    }
    inner_lines_are_collected(body, rest, open);
    assert forall|i: int| 0 <= i < before.len() implies location_of(#[trigger] before[i]) is None by {
        assert(inner_line(before[i]));
    }
    first_location_stands(before, place, after);
    assert(seq![first] + body =~= block);
    let full = BlockView {
        header: Some(h),
        lines: block,
        location: location_of(place),
    };
    assert(diagnostics_after(all, BlockView::nothing()) == diagnostics_after(rest, full));
    if rest.len() > 0 {
        if summary_line(rest[0]) {
            assert(diagnostics_after(rest, BlockView::nothing()) =~= diagnostics_after(
                rest.skip(1),
                BlockView::nothing(),
            ));
        } else {
            let g = header_of(rest[0])->0;
            assert(diagnostics_after(rest, BlockView::nothing()) =~= diagnostics_after(
                rest.skip(1),
                BlockView { header: Some(g), lines: seq![rest[0]], location: None },
            ));
        }
    } else {
        assert(diagnostics_after(rest, BlockView::nothing()) =~= seq![]);
        assert(full.flushed() + seq![] =~= full.flushed());
    }
}

/// Lines outside a diagnostic say nothing.
pub proof fn lines_outside_say_nothing(lines: Seq<Seq<char>>)
    requires
        forall|i: int| 0 <= i < lines.len() ==> inner_line(#[trigger] lines[i]),
    ensures
        diagnostics_after(lines, BlockView::nothing()).len() == 0,
{
    let none = Seq::<Seq<char>>::empty();
    assert(lines + none =~= lines);
    inner_lines_are_collected(lines, none, BlockView::nothing());
}

// ---------------------------------------------------------------------------
// Reports
// ---------------------------------------------------------------------------

/// The diagnostics of a file and a level are those of them that have both, in
/// order, and a level is counted over all of them.
pub proof fn diagnostics_are_selected(
    diags: Seq<DiagnosticView>,
    file: Seq<char>,
    level: DiagLevel,
)
    ensures
        of_file(diags, file, level) == diags.filter(
            |d: DiagnosticView| d.file == file && d.level == level,
        ),
        level_count(diags, level) == diags.filter(|d: DiagnosticView| d.level == level).len(),
        forall|i: int|
            0 <= i < diags.len() && (#[trigger] diags[i]).file == file && diags[i].level == level
                ==> of_file(diags, file, level).contains(diags[i]),
    decreases diags.len(),
{
    reveal(Seq::filter);
    let p = |d: DiagnosticView| d.file == file && d.level == level;
    let q = |d: DiagnosticView| d.level == level;
    if diags.len() > 0 {
        diagnostics_are_selected(diags.drop_last(), file, level);
        assert(of_file(diags, file, level) == diags.filter(p));
        assert(level_count(diags, level) == diags.filter(q).len());
    }
    filter_has(diags, p);
    assert forall|i: int|
        0 <= i < diags.len() && (#[trigger] diags[i]).file == file && diags[i].level
            == level implies of_file(diags, file, level).contains(diags[i]) by {
        assert(p(diags[i]));
    }
}

proof fn text_stands(diags: Seq<DiagnosticView>, i: int)
    requires
        0 <= i < diags.len(),
    ensures
        exists|a: Seq<char>, b: Seq<char>| #[trigger]
            (a + diags[i].full_text + b) == texts_of(diags),
    decreases diags.len(),
{
    let rest = diags.drop_last();
    if i == diags.len() - 1 {
        assert(texts_of(rest) + diags[i].full_text + "\n\n"@ == texts_of(diags));
    } else {
        text_stands(rest, i);
        let (a, b) = choose|a: Seq<char>, b: Seq<char>| #[trigger]
            (a + rest[i].full_text + b) == texts_of(rest);
        let c = b + diags.last().full_text + "\n\n"@;
        assert(a + diags[i].full_text + c =~= texts_of(diags));
    }
}

/// The report of a file counts its errors and its warnings, and holds the text of
/// every one of them.
pub proof fn reports_hold_every_diagnostic(
    diags: Seq<DiagnosticView>,
    file: Seq<char>,
    i: int,
)
    requires
        0 <= i < diags.len(),
        diags[i].file == file,
    ensures
        ({
            let r = report_of(diags, file);
            &&& r.file_path == file
            &&& r.error_count == diags.filter(
                |d: DiagnosticView| d.file == file && d.level == DiagLevel::Error,
            ).len()
            &&& r.warning_count == diags.filter(
                |d: DiagnosticView| d.file == file && d.level == DiagLevel::Warning,
            ).len()
            &&& has_part(r.errors_text, diags[i].full_text)
            &&& ("COMPILATION ERRORS FOR "@ + file + ":\n\n"@).is_prefix_of(r.errors_text)
            &&& r.warning_count > 0 ==> has_part(
                r.errors_text,
                "WARNINGS FOR "@ + file + ":\n\n"@,
            )
        }),
{
    let errors = of_file(diags, file, DiagLevel::Error);
    let warnings = of_file(diags, file, DiagLevel::Warning);
    diagnostics_are_selected(diags, file, DiagLevel::Error);
    diagnostics_are_selected(diags, file, DiagLevel::Warning);
    let text = errors_text_of(file, errors, warnings);
    let head = "COMPILATION ERRORS FOR "@ + file + ":\n\n"@;
    let title = "WARNINGS FOR "@ + file + ":\n\n"@;
    assert(text.subrange(0, head.len() as int) =~= head);
    if warnings.len() > 0 {
        assert(text =~= (head + texts_of(errors)) + title + texts_of(warnings));
        parts_are_found(head + texts_of(errors), title, texts_of(warnings));
    }
    if diags[i].level == DiagLevel::Error {
        assert(errors.contains(diags[i]));
        let k = choose|k: int| 0 <= k < errors.len() && errors[k] == diags[i];
        text_stands(errors, k);
        let (a, b) = choose|a: Seq<char>, b: Seq<char>| #[trigger]
            (a + errors[k].full_text + b) == texts_of(errors);
        let tail = if warnings.len() > 0 {
            title + texts_of(warnings)
        } else {
            seq![]
        };
        assert(text =~= (head + a) + diags[i].full_text + (b + tail));
        parts_are_found(head + a, diags[i].full_text, b + tail);
    } else {
        assert(warnings.contains(diags[i]));
        let k = choose|k: int| 0 <= k < warnings.len() && warnings[k] == diags[i];
        text_stands(warnings, k);
        let (a, b) = choose|a: Seq<char>, b: Seq<char>| #[trigger]
            (a + warnings[k].full_text + b) == texts_of(warnings);
        let before = head + texts_of(errors) + title + a;
        assert(text =~= before + diags[i].full_text + b);
        parts_are_found(before, diags[i].full_text, b);
    }
}

/// A build is summed up by what it printed, the errors with and without a code and
/// the warnings counted in both outputs.
pub proof fn builds_are_summed_up(success: bool, stdout: Seq<char>, stderr: Seq<char>)
    ensures
        ({
            let r = build_result(success, stdout, stderr);
            &&& r.success == success
            &&& r.stdout == stdout
            &&& r.stderr == stderr
            &&& r.combined_output == stdout + "\n"@ + stderr
            &&& r.error_count == part_count(stdout + "\n"@ + stderr, "error:"@) + part_count(
                stdout + "\n"@ + stderr,
                "error["@,
            )
            &&& r.warning_count == part_count(stdout + "\n"@ + stderr, "warning:"@)
        }),
{
}

// ---------------------------------------------------------------------------
// Fixed files
// ---------------------------------------------------------------------------

/// The files that were fixed are those whose fix worked, in order.
pub proof fn fixed_files_are_those_that_worked(results: Seq<(Seq<char>, bool)>)
    ensures
        fixed_paths(results) == results.filter(|r: (Seq<char>, bool)| r.1).map_values(
            |r: (Seq<char>, bool)| r.0,
        ),
        forall|i: int|
            0 <= i < results.len() && (#[trigger] results[i]).1 ==> fixed_paths(results).contains(
                results[i].0,
            ),
        fixed_paths(results).len() == 0 <==> forall|i: int|
            0 <= i < results.len() ==> !(#[trigger] results[i]).1,
    decreases results.len(),
{
    reveal(Seq::filter);
    let p = |r: (Seq<char>, bool)| r.1;
    let g = |r: (Seq<char>, bool)| r.0;
    let out = fixed_paths(results);
    if results.len() > 0 {
        let rest = results.drop_last();
        let before = fixed_paths(rest);
        fixed_files_are_those_that_worked(rest);
        let kept = rest.filter(p);
        if results.last().1 {
            assert(kept.push(results.last()).map_values(g) =~= kept.map_values(g).push(
                results.last().0,
            ));
        }
        assert(out =~= results.filter(p).map_values(g));
        assert forall|i: int| 0 <= i < results.len() && (
        #[trigger] results[i]).1 implies out.contains(results[i].0) by {
            if i < rest.len() {
                assert(rest[i] == results[i]);
                let k = choose|k: int| 0 <= k < before.len() && before[k] == results[i].0;
                assert(out[k] == results[i].0);
            } else {
                assert(out[out.len() - 1] == results[i].0);
            }
        }
        if out.len() == 0 {
            assert forall|i: int| 0 <= i < results.len() implies !(#[trigger] results[i]).1 by {
                if results[i].1 {
                    assert(out.contains(results[i].0));
                }
            }
        }
        if forall|i: int| 0 <= i < results.len() ==> !(#[trigger] results[i]).1 {
            assert(!results[results.len() - 1].1);
            assert forall|i: int| 0 <= i < rest.len() implies !(#[trigger] rest[i]).1 by {
                assert(!results[i].1);
            }
        }
    } else {
        assert(out =~= results.filter(p).map_values(g));
    }
}

/// A file is listed once, where it was first seen: adding files keeps those that
/// are there and adds each of the others once.
pub proof fn files_are_listed_once(seen: Seq<Seq<char>>, more: Seq<Seq<char>>)
    ensures
        seen.is_prefix_of(with_new(seen, more)),
        forall|f: Seq<char>| #[trigger]
            with_new(seen, more).contains(f) <==> seen.contains(f) || more.contains(f),
        seen.no_duplicates() ==> with_new(seen, more).no_duplicates(),
        with_new(with_new(seen, more), more) == with_new(seen, more),
    decreases more.len(),
{
    listed_once(seen, more);
    nothing_new(with_new(seen, more), more);
}

proof fn nothing_new(seen: Seq<Seq<char>>, more: Seq<Seq<char>>)
    requires
        forall|i: int| 0 <= i < more.len() ==> seen.contains(#[trigger] more[i]),
    ensures
        with_new(seen, more) == seen,
    decreases more.len(),
{
    if more.len() > 0 {
        let rest = more.drop_last();
        assert forall|i: int| 0 <= i < rest.len() implies seen.contains(#[trigger] rest[i]) by {
            assert(seen.contains(more[i]));
        }
        nothing_new(seen, rest);
        assert(seen.contains(more[more.len() - 1]));
    }
}

proof fn listed_once(seen: Seq<Seq<char>>, more: Seq<Seq<char>>)
    ensures
        seen.is_prefix_of(with_new(seen, more)),
        forall|f: Seq<char>| #[trigger]
            with_new(seen, more).contains(f) <==> seen.contains(f) || more.contains(f),
        seen.no_duplicates() ==> with_new(seen, more).no_duplicates(),
        forall|i: int| 0 <= i < more.len() ==> with_new(seen, more).contains(#[trigger] more[i]),
    decreases more.len(),
{
    let out = with_new(seen, more);
    if more.len() > 0 {
        let rest = more.drop_last();
        let last = more.last();
        let before = with_new(seen, rest);
        listed_once(seen, rest);
        assert(out.subrange(0, seen.len() as int) =~= before.subrange(0, seen.len() as int));
        assert forall|f: Seq<char>| #[trigger] out.contains(f) <==> seen.contains(f)
            || more.contains(f) by {
            if out.contains(f) {
                let k = choose|k: int| 0 <= k < out.len() && out[k] == f;
                if k < before.len() {
                    assert(before[k] == f);
                    assert(before.contains(f));
                    if rest.contains(f) {
                        let j = choose|j: int| 0 <= j < rest.len() && rest[j] == f;
                        assert(more[j] == f);
                    }
                } else {
                    assert(more[more.len() - 1] == f);
                }
            }
            if more.contains(f) {
                let j = choose|j: int| 0 <= j < more.len() && more[j] == f;
                if j < rest.len() {
                    assert(rest[j] == f);
                    assert(before.contains(f));
                } else if !before.contains(last) {
                    assert(out[before.len() as int] == f);
                }
            }
            if before.contains(f) {
                let k = choose|k: int| 0 <= k < before.len() && before[k] == f;
                assert(out[k] == f);
            }
        }
        assert forall|i: int| 0 <= i < more.len() implies out.contains(#[trigger] more[i]) by {
            assert(more.contains(more[i]));
        }
        if seen.no_duplicates() && !before.contains(last) {
            assert forall|x: int, y: int| 0 <= x < out.len() && 0 <= y < out.len() && x
                != y implies out[x] != out[y] by {
                if x < before.len() && y < before.len() {
                    assert(before[x] != before[y]);
                } else if x < before.len() {
                    assert(before.contains(before[x]));
                } else {
                    assert(before.contains(before[y]));
                }
            }
        }
    } else {
        assert(out.subrange(0, seen.len() as int) =~= seen);
    }
}

// ---------------------------------------------------------------------------
// Versions
// ---------------------------------------------------------------------------

/// A version of a file stands beside it, with its number in front of the
/// extension, or at the end of a name without one.
pub proof fn versions_stand_beside_their_file(
    dirs: Seq<Seq<char>>,
    stem: Seq<char>,
    ext: Seq<char>,
    n: nat,
)
    requires
        forall|i: int| 0 <= i < dirs.len() ==> entry_name(#[trigger] dirs[i]),
        !ext.contains('.'),
        entry_name(stem + "."@ + ext),
    ensures
        versioned(stem + "."@ + ext, n) == stem + "."@ + decimal_of(n) + "."@ + ext,
        !stem.contains('.') ==> versioned(stem, n) == stem + "."@ + decimal_of(n),
        version_path_of(joined(dirs.push(stem + "."@ + ext), "/"@), n) == Some(
            child_path(joined(dirs, "/"@), stem + "."@ + decimal_of(n) + "."@ + ext),
        ),
{
    let name = stem + "."@ + ext;
    let all = dirs.push(name);
    assert forall|i: int| 0 <= i < all.len() implies entry_name(#[trigger] all[i]) by {
        if i < dirs.len() {
            assert(entry_name(dirs[i]));
        }
    }
    joined_names_are_components(all);
    reveal_strlit(".");
    last_dot_is(stem, ext, name.len() as int);
    assert(name.take(stem.len() as int) =~= stem);
    assert(name.skip(stem.len() as int) =~= "."@ + ext);
    assert(versioned(name, n) =~= stem + "."@ + decimal_of(n) + "."@ + ext);
    assert(all.drop_last() =~= dirs);
    if !stem.contains('.') {
        crate::path::no_dot(stem, stem.len() as int);
    }
}

/// The history of a run is kept in `.fix_history` below its root, with the log and
/// the directory of the iterations in it.
pub proof fn history_stands_below_the_root(root: Seq<char>)
    requires
        root.len() > 0,
        root.last() != '/',
    ensures
        layout(root) == (
            root,
            root + "/.fix_history"@,
            root + "/.fix_history/fix_log.jsonl"@,
            root + "/.fix_history/iteration_all"@,
        ),
{
    reveal_strlit("/");
    reveal_strlit(".fix_history");
    reveal_strlit("/.fix_history");
    reveal_strlit("fix_log.jsonl");
    reveal_strlit("/.fix_history/fix_log.jsonl");
    reveal_strlit("iteration_all");
    reveal_strlit("/.fix_history/iteration_all");
    let history = root + "/.fix_history"@;
    assert(child_path(root, ".fix_history"@) =~= history);
    assert(child_path(history, "fix_log.jsonl"@) =~= root + "/.fix_history/fix_log.jsonl"@);
    assert(child_path(history, "iteration_all"@) =~= root + "/.fix_history/iteration_all"@);
}

// ---------------------------------------------------------------------------
// Runs
// ---------------------------------------------------------------------------

/// The files with the most errors are reported first, and files with as many in the
/// order of their paths; only files with errors are reported, and all of them.
pub proof fn worst_files_come_first(
    diags: Seq<DiagnosticView>,
    reports: Seq<FileErrorReportView>,
    i: int,
    j: int,
)
    requires
        is_report_list(diags, reports),
        0 <= i < j < reports.len(),
    ensures
        reports[i].error_count >= reports[j].error_count,
        reports[i].error_count == reports[j].error_count ==> lex_lt(
            reports[i].file_path,
            reports[j].file_path,
        ),
        reports[i].error_count > 0,
        forall|k: int|
            0 <= k < diags.len() && (#[trigger] diags[k]).level == DiagLevel::Error ==> exists|
                f: int,
            |
                0 <= f < reports.len() && (#[trigger] reports[f]).file_path == diags[k].file,
{
    assert(reported_before(reports[i], reports[j]));
    assert(reports[i] == report_of(diags, reports[i].file_path));
    assert forall|k: int|
        0 <= k < diags.len() && (#[trigger] diags[k]).level == DiagLevel::Error implies exists|
        f: int,
    |
        0 <= f < reports.len() && (#[trigger] reports[f]).file_path == diags[k].file by {
        assert(has_report(reports, diags[k].file));
    }
}

/// The output of the compiler is read line by line: a diagnostic of two lines is read
/// with its header, its place and both its lines.
pub proof fn outputs_are_read_line_by_line(first: Seq<char>, place: Seq<char>)
    requires
        !first.contains('\n'),
        !place.contains('\n'),
        first.len() > 0,
        first.last() != '\r',
        place.len() > 0,
        header_of(first) is Some,
        !summary_line(first),
        inner_line(place),
        location_of(place) is Some,
    ensures
        ({
            let h = header_of(first)->0;
            let l = location_of(place)->0;
            diagnostics_of(first + "\n"@ + place) == seq![
                DiagnosticView {
                    level: h.level,
                    code: h.code,
                    message: h.message,
                    file: l.0,
                    line: l.1,
                    col: l.2,
                    full_text: first + "\n"@ + place,
                },
            ]
        }),
{
    let none = Seq::<Seq<char>>::empty();
    two_lines(first, place);
    diagnostics_are_blocks_of_lines(first, none, place, none, none);
    let block = seq![first] + none + seq![place] + none;
    assert(block =~= seq![first, place]);
    assert(block + none =~= seq![first, place]);
    assert(BlockView::nothing().flushed() =~= seq![]);
    assert(diagnostics_after(none, BlockView::nothing()) =~= seq![]);
    let one = diagnostics_after(seq![first, place], BlockView::nothing());
    assert(one.take(1) + diagnostics_after(none, BlockView::nothing()) =~= one.take(1));
}

proof fn two_lines(first: Seq<char>, place: Seq<char>)
    requires
        !first.contains('\n'),
        !place.contains('\n'),
        first.len() > 0,
        first.last() != '\r',
        place.len() > 0,
    ensures
        crate::text::lines_of(first + "\n"@ + place) == seq![first, place],
        joined(seq![first, place], "\n"@) == first + "\n"@ + place,
{
    reveal_strlit("\n");
    let none = Seq::<Seq<char>>::empty();
    assert("\n"@ =~= seq!['\n']);
    crate::text_laws::lines_end_at_line_feeds(first, place);
    crate::text_laws::lines_end_at_line_feeds(place, seq![]);
    assert(crate::text::lines_of(first + "\n"@ + place) =~= seq![first, place]);
    assert(seq![first, place].drop_last() =~= seq![first]);
    assert(seq![first].drop_last() =~= none);
    assert(joined(seq![first], "\n"@) == first);
}

/// A fix is due while the run goes on, no build is awaited, rounds are left and there
/// are errors; otherwise it is not.
pub proof fn fixes_are_due_while_there_are_errors(run: FixRunView)
    ensures
        !run.finished && run.awaiting_build is None && run.iterations.len() < run.max_iterations
            && run.current.error_count > 0 ==> run.due(),
        run.finished ==> !run.due(),
        run.awaiting_build is Some ==> !run.due(),
        run.iterations.len() >= run.max_iterations ==> !run.due(),
        run.current.error_count == 0 ==> !run.due(),
{
}

/// The rounds of a run are numbered from zero, each starts with the errors that the
/// one before it left, and the first with those of the first build.
pub proof fn rounds_follow_on_one_another(run: FixRunView, i: int)
    requires
        run.wf(),
        0 <= i < run.iterations.len(),
    ensures
        run.iterations[i].iteration == i,
        i == 0 ==> run.iterations[0].errors_before == run.initial_error_count,
        i > 0 ==> run.iterations[i].errors_before == run.iterations[i - 1].errors_after,
        i == run.iterations.len() - 1 ==> run.current.error_count
            == run.iterations[i].errors_after,
        run.iterations.len() <= run.max_iterations,
{
}

/// An error code is an `E` and digits behind it, and nothing else.
pub proof fn error_codes_are_numbered(s: Seq<char>)
    ensures
        all_digits(s) ==> crate::auto_fix::error_classifier::error_code("E"@ + s),
        s.len() < 2 ==> !crate::auto_fix::error_classifier::error_code(s),
        s.len() > 0 && s[0] != 'E' ==> !crate::auto_fix::error_classifier::error_code(s),
        (exists|i: int| 1 <= i < s.len() && !('0' <= #[trigger] s[i] <= '9'))
            ==> !crate::auto_fix::error_classifier::error_code(s),
{
    reveal_strlit("E");
    assert("E"@[0] == 'E');
    assert(("E"@ + s).skip(1) =~= s);
    if exists|i: int| 1 <= i < s.len() && !('0' <= #[trigger] s[i] <= '9') {
        let i = choose|i: int| 1 <= i < s.len() && !('0' <= #[trigger] s[i] <= '9');
        assert(s.skip(1)[i - 1] == s[i]);
    }
}

} // verus!
