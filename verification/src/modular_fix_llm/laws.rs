//! What holds of the repair of a package.
use crate::fix_build_check;
use crate::fix_build_check::diagnostics_in;
use crate::cargo_output::CargoMessage;
use crate::auto_fix::error_classifier::{has_report, report_of, DiagLevel, DiagnosticView};
use crate::modular_fix_llm::error_classifier::{
    classifies, located, located_in, summaries_of, summary_of, ErrorClassification,
};
use crate::modular_fix_llm::fix_llm::filled_prompt;
use crate::modular_fix_llm::repair_loop::ends_here;
use crate::modular_fix_llm::repair_state::{
    after_attributes, all_insides, concatenated, insides, printed_stub,
};
use crate::rust_syntax::ItemView;
use crate::seqs::flat_map_last;
use crate::text::{has_part, occurs_at, replaced, without_newlines};
use crate::text_laws::{
    first_occurrence_is_replaced, found_parts_stand_there, nothing_to_replace,
};
use core::ops::Range;
use crate::auto_fix::laws::diagnostics_are_selected;
use vstd::prelude::*;

verus! {

/// A repair goes on while the build fails with errors and rounds are left: with a
/// limit of `max` rounds, it ends before round `max` only by success or for want of
/// errors.
pub proof fn repair_goes_on_while_there_are_errors(
    success: bool,
    errors: usize,
    iteration: usize,
    max: usize,
)
    ensures
        !success && errors > 0 && iteration < max ==> !ends_here(success, errors, iteration, max),
        success ==> ends_here(success, errors, iteration, max),
        errors == 0 ==> ends_here(success, errors, iteration, max),
        iteration >= max ==> ends_here(success, errors, iteration, max),
{
}

/// Each diagnostic of the build is located by the start of its span, with its
/// level, code, message and text, in order.
pub proof fn diagnostics_are_located_at_their_start(messages: Seq<CargoMessage>, i: int)
    requires
        0 <= i < diagnostics_in(messages).len(),
    ensures
        located_in(messages).len() == diagnostics_in(messages).len(),
        ({
            let d = diagnostics_in(messages)[i];
            let l = located_in(messages)[i];
            &&& l.file == d.file
            &&& l.line == d.line_start
            &&& l.col == d.col_start
            &&& l.code == d.code
            &&& l.message == d.message
            &&& l.full_text == d.full_text
            &&& l.level == DiagLevel::Error <==> d.level == fix_build_check::DiagLevel::Error
            &&& l.level == DiagLevel::Warning <==> d.level == fix_build_check::DiagLevel::Warning
        }),
        located_in(messages) == diagnostics_in(messages).map_values(
            |d: fix_build_check::DiagnosticView| located(d),
        ),
{
    assert(located_in(messages) =~= diagnostics_in(messages).map_values(
        |d: fix_build_check::DiagnosticView| located(d),
    ));
}

/// The parts that are stubbed are those of the items, item by item, and printed
/// items are put one behind the other.
pub proof fn items_are_stubbed_one_by_one(items: Seq<ItemView>)
    ensures
        all_insides(items) == items.flat_map(|i: ItemView| insides(i)),
    decreases items.len(),
{
    let f = |i: ItemView| insides(i);
    flat_map_last(items, f);
    if items.len() > 0 {
        items_are_stubbed_one_by_one(items.drop_last());
    } else {
        assert(all_insides(items) =~= items.flat_map(f));
    }
}

/// Printed items are put one behind the other, without the line feeds at the end
/// of the last; a text that cannot be printed is shown as it is.
pub proof fn printed_items_are_put_together(text: Seq<char>, parts: Seq<Seq<char>>)
    ensures
        concatenated(parts) == parts.flatten(),
        printed_stub(text, Some(parts)) == without_newlines(parts.flatten()),
        printed_stub(text, None) == without_newlines(text),
    decreases parts.len(),
{
    if parts.len() > 0 {
        printed_items_are_put_together(text, parts.drop_last());
        parts.lemma_flatten_and_flatten_alt_are_equivalent();
        parts.drop_last().lemma_flatten_and_flatten_alt_are_equivalent();
    } else {
        assert(concatenated(parts) =~= parts.flatten());
    }
}

/// The statements of a body start behind the last attribute that stands in it, or
/// behind its brace where none does.
pub proof fn statements_start_behind_the_attributes(
    attributes: Seq<Range<usize>>,
    open: usize,
    from: usize,
)
    ensures
        ({
            let within = attributes.filter(|a: Range<usize>| a.start > open);
            after_attributes(attributes, open, from) == (if within.len() > 0 {
                within.last().end
            } else {
                from
            })
        }),
    decreases attributes.len(),
{
    reveal(Seq::filter);
    if attributes.len() > 0 {
        statements_start_behind_the_attributes(attributes.drop_last(), open, from);
    }
}

// ---------------------------------------------------------------------------
// The request
// ---------------------------------------------------------------------------

proof fn fill_one(before: Seq<char>, mark: Seq<char>, after: Seq<char>, value: Seq<char>)
    requires
        mark.len() > 0,
        mark[0] == '{',
        !before.contains('{'),
        !has_part(after, mark),
    ensures
        replaced(before + mark + after, mark, value) == before + value + after,
{
    let s = before + mark + after;
    assert forall|i: int| 0 <= i < before.len() implies !#[trigger] occurs_at(s, mark, i) by {
        if occurs_at(s, mark, i) {
            assert(s.subrange(i, i + mark.len())[0] == s[i]);
            assert(s[i] == before[i]);
            assert(before.contains(before[i]));
        }
    }
    first_occurrence_is_replaced(before, mark, after, value);
    nothing_to_replace(after, mark, value);
}

proof fn no_mark(s: Seq<char>, mark: Seq<char>)
    requires
        mark.len() > 1,
        mark[0] == '{',
        forall|i: int| 0 <= i && i + 1 < s.len() && #[trigger] s[i] == '{' ==> s[i + 1] != mark[1],
    ensures
        !has_part(s, mark),
{
    if has_part(s, mark) {
        found_parts_stand_there(s, mark);
        let (a, b) = choose|a: Seq<char>, b: Seq<char>| #[trigger] (a + mark + b) == s;
        let t = a + mark + b;
        let k = a.len() as int;
        assert(t[k] == mark[0] && t[k + 1] == mark[1]);
        assert(s[k] == '{');
    }
}

/// A request holds the interface, the errors and the declaration in their places,
/// and the text of its template around them.
pub proof fn requests_hold_their_parts(
    a: Seq<char>,
    b: Seq<char>,
    c: Seq<char>,
    d: Seq<char>,
    context: Seq<char>,
    errors: Seq<char>,
    declaration: Seq<char>,
)
    requires
        !a.contains('{'),
        !b.contains('{'),
        !c.contains('{'),
        !d.contains('{'),
        !context.contains('{'),
        !errors.contains('{'),
    ensures
        filled_prompt(
            a + "{context}"@ + b + "{errors}"@ + c + "{declaration}"@ + d,
            context,
            errors,
            declaration,
        ) == a + context + b + errors + c + declaration + d,
{
    reveal_strlit("{context}");
    reveal_strlit("{errors}");
    reveal_strlit("{declaration}");
    let m1 = "{context}"@;
    let m2 = "{errors}"@;
    let m3 = "{declaration}"@;
    let r1 = b + m2 + c + m3 + d;
    let r2 = c + m3 + d;
    assert forall|i: int| 0 <= i && i + 1 < r1.len() && #[trigger] r1[i] == '{' implies r1[i + 1]
        != m1[1] by {
        let x = b.len() as int;
        let y = x + m2.len();
        let z = y + c.len();
        if i < x {
            assert(b.contains(b[i]));
        } else if x < i < y {
            assert(r1[i] == m2[i - x]);
        } else if y <= i < z {
            assert(r1[i] == c[i - y]);
            assert(c.contains(c[i - y]));
        } else if z < i < z + m3.len() {
            assert(r1[i] == m3[i - z]);
        } else if i >= z + m3.len() {
            assert(r1[i] == d[i - z - m3.len()]);
            assert(d.contains(d[i - z - m3.len()]));
        } else if i == x {
            assert(r1[i + 1] == m2[1]);
        } else {
            assert(r1[i + 1] == m3[1]);
        }
    }
    no_mark(r1, m1);
    assert(a + m1 + b + m2 + c + m3 + d =~= a + m1 + r1);
    fill_one(a, m1, r1, context);
    let s1 = a + context + b;
    assert(!s1.contains('{')) by {
        if s1.contains('{') {
            let i = choose|i: int| 0 <= i < s1.len() && s1[i] == '{';
            if i < a.len() {
                assert(a.contains(a[i]));
            } else if i < a.len() + context.len() {
                assert(context.contains(context[i - a.len()]));
            } else {
                assert(b.contains(b[i - a.len() - context.len()]));
            }
        }
    }
    assert(a + context + r1 =~= s1 + m2 + r2);
    assert forall|i: int| 0 <= i && i + 1 < r2.len() && #[trigger] r2[i] == '{' implies r2[i + 1]
        != m2[1] by {
        let z = c.len() as int;
        if i < z {
            assert(c.contains(c[i]));
        } else if z < i < z + m3.len() {
            assert(r2[i] == m3[i - z]);
        } else if i >= z + m3.len() {
            assert(r2[i] == d[i - z - m3.len()]);
            assert(d.contains(d[i - z - m3.len()]));
        } else {
            assert(r2[i + 1] == m3[1]);
        }
    }
    no_mark(r2, m2);
    fill_one(s1, m2, r2, errors);
    let s2 = s1 + errors + c;
    assert(!s2.contains('{')) by {
        if s2.contains('{') {
            let i = choose|i: int| 0 <= i < s2.len() && s2[i] == '{';
            if i < s1.len() {
                assert(s1.contains(s1[i]));
            } else if i < s1.len() + errors.len() {
                assert(errors.contains(errors[i - s1.len()]));
            } else {
                assert(c.contains(c[i - s1.len() - errors.len()]));
            }
        }
    }
    assert(s1 + errors + r2 =~= s2 + m3 + d);
    assert forall|i: int| 0 <= i && i + 1 < d.len() && #[trigger] d[i] == '{' implies d[i + 1]
        != m3[1] by {
        assert(d.contains(d[i]));
    }
    no_mark(d, m3);
    fill_one(s2, m3, d, declaration);
    assert(s2 + declaration + d =~= a + context + b + errors + c + declaration + d);
}

/// A report lists every error of its file, in order, and nothing else; every file with
/// an error has one; and every diagnostic is counted by its level.
pub proof fn reports_list_the_errors_of_their_file(
    diags: Seq<DiagnosticView>,
    c: ErrorClassification,
    i: int,
)
    requires
        classifies(diags, c),
        0 <= i < c.files@.len(),
    ensures
        c.files@[i].diagnostics.deep_view() == diags.filter(
            |d: DiagnosticView| d.file == c.files@[i].file_path@ && d.level == DiagLevel::Error,
        ),
        c.files@[i].error_count == c.files@[i].diagnostics@.len(),
        c.files@[i].diagnostics@.len() > 0,
        c.total_errors == diags.filter(|d: DiagnosticView| d.level == DiagLevel::Error).len(),
        c.total_warnings == diags.filter(|d: DiagnosticView| d.level == DiagLevel::Warning).len(),
{
    let file = c.files@[i].file_path@;
    diagnostics_are_selected(diags, file, DiagLevel::Error);
    diagnostics_are_selected(diags, file, DiagLevel::Warning);
    let summaries = summaries_of(c.files@);
    assert(summaries[i] == summary_of(c.files@[i]));
    assert(summaries[i] == report_of(diags, file));
}

/// Every error of a build stands in the report of its file.
pub proof fn errors_are_reported(diags: Seq<DiagnosticView>, c: ErrorClassification, k: int)
    requires
        classifies(diags, c),
        0 <= k < diags.len(),
        diags[k].level == DiagLevel::Error,
    ensures
        exists|i: int|
            0 <= i < c.files@.len() && (#[trigger] c.files@[i]).file_path@ == diags[k].file
                && c.files@[i].diagnostics.deep_view().contains(diags[k]),
{
    let summaries = summaries_of(c.files@);
    assert(has_report(summaries, diags[k].file));
    let i = choose|i: int|
        0 <= i < summaries.len() && (#[trigger] summaries[i]).file_path == diags[k].file;
    assert(summaries[i] == summary_of(c.files@[i]));
    diagnostics_are_selected(diags, diags[k].file, DiagLevel::Error);
    assert(c.files@[i].file_path@ == diags[k].file);
}

} // verus!
