//! Maps the diagnostics of a build to the declarations of a split package,
//! using its line index.
use crate::declarations::{find_decl, owner};
use crate::fix_build_check::{
    DiagLevel, Diagnostic, DiagnosticView, RawBuildResult, RelatedSpanView,
};
use crate::split_and_format::SplitPackage;
use crate::text::{decimal, decimal_of, same};
use std::collections::HashMap;
use vstd::prelude::*;

verus! {

broadcast use vstd::std_specs::hash::group_hash_axioms;

/// Diagnostics of a build grouped by declaration index.
pub struct DeclarationDiagnostics {
    /// `true` if at least one diagnostic is at the `Error` level.
    pub has_errors: bool,
    /// `decl_idx` to the texts of its errors. Only declarations that have at
    /// least one error appear here.
    pub decl_errors: HashMap<usize, Vec<String>>,
    /// `decl_idx` to the texts of its warnings, and to those of the errors
    /// elsewhere whose notes point into the declaration.
    pub decl_warnings: HashMap<usize, Vec<String>>,
}

/// The texts of each declaration.
pub type Texts = Map<usize, Seq<Seq<char>>>;

/// What a map of vectors of strings holds.
pub open spec fn texts_of(m: Map<usize, Vec<String>>) -> Texts {
    Map::new(|k: usize| m.dom().contains(k), |k: usize| m[k].deep_view())
}

/// The texts of declaration `idx`; none if it is not there.
pub open spec fn texts_at(m: Texts, idx: usize) -> Seq<Seq<char>> {
    if m.dom().contains(idx) {
        m[idx]
    } else {
        seq![]
    }
}

/// With `text` after the texts of declaration `idx`.
pub open spec fn with_text(m: Texts, idx: usize, text: Seq<char>) -> Texts {
    m.insert(idx, texts_at(m, idx).push(text))
}

/// The texts of the diagnostics of one level under the declaration that holds
/// their first line.
pub open spec fn primary_texts(
    diags: Seq<DiagnosticView>,
    index: Seq<(usize, usize, usize)>,
    level: DiagLevel,
) -> Texts
    decreases diags.len(),
{
    if diags.len() == 0 {
        Map::empty()
    } else {
        let rest = primary_texts(diags.drop_last(), index, level);
        let d = diags.last();
        match owner(index, d.line_start as int) {
            Some(idx) => if d.level == level {
                with_text(rest, idx, d.full_text)
            } else {
                rest
            },
            None => rest,
        }
    }
}

/// With the text of an error as context for declaration `idx`, unless it is an
/// error of that declaration or is there already.
pub open spec fn with_context(m: Texts, errors: Texts, idx: usize, text: Seq<char>) -> Texts {
    if texts_at(errors, idx).contains(text) || texts_at(m, idx).contains(text) {
        m
    } else {
        with_text(m, idx, text)
    }
}

/// With the context that the notes of one error give: one per declaration of
/// the compiled file that a note points into.
pub open spec fn with_notes(
    m: Texts,
    errors: Texts,
    spans: Seq<RelatedSpanView>,
    text: Seq<char>,
    index: Seq<(usize, usize, usize)>,
    file: Seq<char>,
) -> Texts
    decreases spans.len(),
{
    if spans.len() == 0 {
        m
    } else {
        let rest = with_notes(m, errors, spans.drop_last(), text, index, file);
        let s = spans.last();
        match owner(index, s.line_start as int) {
            Some(idx) => if s.file == file {
                with_context(rest, errors, idx, text)
            } else {
                rest
            },
            None => rest,
        }
    }
}

/// With the context that the notes of all errors give.
pub open spec fn with_all_notes(
    m: Texts,
    errors: Texts,
    diags: Seq<DiagnosticView>,
    index: Seq<(usize, usize, usize)>,
    file: Seq<char>,
) -> Texts
    decreases diags.len(),
{
    if diags.len() == 0 {
        m
    } else {
        let rest = with_all_notes(m, errors, diags.drop_last(), index, file);
        let d = diags.last();
        if d.level == DiagLevel::Error {
            with_notes(rest, errors, d.related_spans, d.full_text, index, file)
        } else {
            rest
        }
    }
}

/// Puts `text` after the texts of declaration `idx`.
pub fn push_text(m: &mut HashMap<usize, Vec<String>>, idx: usize, text: &str)
    ensures
        texts_of(final(m)@) == with_text(texts_of(old(m)@), idx, text@),
{
    let ghost before = texts_of(m@);
    let mut list: Vec<String> = match m.remove(&idx) {
        Some(v) => v,
        None => Vec::new(),
    };
    let ghost had = list.deep_view();
    proof {
        assert(had =~= texts_at(before, idx));
    }
    list.push(text.to_owned());
    proof {
        assert(list.deep_view() =~= had.push(text@));
    }
    m.insert(idx, list);
    proof {
        assert(texts_of(m@) =~= with_text(before, idx, text@));
    }
}

fn holds_text(m: &HashMap<usize, Vec<String>>, idx: usize, text: &str) -> (r: bool)
    ensures
        r == texts_at(texts_of(m@), idx).contains(text@),
{
    match m.get(&idx) {
        Some(list) => {
            let ghost all = list.deep_view();
            let mut i: usize = 0;
            while i < list.len()
                invariant
                    all == list.deep_view(),
                    all == texts_at(texts_of(m@), idx),
                    i <= list@.len(),
                    forall|j: int| 0 <= j < i ==> all[j] != text@,
                decreases list@.len() - i,
            {
                if same(list[i].as_str(), text) {
                    proof {
                        assert(all[i as int] == text@);
                    }
                    return true;
                }
                i += 1;
            }
            false
        },
        None => false,
    }
}

/// Adds the text of an error as context for every declaration that one of its
/// notes references, skipping entries already present in `decl_errors` for that
/// declaration.
pub fn add_related_context(
    diag: &Diagnostic,
    split_pkg: &SplitPackage,
    decl_errors: &HashMap<usize, Vec<String>>,
    decl_warnings: &mut HashMap<usize, Vec<String>>,
)
    ensures
        texts_of(final(decl_warnings)@) == with_notes(
            texts_of(old(decl_warnings)@),
            texts_of(decl_errors@),
            diag.related_spans.deep_view(),
            diag.full_text@,
            split_pkg.line_index@,
            split_pkg.source_file_name@,
        ),
{
    let ghost start = texts_of(decl_warnings@);
    let ghost errors = texts_of(decl_errors@);
    let ghost spans = diag.related_spans.deep_view();
    let mut i: usize = 0;
    while i < diag.related_spans.len()
        invariant
            errors == texts_of(decl_errors@),
            spans == diag.related_spans.deep_view(),
            i <= diag.related_spans@.len(),
            texts_of(decl_warnings@) == with_notes(
                start,
                errors,
                spans.take(i as int),
                diag.full_text@,
                split_pkg.line_index@,
                split_pkg.source_file_name@,
            ),
        decreases diag.related_spans@.len() - i,
    {
        let span = &diag.related_spans[i];
        proof {
            assert(spans.take(i + 1).drop_last() =~= spans.take(i as int));
            assert(spans.take(i + 1).last() == span.deep_view());
        }
        if same(span.file.as_str(), split_pkg.source_file_name.as_str()) {
            match find_decl(&split_pkg.line_index, span.line_start as usize) {
                Some(idx) => {
                    let text = diag.full_text.as_str();
                    if !holds_text(decl_errors, idx, text) && !holds_text(
                        decl_warnings,
                        idx,
                        text,
                    ) {
                        push_text(decl_warnings, idx, text);
                    }
                },
                None => {},
            }
        }
        i += 1;
    }
    proof {
        assert(spans.take(i as int) =~= spans);
    }
}

/// Some diagnostic is at the `Error` level.
pub open spec fn any_error(diags: Seq<DiagnosticView>) -> bool {
    exists|i: int| 0 <= i < diags.len() && (#[trigger] diags[i]).level == DiagLevel::Error
}

/// Maps each diagnostic to the declaration that owns the reported line.
///
/// First errors and warnings go to the declaration that contains their primary
/// span. Then, for every error, each note that points into the compiled source
/// file puts the declaration there on notice: it gets the text of the error
/// among its warnings, unless that is already an error of its own.
pub struct DiagnosticAttributor;

impl DiagnosticAttributor {
    pub fn run(&self, split_pkg: &SplitPackage, build_result: &RawBuildResult) -> (r:
        DeclarationDiagnostics)
        ensures
            r.has_errors == any_error(build_result.diagnostics.deep_view()),
            texts_of(r.decl_errors@) == primary_texts(
                build_result.diagnostics.deep_view(),
                split_pkg.line_index@,
                DiagLevel::Error,
            ),
            texts_of(r.decl_warnings@) == with_all_notes(
                primary_texts(
                    build_result.diagnostics.deep_view(),
                    split_pkg.line_index@,
                    DiagLevel::Warning,
                ),
                texts_of(r.decl_errors@),
                build_result.diagnostics.deep_view(),
                split_pkg.line_index@,
                split_pkg.source_file_name@,
            ),
    {
        let diags = &build_result.diagnostics;
        let ghost all = diags.deep_view();
        let ghost index = split_pkg.line_index@;
        let ghost file = split_pkg.source_file_name@;
        let mut has_errors = false;
        let mut decl_errors: HashMap<usize, Vec<String>> = HashMap::new();
        let mut decl_warnings: HashMap<usize, Vec<String>> = HashMap::new();
        let mut i: usize = 0;
        proof {
            assert(texts_of(decl_errors@) =~= Map::empty());
            assert(texts_of(decl_warnings@) =~= Map::empty());
        }
        while i < diags.len()
            invariant
                all == diags.deep_view(),
                index == split_pkg.line_index@,
                i <= diags@.len(),
                has_errors == any_error(all.take(i as int)),
                texts_of(decl_errors@) == primary_texts(
                    all.take(i as int),
                    index,
                    DiagLevel::Error,
                ),
                texts_of(decl_warnings@) == primary_texts(
                    all.take(i as int),
                    index,
                    DiagLevel::Warning,
                ),
            decreases diags@.len() - i,
        {
            let diag = &diags[i];
            proof {
                assert(all.take(i + 1).drop_last() =~= all.take(i as int));
                assert(all.take(i + 1).last() == diag.deep_view());
                let before = all.take(i as int);
                let after = all.take(i + 1);
                assert(any_error(after) == (any_error(before) || diag.level == DiagLevel::Error))
                    by {
                    assert(after[i as int] == diag.deep_view());
                    if any_error(before) {
                        let k = choose|k: int|
                            0 <= k < before.len() && (#[trigger] before[k]).level
                                == DiagLevel::Error;
                        assert(after[k] == before[k]);
                    }
                    if any_error(after) && diag.level != DiagLevel::Error {
                        let k = choose|k: int|
                            0 <= k < after.len() && (#[trigger] after[k]).level
                                == DiagLevel::Error;
                        assert(before[k] == after[k]);
                    }
                }
            }
            if diag.level == DiagLevel::Error {
                has_errors = true;
            }
            match find_decl(&split_pkg.line_index, diag.line_start as usize) {
                Some(idx) => match diag.level {
                    DiagLevel::Error => {
                        push_text(&mut decl_errors, idx, diag.full_text.as_str());
                    },
                    DiagLevel::Warning => {
                        push_text(&mut decl_warnings, idx, diag.full_text.as_str());
                    },
                },
                None => {},
            }
            i += 1;
        }
        let ghost errors = texts_of(decl_errors@);
        let ghost start = texts_of(decl_warnings@);
        proof {
            assert(all.take(i as int) =~= all);
        }
        let mut j: usize = 0;
        while j < diags.len()
            invariant
                all == diags.deep_view(),
                index == split_pkg.line_index@,
                file == split_pkg.source_file_name@,
                errors == texts_of(decl_errors@),
                j <= diags@.len(),
                texts_of(decl_warnings@) == with_all_notes(
                    start,
                    errors,
                    all.take(j as int),
                    index,
                    file,
                ),
            decreases diags@.len() - j,
        {
            let diag = &diags[j];
            proof {
                assert(all.take(j + 1).drop_last() =~= all.take(j as int));
                assert(all.take(j + 1).last() == diag.deep_view());
            }
            if diag.level == DiagLevel::Error {
                add_related_context(diag, split_pkg, &decl_errors, &mut decl_warnings);
            }
            j += 1;
        }
        proof {
            assert(all.take(j as int) =~= all);
        }
        DeclarationDiagnostics { has_errors, decl_errors, decl_warnings }
    }
}

impl DeclarationDiagnostics {
    /// A one-line description.
    pub fn describe(&self) -> (r: String)
        ensures
            r@ == "DeclarationDiagnostics: has_errors="@ + (if self.has_errors {
                "true"@
            } else {
                "false"@
            }) + ", error_decls="@ + decimal_of(self.decl_errors@.len()) + ", warning_decls="@
                + decimal_of(self.decl_warnings@.len()) + "\n"@,
    {
        let mut out = "DeclarationDiagnostics: has_errors=".to_owned();
        if self.has_errors {
            out.push_str("true");
        } else {
            out.push_str("false");
        }
        out.push_str(", error_decls=");
        out.push_str(decimal(self.decl_errors.len()).as_str());
        out.push_str(", warning_decls=");
        out.push_str(decimal(self.decl_warnings.len()).as_str());
        out.push_str("\n");
        out
    }
}

// ---------------------------------------------------------------------------
// Laws
// ---------------------------------------------------------------------------

/// Only declarations that have at least one text appear.
pub proof fn listed_declarations_have_texts(
    diags: Seq<DiagnosticView>,
    index: Seq<(usize, usize, usize)>,
    level: DiagLevel,
)
    ensures
        forall|k: usize| #[trigger]
            primary_texts(diags, index, level).dom().contains(k) ==> primary_texts(
                diags,
                index,
                level,
            )[k].len() > 0,
    decreases diags.len(),
{
    if diags.len() > 0 {
        listed_declarations_have_texts(diags.drop_last(), index, level);
        let before = primary_texts(diags.drop_last(), index, level);
        let after = primary_texts(diags, index, level);
        assert forall|k: usize| #[trigger] after.dom().contains(k) implies after[k].len() > 0 by {
            if before.dom().contains(k) {
                assert(before[k].len() > 0);
            }
        }
    }
}

/// Every declaration of the compiled file that a note of an error points into
/// knows of the error: among its own errors or among its warnings.
pub proof fn referenced_declarations_are_told(
    m: Texts,
    errors: Texts,
    spans: Seq<RelatedSpanView>,
    text: Seq<char>,
    index: Seq<(usize, usize, usize)>,
    file: Seq<char>,
    i: int,
)
    requires
        0 <= i < spans.len(),
        spans[i].file == file,
        owner(index, spans[i].line_start as int) is Some,
    ensures
        ({
            let idx = owner(index, spans[i].line_start as int)->0;
            texts_at(errors, idx).contains(text) || texts_at(
                with_notes(m, errors, spans, text, index, file),
                idx,
            ).contains(text)
        }),
    decreases spans.len(),
{
    let idx = owner(index, spans[i].line_start as int)->0;
    let before = with_notes(m, errors, spans.drop_last(), text, index, file);
    let after = with_notes(m, errors, spans, text, index, file);
    if i < spans.len() - 1 {
        referenced_declarations_are_told(m, errors, spans.drop_last(), text, index, file, i);
        match owner(index, spans.last().line_start as int) {
            Some(k) => {
                if k == idx && after != before {
                    assert(texts_at(after, idx).last() == text);
                }
            },
            None => {},
        }
    } else if !texts_at(errors, idx).contains(text) && !texts_at(before, idx).contains(text) {
        assert(texts_at(after, idx).last() == text);
    }
}

/// What is told a declaration of a level is the text of each diagnostic of that
/// level that starts on one of its lines, in order.
pub proof fn declarations_are_told_their_diagnostics(
    diags: Seq<DiagnosticView>,
    index: Seq<(usize, usize, usize)>,
    level: DiagLevel,
    k: usize,
)
    ensures
        texts_at(primary_texts(diags, index, level), k) == diags.filter(
            |d: DiagnosticView| d.level == level && owner(index, d.line_start as int) == Some(k),
        ).map_values(|d: DiagnosticView| d.full_text),
        forall|i: int|
            0 <= i < diags.len() && (#[trigger] diags[i]).level == level && owner(
                index,
                diags[i].line_start as int,
            ) == Some(k) ==> texts_at(primary_texts(diags, index, level), k).contains(
                diags[i].full_text,
            ),
    decreases diags.len(),
{
    reveal(Seq::filter);
    let p = |d: DiagnosticView| d.level == level && owner(index, d.line_start as int) == Some(k);
    let g = |d: DiagnosticView| d.full_text;
    let out = texts_at(primary_texts(diags, index, level), k);
    if diags.len() > 0 {
        let rest = diags.drop_last();
        declarations_are_told_their_diagnostics(rest, index, level, k);
        let kept = rest.filter(p);
        let d = diags.last();
        if p(d) {
            assert(kept.push(d).map_values(g) =~= kept.map_values(g).push(g(d)));
        }
        assert(out =~= diags.filter(p).map_values(g));
        assert forall|i: int|
            0 <= i < diags.len() && (#[trigger] diags[i]).level == level && owner(
                index,
                diags[i].line_start as int,
            ) == Some(k) implies out.contains(diags[i].full_text) by {
            let before = texts_at(primary_texts(rest, index, level), k);
            if i < rest.len() {
                assert(rest[i] == diags[i]);
                let j = choose|j: int| 0 <= j < before.len() && before[j] == diags[i].full_text;
                assert(out[j] == diags[i].full_text);
            } else {
                assert(out[out.len() - 1] == d.full_text);
            }
        }
    } else {
        assert(out =~= diags.filter(p).map_values(g));
    }
}

/// The spans of the diagnostic point into the declaration.
pub open spec fn points_to(
    spans: Seq<RelatedSpanView>,
    index: Seq<(usize, usize, usize)>,
    file: Seq<char>,
    k: usize,
) -> bool {
    exists|j: int|
        0 <= j < spans.len() && (#[trigger] spans[j]).file == file && owner(
            index,
            spans[j].line_start as int,
        ) == Some(k)
}

proof fn notes_of_one(
    m: Texts,
    errors: Texts,
    spans: Seq<RelatedSpanView>,
    text: Seq<char>,
    index: Seq<(usize, usize, usize)>,
    file: Seq<char>,
    k: usize,
)
    ensures
        ({
            let after = texts_at(with_notes(m, errors, spans, text, index, file), k);
            let before = texts_at(m, k);
            after == (if points_to(spans, index, file, k) && !texts_at(errors, k).contains(text)
                && !before.contains(text) {
                before.push(text)
            } else {
                before
            })
        }),
    decreases spans.len(),
{
    let before = texts_at(m, k);
    if spans.len() > 0 {
        let rest = spans.drop_last();
        let n = spans.len() - 1;
        notes_of_one(m, errors, rest, text, index, file, k);
        let mid = texts_at(with_notes(m, errors, rest, text, index, file), k);
        let here = spans[n].file == file && owner(index, spans[n].line_start as int) == Some(k);
        assert(points_to(spans, index, file, k) == (points_to(rest, index, file, k) || here)) by {
            if points_to(rest, index, file, k) {
                let j = choose|j: int|
                    0 <= j < rest.len() && (#[trigger] rest[j]).file == file && owner(
                        index,
                        rest[j].line_start as int,
                    ) == Some(k);
                assert(spans[j].file == file);
            }
            if points_to(spans, index, file, k) {
                let j = choose|j: int|
                    0 <= j < spans.len() && (#[trigger] spans[j]).file == file && owner(
                        index,
                        spans[j].line_start as int,
                    ) == Some(k);
                if j < n {
                    assert(rest[j].file == file);
                }
            }
        }
        if mid == before.push(text) {
            assert(mid[before.len() as int] == text);
            assert(mid.contains(text));
        }
    }
}

/// The text is that of an error whose notes point into the declaration.
pub open spec fn told_by_an_error(
    diags: Seq<DiagnosticView>,
    index: Seq<(usize, usize, usize)>,
    file: Seq<char>,
    k: usize,
    text: Seq<char>,
) -> bool {
    exists|i: int|
        0 <= i < diags.len() && (#[trigger] diags[i]).level == DiagLevel::Error
            && diags[i].full_text == text && points_to(diags[i].related_spans, index, file, k)
}

/// Besides its own warnings, a declaration is told each error whose notes point
/// into it, once, unless the error is its own; nothing else is added and nothing is
/// taken away.
pub proof fn errors_are_told_where_they_point(
    m: Texts,
    errors: Texts,
    diags: Seq<DiagnosticView>,
    index: Seq<(usize, usize, usize)>,
    file: Seq<char>,
    k: usize,
)
    ensures
        texts_at(m, k).is_prefix_of(
            texts_at(with_all_notes(m, errors, diags, index, file), k),
        ),
        forall|i: int|
            0 <= i < diags.len() && (#[trigger] diags[i]).level == DiagLevel::Error && points_to(
                diags[i].related_spans,
                index,
                file,
                k,
            ) ==> texts_at(with_all_notes(m, errors, diags, index, file), k).contains(
                diags[i].full_text,
            ) || texts_at(errors, k).contains(diags[i].full_text),
        forall|j: int|
            texts_at(m, k).len() <= j < texts_at(
                with_all_notes(m, errors, diags, index, file),
                k,
            ).len() ==> !texts_at(errors, k).contains(
                #[trigger] texts_at(with_all_notes(m, errors, diags, index, file), k)[j],
            ) && told_by_an_error(
                diags,
                index,
                file,
                k,
                texts_at(with_all_notes(m, errors, diags, index, file), k)[j],
            ),
        texts_at(m, k).no_duplicates() ==> texts_at(
            with_all_notes(m, errors, diags, index, file),
            k,
        ).no_duplicates(),
    decreases diags.len(),
{
    let before = texts_at(m, k);
    let after = texts_at(with_all_notes(m, errors, diags, index, file), k);
    if diags.len() > 0 {
        let rest = diags.drop_last();
        let n = diags.len() - 1;
        let d = diags[n];
        errors_are_told_where_they_point(m, errors, rest, index, file, k);
        let mid_map = with_all_notes(m, errors, rest, index, file);
        let mid = texts_at(mid_map, k);
        if d.level == DiagLevel::Error {
            notes_of_one(mid_map, errors, d.related_spans, d.full_text, index, file, k);
        }
        assert(after == mid || after == mid.push(d.full_text));
        assert(before.is_prefix_of(after)) by {
            assert(after.subrange(0, before.len() as int) =~= mid.subrange(
                0,
                before.len() as int,
            ));
        }
        assert forall|i: int|
            0 <= i < diags.len() && (#[trigger] diags[i]).level == DiagLevel::Error && points_to(
                diags[i].related_spans,
                index,
                file,
                k,
            ) implies after.contains(diags[i].full_text) || texts_at(errors, k).contains(
            diags[i].full_text,
        ) by {
            if i < n {
                assert(rest[i] == diags[i]);
                if mid.contains(diags[i].full_text) {
                    let j = choose|j: int| 0 <= j < mid.len() && mid[j] == diags[i].full_text;
                    assert(after[j] == diags[i].full_text);
                }
            } else if after.len() > mid.len() {
                assert(after[mid.len() as int] == d.full_text);
            }
        }
        assert forall|j: int| before.len() <= j < after.len() implies !texts_at(
            errors,
            k,
        ).contains(#[trigger] after[j]) && told_by_an_error(diags, index, file, k, after[j]) by {
            if j < mid.len() {
                assert(after[j] == mid[j]);
                assert(told_by_an_error(rest, index, file, k, mid[j]));
                let i = choose|i: int|
                    0 <= i < rest.len() && (#[trigger] rest[i]).level == DiagLevel::Error
                        && rest[i].full_text == mid[j] && points_to(
                        rest[i].related_spans,
                        index,
                        file,
                        k,
                    );
                assert(diags[i] == rest[i]);
            } else {
                assert(diags[n].full_text == after[j]);
            }
        }
        if before.no_duplicates() && after != mid {
            assert(after == mid.push(d.full_text) && !mid.contains(d.full_text));
            assert forall|x: int, y: int| 0 <= x < after.len() && 0 <= y < after.len() && x
                != y implies after[x] != after[y] by {
                if x < mid.len() && y < mid.len() {
                    assert(mid[x] != mid[y]);
                } else if x < mid.len() {
                    assert(mid.contains(mid[x]));
                } else {
                    assert(mid.contains(mid[y]));
                }
            }
        }
    } else {
        assert(after.subrange(0, before.len() as int) =~= before);
    }
}

/// A build has errors if one of its diagnostics is one.
pub proof fn one_error_is_enough(diags: Seq<DiagnosticView>, i: int)
    requires
        0 <= i < diags.len(),
    ensures
        diags[i].level == DiagLevel::Error ==> any_error(diags),
        (forall|k: int| 0 <= k < diags.len() ==> (#[trigger] diags[k]).level != DiagLevel::Error)
            ==> !any_error(diags),
{
}

} // verus!
