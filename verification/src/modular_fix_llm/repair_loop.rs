//! The decisions of the repair loop. The caller builds the package and asks for
//! repaired declarations.
use crate::auto_fix::error_classifier::DiagnosticView;
use crate::cargo_output::cargo_messages;
use crate::declarations::{
    end_line, index_of, lines_fit, owner, owner_is_the_declaration_on_the_line, start_line,
};
use crate::modular_fix_llm::error_classifier::{
    classifies, classify_errors, located_in, BuildOutput, ErrorClassification, FileErrorReport,
};
use crate::modular_fix_llm::repair_state::{stub_of, RepairState};
use crate::diagnostic_attributor::{push_text, texts_at, texts_of, with_text, Texts};
use crate::seqs::{filter_has, flat_map_has, flat_map_last};
use crate::text::{decimal, decimal_of, has_part, join, joined};
use crate::text_laws::joined_has_its_parts;
use std::collections::HashMap;
use vstd::prelude::*;

verus! {

broadcast use vstd::std_specs::hash::group_hash_axioms;

/// The modular fix tool.
pub struct ModularFixLlm;

impl ModularFixLlm {
    /// The number of repair iterations when none is configured.
    pub fn default_max_iterations() -> (r: usize)
        ensures
            r == 5,
    {
        5
    }
}

/// A request for a repaired declaration.
#[derive(Debug)]
pub struct FixRequest {
    pub decl_idx: usize,
    pub decl_source: String,
    pub errors_text: String,
}

#[verifier::ext_equal]
pub ghost struct FixRequestView {
    pub decl_idx: usize,
    pub decl_source: Seq<char>,
    pub errors_text: Seq<char>,
}

impl DeepView for FixRequest {
    type V = FixRequestView;

    open spec fn deep_view(&self) -> FixRequestView {
        FixRequestView {
            decl_idx: self.decl_idx,
            decl_source: self.decl_source@,
            errors_text: self.errors_text@,
        }
    }
}

/// What follows a build.
#[derive(Debug)]
pub enum RepairPlan {
    /// The package is returned as it is.
    Stop,
    /// These declarations are to be repaired, with the interface of the whole
    /// file as context, before the next build.
    Fix { context: String, requests: Vec<FixRequest> },
}

/// The error texts of `diags` after those of `m`, each under the declaration on
/// its line.
pub open spec fn with_errors(
    m: Texts,
    diags: Seq<DiagnosticView>,
    index: Seq<(usize, usize, usize)>,
) -> Texts
    decreases diags.len(),
{
    if diags.len() == 0 {
        m
    } else {
        let rest = with_errors(m, diags.drop_last(), index);
        match owner(index, diags.last().line as int) {
            Some(idx) => with_text(rest, idx, diags.last().full_text),
            None => rest,
        }
    }
}

/// The error texts of all reports, each under the declaration on its line.
pub open spec fn errors_by_declaration(
    files: Seq<FileErrorReport>,
    index: Seq<(usize, usize, usize)>,
) -> Texts
    decreases files.len(),
{
    if files.len() == 0 {
        Map::empty()
    } else {
        with_errors(
            errors_by_declaration(files.drop_last(), index),
            files.last().diagnostics.deep_view(),
            index,
        )
    }
}

/// One request for each of the first `n` declarations that has errors, in
/// order.
pub open spec fn requests_for(errors: Texts, decls: Seq<Seq<char>>, n: int) -> Seq<FixRequestView>
    decreases n,
{
    if n <= 0 {
        seq![]
    } else {
        let rest = requests_for(errors, decls, n - 1);
        let idx = (n - 1) as usize;
        if errors.dom().contains(idx) {
            rest.push(
                FixRequestView {
                    decl_idx: idx,
                    decl_source: decls[n - 1],
                    errors_text: joined(errors[idx], "\n\n"@),
                },
            )
        } else {
            rest
        }
    }
}

/// All requests that a classification gives rise to.
pub open spec fn all_requests(files: Seq<FileErrorReport>, decls: Seq<Seq<char>>) -> Seq<
    FixRequestView,
> {
    requests_for(
        errors_by_declaration(files, index_of(decls)),
        decls,
        decls.len() as int,
    )
}

/// The build is not repaired any further: it succeeded, shows no error, or was
/// the last that is allowed.
pub open spec fn ends_here(
    success: bool,
    total_errors: usize,
    iteration: usize,
    max_iterations: usize,
) -> bool {
    success || total_errors == 0 || iteration >= max_iterations
}

fn map_errors(state: &mut RepairState, files: &Vec<FileErrorReport>) -> (r: HashMap<
    usize,
    Vec<String>,
>)
    requires
        old(state).wf(),
    ensures
        texts_of(r@) == errors_by_declaration(files@, index_of(old(state).decls())),
        final(state).wf(),
        final(state).decls() == old(state).decls(),
        final(state).cargo_toml@ == old(state).cargo_toml@,
        final(state).source_file_name@ == old(state).source_file_name@,
{
    let ghost decls = state.decls();
    let ghost toml = state.cargo_toml@;
    let ghost name = state.source_file_name@;
    let ghost index = index_of(decls);
    let mut errors: HashMap<usize, Vec<String>> = HashMap::new();
    let mut i: usize = 0;
    proof {
        assert(texts_of(errors@) =~= Map::empty());
    }
    while i < files.len()
        invariant
            state.wf(),
            state.decls() == decls,
            state.cargo_toml@ == toml,
            state.source_file_name@ == name,
            index == index_of(decls),
            i <= files@.len(),
            texts_of(errors@) == errors_by_declaration(files@.take(i as int), index),
        decreases files@.len() - i,
    {
        let ghost start = texts_of(errors@);
        let diags = &files[i].diagnostics;
        let ghost all = diags.deep_view();
        let mut k: usize = 0;
        proof {
            assert(files@.take(i + 1).drop_last() =~= files@.take(i as int));
        }
        while k < diags.len()
            invariant
                state.wf(),
                    state.decls() == decls,
                state.cargo_toml@ == toml,
                state.source_file_name@ == name,
                index == index_of(decls),
                all == diags.deep_view(),
                k <= diags@.len(),
                texts_of(errors@) == with_errors(start, all.take(k as int), index),
            decreases diags@.len() - k,
        {
            proof {
                assert(all.take(k + 1).drop_last() =~= all.take(k as int));
                assert(all.take(k + 1).last() == diags@[k as int].deep_view());
            }
            match state.find_declaration_for_line(diags[k].line as usize) {
                Some(idx) => {
                    push_text(&mut errors, idx, diags[k].full_text.as_str());
                },
                None => {},
            }
            k += 1;
        }
        proof {
            assert(all.take(k as int) =~= all);
        }
        i += 1;
    }
    proof {
        assert(files@.take(i as int) =~= files@);
    }
    errors
}

/// The requests that the errors of a classification give rise to: each error
/// goes to the declaration on its line, and an error on no declaration is
/// dropped.
pub fn repair_requests(state: &mut RepairState, files: &Vec<FileErrorReport>) -> (r: Vec<
    FixRequest,
>)
    requires
        old(state).wf(),
    ensures
        r.deep_view() == all_requests(files@, old(state).decls()),
        final(state).wf(),
        final(state).decls() == old(state).decls(),
        final(state).cargo_toml@ == old(state).cargo_toml@,
        final(state).source_file_name@ == old(state).source_file_name@,
{
    let errors = map_errors(state, files);
    let ghost decls = state.decls();
    let ghost by_decl = texts_of(errors@);
    let mut out: Vec<FixRequest> = Vec::new();
    let mut i: usize = 0;
    proof {
        assert(out.deep_view() =~= requests_for(by_decl, decls, 0));
        assert(decls.len() == state.declarations@.len());
    }
    while i < state.declarations.len()
        invariant
            decls == state.decls(),
            decls.len() == state.declarations@.len(),
            by_decl == texts_of(errors@),
            i <= decls.len(),
            out.deep_view() == requests_for(by_decl, decls, i as int),
        decreases decls.len() - i,
    {
        let ghost before = out.deep_view();
        match errors.get(&i) {
            Some(texts) => {
                let errors_text = join(texts.as_slice(), "\n\n");
                let request = FixRequest {
                    decl_idx: i,
                    decl_source: state.declarations[i].source.as_str().to_owned(),
                    errors_text,
                };
                out.push(request);
                proof {
                    assert(Seq::new(texts@.len(), |k: int| texts@[k]@) =~= texts.deep_view());
                    assert(by_decl[i] == texts.deep_view());
                    assert(out.deep_view() =~= before.push(request.deep_view()));
                }
            },
            None => {},
        }
        i += 1;
    }
    out
}

/// What follows the build of iteration `iteration`, whose errors are classified
/// as `classification`.
pub fn plan_from_classification(
    state: &mut RepairState,
    success: bool,
    classification: &ErrorClassification,
    iteration: usize,
    max_iterations: usize,
) -> (r: RepairPlan)
    requires
        old(state).wf(),
    ensures
        final(state).wf(),
        final(state).decls() == old(state).decls(),
        final(state).cargo_toml@ == old(state).cargo_toml@,
        final(state).source_file_name@ == old(state).source_file_name@,
        match r {
            RepairPlan::Stop => ends_here(
                success,
                classification.total_errors,
                iteration,
                max_iterations,
            ) || all_requests(classification.files@, old(state).decls()).len() == 0,
            RepairPlan::Fix { context, requests } => {
                &&& !ends_here(success, classification.total_errors, iteration, max_iterations)
                &&& requests.deep_view() == all_requests(
                    classification.files@,
                    old(state).decls(),
                )
                &&& requests@.len() > 0
                &&& context@ == joined(
                    Seq::new(
                        old(state).decls().len(),
                        |i: int| stub_of(old(state).decls()[i]),
                    ),
                    "\n\n"@,
                )
            },
        },
{
    if success || classification.total_errors == 0 || iteration >= max_iterations {
        return RepairPlan::Stop;
    }
    let requests = repair_requests(state, &classification.files);
    proof {
        assert(requests.deep_view().len() == requests@.len());
    }
    if requests.len() == 0 {
        return RepairPlan::Stop;
    }
    RepairPlan::Fix { context: state.interface_context(), requests }
}

/// What follows the build of iteration `iteration`. Repair stops when the build
/// succeeds, shows no error or was the last that is allowed, and when no error
/// lies on a declaration.
pub fn plan_repair(
    state: &mut RepairState,
    build: &BuildOutput,
    iteration: usize,
    max_iterations: usize,
) -> (r: (ErrorClassification, RepairPlan))
    requires
        old(state).wf(),
    ensures
        classifies(located_in(cargo_messages(build.stdout_bytes@)), r.0),
        final(state).wf(),
        final(state).decls() == old(state).decls(),
        final(state).cargo_toml@ == old(state).cargo_toml@,
        final(state).source_file_name@ == old(state).source_file_name@,
        match r.1 {
            RepairPlan::Stop => ends_here(
                build.success,
                r.0.total_errors,
                iteration,
                max_iterations,
            ) || all_requests(r.0.files@, old(state).decls()).len() == 0,
            RepairPlan::Fix { context, requests } => {
                &&& !ends_here(build.success, r.0.total_errors, iteration, max_iterations)
                &&& requests.deep_view() == all_requests(r.0.files@, old(state).decls())
                &&& requests@.len() > 0
                &&& context@ == joined(
                    Seq::new(
                        old(state).decls().len(),
                        |i: int| stub_of(old(state).decls()[i]),
                    ),
                    "\n\n"@,
                )
            },
        },
{
    let classification = classify_errors(build);
    let plan = plan_from_classification(
        state,
        build.success,
        &classification,
        iteration,
        max_iterations,
    );
    (classification, plan)
}

/// Takes over the reply to a request. A failed or an empty reply changes
/// nothing; the result says whether the declaration was replaced.
pub fn apply_reply(state: &mut RepairState, decl_idx: usize, reply: Option<String>) -> (r: bool)
    requires
        old(state).wf(),
    ensures
        final(state).wf(),
        r == (reply matches Some(s) && s@.len() > 0),
        final(state).decls() == (if r && decl_idx < old(state).decls().len() {
            old(state).decls().update(
                decl_idx as int,
                crate::text::without_newlines(reply->0@),
            )
        } else {
            old(state).decls()
        }),
        final(state).cargo_toml@ == old(state).cargo_toml@,
        final(state).source_file_name@ == old(state).source_file_name@,
{
    match reply {
        Some(fixed) => {
            if fixed.as_str().is_empty() {
                return false;
            }
            state.update_declaration(decl_idx, fixed);
            true
        },
        None => false,
    }
}

/// The name of the directory that holds the history of one iteration.
pub fn history_dir_name(iteration: usize) -> (r: String)
    ensures
        r@ == "iter_"@ + decimal_of(iteration as nat),
{
    let mut out = "iter_".to_owned();
    out.push_str(decimal(iteration).as_str());
    out
}

// ---------------------------------------------------------------------------
// What is asked for
// ---------------------------------------------------------------------------

/// The diagnostics of all reports, in order.
pub open spec fn all_diagnostics(files: Seq<FileErrorReport>) -> Seq<DiagnosticView> {
    files.flat_map(|f: FileErrorReport| f.diagnostics.deep_view())
}

/// The texts of the diagnostics that lie on declaration `k`, in order.
pub open spec fn texts_on(files: Seq<FileErrorReport>, decls: Seq<Seq<char>>, k: int) -> Seq<
    Seq<char>,
> {
    all_diagnostics(files).filter(
        |d: DiagnosticView| start_line(decls, k) <= d.line <= end_line(decls, k),
    ).map_values(|d: DiagnosticView| d.full_text)
}

proof fn errors_collect(
    m: Texts,
    diags: Seq<DiagnosticView>,
    index: Seq<(usize, usize, usize)>,
    k: usize,
    on: spec_fn(DiagnosticView) -> bool,
    text: spec_fn(DiagnosticView) -> Seq<char>,
)
    requires
        forall|d: DiagnosticView| #[trigger] on(d) == (owner(index, d.line as int) == Some(k)),
        forall|d: DiagnosticView| #[trigger] text(d) == d.full_text,
        m.dom().contains(k) ==> m[k].len() > 0,
    ensures
        texts_at(with_errors(m, diags, index), k) == texts_at(m, k) + diags.filter(on).map_values(
            text,
        ),
        with_errors(m, diags, index).dom().contains(k) ==> with_errors(m, diags, index)[k].len()
            > 0,
    decreases diags.len(),
{
    reveal(Seq::filter);
    let kept = diags.filter(on).map_values(text);
    let all = with_errors(m, diags, index);
    if diags.len() == 0 {
        assert(texts_at(m, k) + kept =~= texts_at(m, k));
    } else {
        let rest = diags.drop_last();
        errors_collect(m, rest, index, k, on, text);
        let before = rest.filter(on).map_values(text);
        if on(diags.last()) {
            assert(kept =~= before.push(diags.last().full_text));
            assert(texts_at(all, k) =~= texts_at(m, k) + kept);
        }
    }
}

proof fn all_errors_collect(
    files: Seq<FileErrorReport>,
    index: Seq<(usize, usize, usize)>,
    k: usize,
    on: spec_fn(DiagnosticView) -> bool,
    text: spec_fn(DiagnosticView) -> Seq<char>,
)
    requires
        forall|d: DiagnosticView| #[trigger] on(d) == (owner(index, d.line as int) == Some(k)),
        forall|d: DiagnosticView| #[trigger] text(d) == d.full_text,
    ensures
        texts_at(errors_by_declaration(files, index), k) == all_diagnostics(files).filter(
            on,
        ).map_values(text),
        errors_by_declaration(files, index).dom().contains(k) ==> errors_by_declaration(
            files,
            index,
        )[k].len() > 0,
    decreases files.len(),
{
    let f = |f: FileErrorReport| f.diagnostics.deep_view();
    flat_map_last(files, f);
    if files.len() == 0 {
        reveal(Seq::filter);
        assert(all_diagnostics(files).filter(on).map_values(text) =~= seq![]);
    } else {
        let rest = files.drop_last();
        let own = files.last().diagnostics.deep_view();
        all_errors_collect(rest, index, k, on, text);
        errors_collect(errors_by_declaration(rest, index), own, index, k, on, text);
        Seq::filter_distributes_over_add(all_diagnostics(rest), own, on);
        assert(all_diagnostics(files) == all_diagnostics(rest) + own);
        assert(all_diagnostics(files).filter(on).map_values(text) =~= all_diagnostics(rest).filter(
            on,
        ).map_values(text) + own.filter(on).map_values(text));
    }
}

proof fn requests_follow(errors: Texts, decls: Seq<Seq<char>>, n: int)
    requires
        0 <= n <= decls.len() <= usize::MAX,
    ensures
        forall|r: int|
            0 <= r < requests_for(errors, decls, n).len() ==> {
                let q = #[trigger] requests_for(errors, decls, n)[r];
                q.decl_idx < n && errors.dom().contains(q.decl_idx) && q.decl_source
                    == decls[q.decl_idx as int] && q.errors_text == joined(
                    errors[q.decl_idx],
                    "\n\n"@,
                )
            },
        forall|r: int, s: int|
            0 <= r < s < requests_for(errors, decls, n).len() ==> (#[trigger] requests_for(
                errors,
                decls,
                n,
            )[r]).decl_idx < (#[trigger] requests_for(errors, decls, n)[s]).decl_idx,
        forall|k: usize|
            k < n && #[trigger] errors.dom().contains(k) ==> exists|r: int|
                0 <= r < requests_for(errors, decls, n).len() && (#[trigger] requests_for(
                    errors,
                    decls,
                    n,
                )[r]).decl_idx == k,
    decreases n,
{
    if n > 0 {
        requests_follow(errors, decls, n - 1);
        let rest = requests_for(errors, decls, n - 1);
        let all = requests_for(errors, decls, n);
        let idx = (n - 1) as usize;
        assert forall|k: usize| k < n && #[trigger] errors.dom().contains(k) implies exists|r: int|
            0 <= r < all.len() && (#[trigger] all[r]).decl_idx == k by {
            if k < n - 1 {
                let r = choose|r: int| 0 <= r < rest.len() && (#[trigger] rest[r]).decl_idx == k;
                assert(all[r].decl_idx == k);
            } else {
                assert(all[rest.len() as int].decl_idx == k);
            }
        }
    }
}

/// Each declaration that holds the line of some diagnostic is asked for, once and
/// in order, with its source and the texts of all its diagnostics; no other
/// declaration is.
pub proof fn every_error_is_sent(files: Seq<FileErrorReport>, decls: Seq<Seq<char>>)
    requires
        lines_fit(decls),
        decls.len() <= usize::MAX,
    ensures
        forall|r: int|
            0 <= r < all_requests(files, decls).len() ==> {
                let q = #[trigger] all_requests(files, decls)[r];
                &&& q.decl_idx < decls.len()
                &&& q.decl_source == decls[q.decl_idx as int]
                &&& texts_on(files, decls, q.decl_idx as int).len() > 0
                &&& q.errors_text == joined(
                    texts_on(files, decls, q.decl_idx as int),
                    "\n\n"@,
                )
            },
        forall|r: int, s: int|
            0 <= r < s < all_requests(files, decls).len() ==> (#[trigger] all_requests(
                files,
                decls,
            )[r]).decl_idx < (#[trigger] all_requests(files, decls)[s]).decl_idx,
        forall|k: int|
            0 <= k < decls.len() && (#[trigger] texts_on(files, decls, k)).len() > 0 ==> exists|
                r: int,
            |
                0 <= r < all_requests(files, decls).len() && (#[trigger] all_requests(
                    files,
                    decls,
                )[r]).decl_idx == k,
{
    let index = index_of(decls);
    let errors = errors_by_declaration(files, index);
    let all = all_requests(files, decls);
    requests_follow(errors, decls, decls.len() as int);
    assert forall|k: usize| k < decls.len() implies #[trigger] texts_at(errors, k) == texts_on(
        files,
        decls,
        k as int,
    ) && (errors.dom().contains(k) ==> errors[k].len() > 0) by {
        let on = |d: DiagnosticView| start_line(decls, k as int) <= d.line <= end_line(
            decls,
            k as int,
        );
        let text = |d: DiagnosticView| d.full_text;
        assert forall|d: DiagnosticView|
            #[trigger] on(d) == (owner(index, d.line as int) == Some(k)) by {
            owner_is_the_declaration_on_the_line(decls, d.line as int);
            assert(end_line(decls, k as int) == end_line(decls, k as int));
        }
        all_errors_collect(files, index, k, on, text);
    }
    assert forall|r: int| 0 <= r < all.len() implies {
        let q = #[trigger] all[r];
        &&& q.decl_idx < decls.len()
        &&& q.decl_source == decls[q.decl_idx as int]
        &&& texts_on(files, decls, q.decl_idx as int).len() > 0
        &&& q.errors_text == joined(texts_on(files, decls, q.decl_idx as int), "\n\n"@)
    } by {
        let k = all[r].decl_idx;
        assert(texts_at(errors, k) == texts_on(files, decls, k as int));
    }
    assert forall|k: int|
        0 <= k < decls.len() && (#[trigger] texts_on(files, decls, k)).len() > 0 implies exists|
        r: int,
    |
        0 <= r < all.len() && (#[trigger] all[r]).decl_idx == k by {
        let j = k as usize;
        assert(texts_at(errors, j) == texts_on(files, decls, k));
        assert(errors.dom().contains(j));
    }
}

/// The request for a declaration holds the text of each diagnostic on it.
pub proof fn requests_hold_the_errors(
    files: Seq<FileErrorReport>,
    decls: Seq<Seq<char>>,
    f: int,
    d: int,
    k: int,
)
    requires
        lines_fit(decls),
        decls.len() <= usize::MAX,
        0 <= f < files.len(),
        0 <= d < files[f].diagnostics@.len(),
        0 <= k < decls.len(),
        start_line(decls, k) <= files[f].diagnostics@[d].line <= end_line(decls, k),
    ensures
        exists|r: int|
            0 <= r < all_requests(files, decls).len() && (#[trigger] all_requests(
                files,
                decls,
            )[r]).decl_idx == k && has_part(
                all_requests(files, decls)[r].errors_text,
                files[f].diagnostics@[d].full_text@,
            ),
{
    let g = |f: FileErrorReport| f.diagnostics.deep_view();
    let on = |d: DiagnosticView| start_line(decls, k) <= d.line <= end_line(decls, k);
    let text = |d: DiagnosticView| d.full_text;
    let one = files[f].diagnostics@[d].deep_view();
    flat_map_has(files, g);
    assert(g(files[f])[d] == one);
    assert(all_diagnostics(files).contains(one));
    filter_has(all_diagnostics(files), on);
    let kept = all_diagnostics(files).filter(on);
    assert(kept.contains(one));
    let j = choose|j: int| 0 <= j < kept.len() && kept[j] == one;
    let texts = texts_on(files, decls, k);
    assert(texts[j] == one.full_text);
    every_error_is_sent(files, decls);
    let r = choose|r: int|
        0 <= r < all_requests(files, decls).len() && (#[trigger] all_requests(
            files,
            decls,
        )[r]).decl_idx == k;
    joined_has_its_parts(texts, "\n\n"@, j);
}

} // verus!
