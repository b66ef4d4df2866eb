//! The decisions of the auto-fix loop. The caller compiles, snapshots and
//! fixes; a [`FixRun`] says what to do next and keeps the record.
use crate::auto_fix::compiler::{BuildResult, BuildResultView};
use crate::auto_fix::error_classifier::{
    classify_errors, diagnostics_of, is_report_list, level_count, DiagLevel, ErrorClassification,
};
use crate::path::{file_name, file_name_of};
use crate::text::same;
use vstd::prelude::*;

verus! {

#[derive(Debug)]
pub struct IterationRecord {
    pub iteration: usize,
    pub errors_before: usize,
    pub errors_after: usize,
    pub files_fixed: Vec<String>,
    pub classification_success: bool,
}

#[verifier::ext_equal]
pub ghost struct IterationRecordView {
    pub iteration: nat,
    pub errors_before: nat,
    pub errors_after: nat,
    pub files_fixed: Seq<Seq<char>>,
    pub classification_success: bool,
}

impl DeepView for IterationRecord {
    type V = IterationRecordView;

    open spec fn deep_view(&self) -> IterationRecordView {
        IterationRecordView {
            iteration: self.iteration as nat,
            errors_before: self.errors_before as nat,
            errors_after: self.errors_after as nat,
            files_fixed: self.files_fixed.deep_view(),
            classification_success: self.classification_success,
        }
    }
}

/// Summary of the fixing process, without its times.
#[derive(Debug)]
pub struct FixSummary {
    pub project_name: String,
    pub total_iterations: usize,
    pub final_success: bool,
    pub initial_error_count: usize,
    pub final_error_count: usize,
    pub files_modified: Vec<String>,
    pub iterations: Vec<IterationRecord>,
}

/// Where a run stands.
#[derive(Debug)]
pub struct FixRun {
    pub max_iterations: usize,
    /// The first build succeeded, so there is nothing to fix.
    pub already_built: bool,
    /// No further iteration is made.
    pub finished: bool,
    pub initial_error_count: usize,
    pub current: BuildResult,
    pub iterations: Vec<IterationRecord>,
    pub files_modified: Vec<String>,
    /// The files fixed in this iteration, while their build is awaited.
    pub awaiting_build: Option<Vec<String>>,
}

#[verifier::ext_equal]
pub ghost struct FixRunView {
    pub max_iterations: nat,
    pub already_built: bool,
    pub finished: bool,
    pub initial_error_count: nat,
    pub current: BuildResultView,
    pub iterations: Seq<IterationRecordView>,
    pub files_modified: Seq<Seq<char>>,
    pub awaiting_build: Option<Seq<Seq<char>>>,
}

impl DeepView for FixRun {
    type V = FixRunView;

    open spec fn deep_view(&self) -> FixRunView {
        FixRunView {
            max_iterations: self.max_iterations as nat,
            already_built: self.already_built,
            finished: self.finished,
            initial_error_count: self.initial_error_count as nat,
            current: self.current.deep_view(),
            iterations: self.iterations.deep_view(),
            files_modified: self.files_modified.deep_view(),
            awaiting_build: self.awaiting_build.deep_view(),
        }
    }
}

impl FixRunView {
    /// The files fixed in this iteration, while their build is awaited.
    pub open spec fn awaited(self) -> Seq<Seq<char>> {
        match self.awaiting_build {
            Some(files) => files,
            None => seq![],
        }
    }

    /// What every run keeps: its records are numbered from zero and within the
    /// limit; each starts with the errors that the one before it left, the first
    /// with those of the first build, and the last build has those that the last
    /// record left; the modified files are those that were fixed, each once; and
    /// nothing is awaited once it has finished.
    pub open spec fn wf(self) -> bool {
        &&& self.iterations.len() <= self.max_iterations
        &&& forall|i: int|
            0 <= i < self.iterations.len() ==> (#[trigger] self.iterations[i]).iteration == i
                && self.iterations[i].errors_before == errors_left(
                self.iterations,
                i,
                self.initial_error_count,
            )
        &&& self.current.error_count == errors_left(
            self.iterations,
            self.iterations.len() as int,
            self.initial_error_count,
        )
        &&& self.files_modified.no_duplicates()
        &&& self.files_modified == with_new(fixed_in(self.iterations), self.awaited())
        &&& self.finished ==> self.awaiting_build is None
        &&& self.awaiting_build is Some ==> self.iterations.len() < self.max_iterations
        &&& self.already_built ==> self.finished && self.iterations.len() == 0
            && self.files_modified.len() == 0 && self.current.success
    }

    /// Another iteration is due: the limit is not reached and the last build
    /// has errors.
    pub open spec fn due(self) -> bool {
        &&& !self.finished
        &&& self.awaiting_build is None
        &&& self.iterations.len() < self.max_iterations
        &&& self.current.error_count > 0
    }
}

/// The paths whose fix succeeded, in order.
pub open spec fn fixed_paths(results: Seq<(Seq<char>, bool)>) -> Seq<Seq<char>>
    decreases results.len(),
{
    if results.len() == 0 {
        seq![]
    } else {
        let rest = fixed_paths(results.drop_last());
        if results.last().1 {
            rest.push(results.last().0)
        } else {
            rest
        }
    }
}

/// `seen` followed by the paths of `more` that are not in it yet, each once.
pub open spec fn with_new(seen: Seq<Seq<char>>, more: Seq<Seq<char>>) -> Seq<Seq<char>>
    decreases more.len(),
{
    if more.len() == 0 {
        seen
    } else {
        let before = with_new(seen, more.drop_last());
        if before.contains(more.last()) {
            before
        } else {
            before.push(more.last())
        }
    }
}

/// The errors that the first `n` records left: those of the first build before
/// any record.
pub open spec fn errors_left(records: Seq<IterationRecordView>, n: int, initial: nat) -> nat {
    if n <= 0 {
        initial
    } else {
        records[n - 1].errors_after
    }
}

/// The files that the records list as fixed, each once.
pub open spec fn fixed_in(records: Seq<IterationRecordView>) -> Seq<Seq<char>>
    decreases records.len(),
{
    if records.len() == 0 {
        seq![]
    } else {
        with_new(fixed_in(records.drop_last()), records.last().files_fixed)
    }
}

/// What to do next.
#[derive(Debug)]
pub enum FixPlan {
    /// Nothing: the run is over.
    Stop,
    /// Save the snapshot of this iteration; no fixable error was found.
    SnapshotAndStop { iteration: usize },
    /// Save the snapshot of this iteration, then fix these files.
    Fix { iteration: usize, classification: ErrorClassification },
}

fn lists(paths: &Vec<String>, path: &str) -> (r: bool)
    ensures
        r == paths.deep_view().contains(path@),
{
    let ghost all = paths.deep_view();
    let mut i: usize = 0;
    while i < paths.len()
        invariant
            all == paths.deep_view(),
            i <= paths@.len(),
            forall|j: int| 0 <= j < i ==> all[j] != path@,
        decreases paths@.len() - i,
    {
        if same(paths[i].as_str(), path) {
            proof {
                assert(all[i as int] == path@);
            }
            return true;
        }
        i += 1;
    }
    false
}

/// The name of the project at `root`, or `unknown`.
pub fn project_name(root: &str) -> (r: String)
    ensures
        r@ == (match file_name_of(root@) {
            Some(n) => n,
            None => "unknown"@,
        }),
{
    match file_name(root) {
        Some(n) => n,
        None => "unknown".to_owned(),
    }
}

impl FixRun {
    /// A run that starts from the first build of the project.
    pub fn start(max_iterations: usize, initial: BuildResult) -> (r: FixRun)
        ensures
            r.deep_view().wf(),
            r.deep_view() == (FixRunView {
                max_iterations: max_iterations as nat,
                already_built: initial.success,
                finished: initial.success,
                initial_error_count: initial.error_count as nat,
                current: initial.deep_view(),
                iterations: seq![],
                files_modified: seq![],
                awaiting_build: None,
            }),
    {
        let r = FixRun {
            max_iterations,
            already_built: initial.success,
            finished: initial.success,
            initial_error_count: initial.error_count,
            current: initial,
            iterations: Vec::new(),
            files_modified: Vec::new(),
            awaiting_build: None,
        };
        proof {
            assert(r.deep_view().iterations =~= seq![]);
            assert(r.deep_view().files_modified =~= seq![]);
        }
        r
    }

    /// What to do next. An iteration is planned while the limit is not reached
    /// and the last build has errors; it fixes every file with an error that
    /// the build output locates.
    pub fn plan(&self) -> (r: FixPlan)
        requires
            self.deep_view().wf(),
        ensures
            match r {
                FixPlan::Stop => !self.deep_view().due(),
                FixPlan::SnapshotAndStop { iteration } => {
                    &&& self.deep_view().due()
                    &&& iteration == self.iterations@.len()
                    &&& is_report_list(diagnostics_of(self.current.combined_output@), seq![])
                },
                FixPlan::Fix { iteration, classification } => {
                    &&& self.deep_view().due()
                    &&& iteration == self.iterations@.len()
                    &&& classification.files@.len() > 0
                    &&& is_report_list(
                        diagnostics_of(self.current.combined_output@),
                        classification.files.deep_view(),
                    )
                    &&& classification.total_errors == level_count(
                        diagnostics_of(self.current.combined_output@),
                        DiagLevel::Error,
                    )
                    &&& classification.total_warnings == level_count(
                        diagnostics_of(self.current.combined_output@),
                        DiagLevel::Warning,
                    )
                },
            },
    {
        proof {
            assert(self.deep_view().iterations.len() == self.iterations@.len());
        }
        if self.finished || self.awaiting_build.is_some() || self.iterations.len()
            >= self.max_iterations || self.current.error_count == 0 {
            return FixPlan::Stop;
        }
        let iteration: usize = self.iterations.len();
        let classification = classify_errors(&self.current);
        if classification.files.len() == 0 {
            proof {
                assert(classification.files.deep_view() =~= seq![]);
            }
            FixPlan::SnapshotAndStop { iteration }
        } else {
            FixPlan::Fix { iteration, classification }
        }
    }

    /// Records which files of the planned iteration were fixed. The result says
    /// whether the project is to be compiled again: when nothing was fixed the
    /// iteration is recorded as it stands and the run is over.
    pub fn record_fixes(&mut self, results: &Vec<(String, bool)>) -> (recompile: bool)
        requires
            old(self).deep_view().wf(),
            old(self).deep_view().due(),
        ensures
            final(self).deep_view().wf(),
            recompile == (fixed_paths(results.deep_view()).len() > 0),
            recompile ==> final(self).deep_view() == (FixRunView {
                files_modified: with_new(
                    old(self).deep_view().files_modified,
                    fixed_paths(results.deep_view()),
                ),
                awaiting_build: Some(fixed_paths(results.deep_view())),
                ..old(self).deep_view()
            }),
            !recompile ==> final(self).deep_view() == (FixRunView {
                finished: true,
                iterations: old(self).deep_view().iterations.push(
                    IterationRecordView {
                        iteration: old(self).deep_view().iterations.len(),
                        errors_before: old(self).deep_view().current.error_count,
                        errors_after: old(self).deep_view().current.error_count,
                        files_fixed: seq![],
                        classification_success: true,
                    },
                ),
                ..old(self).deep_view()
            }),
    {
        let ghost start = self.deep_view();
        let ghost all = results.deep_view();
        let mut fixed: Vec<String> = Vec::new();
        let mut i: usize = 0;
        proof {
            assert(fixed.deep_view() =~= fixed_paths(all.take(0)));
        }
        while i < results.len()
            invariant
                start.wf(),
                all == results.deep_view(),
                i <= results@.len(),
                fixed.deep_view() == fixed_paths(all.take(i as int)),
                self.deep_view() == (FixRunView {
                    files_modified: with_new(start.files_modified, fixed.deep_view()),
                    ..start
                }),
                self.files_modified.deep_view().no_duplicates(),
            decreases results@.len() - i,
        {
            let ghost before = fixed.deep_view();
            let ghost listed = self.files_modified.deep_view();
            proof {
                assert(all.take(i + 1).drop_last() =~= all.take(i as int));
                assert(all[i as int] == results@[i as int].deep_view());
            }
            if results[i].1 {
                let path = results[i].0.as_str();
                fixed.push(path.to_owned());
                proof {
                    assert(fixed.deep_view() =~= before.push(path@));
                    assert(fixed.deep_view().drop_last() =~= before);
                }
                if !lists(&self.files_modified, path) {
                    self.files_modified.push(path.to_owned());
                    proof {
                        assert(self.files_modified.deep_view() =~= listed.push(path@));
                    }
                }
            }
            i += 1;
        }
        proof {
            assert(all.take(i as int) =~= all);
            assert(fixed.deep_view().len() == fixed@.len());
        }
        if fixed.len() > 0 {
            self.awaiting_build = Some(fixed);
            proof {
                assert(start.awaited() =~= seq![]);
                assert(start.files_modified == fixed_in(start.iterations));
            }
            return true;
        }
        proof {
            assert(fixed.deep_view() =~= seq![]);
            assert(start.iterations.len() == self.iterations@.len());
        }
        let record = IterationRecord {
            iteration: self.iterations.len(),
            errors_before: self.current.error_count,
            errors_after: self.current.error_count,
            files_fixed: fixed,
            classification_success: true,
        };
        let ghost records = self.iterations.deep_view();
        self.iterations.push(record);
        self.finished = true;
        proof {
            assert(self.iterations.deep_view() =~= records.push(record.deep_view()));
            assert(self.iterations.deep_view().drop_last() =~= records);
            assert(record.deep_view().files_fixed =~= seq![]);
            assert(start.awaited() =~= seq![]);
        }
        false
    }

    /// Records the build that followed the fixes of this iteration. A build
    /// that succeeds ends the run.
    pub fn record_build(&mut self, result: BuildResult)
        requires
            old(self).deep_view().wf(),
            old(self).deep_view().awaiting_build is Some,
        ensures
            final(self).deep_view().wf(),
            final(self).deep_view() == (FixRunView {
                finished: result.success,
                awaiting_build: None,
                current: result.deep_view(),
                iterations: old(self).deep_view().iterations.push(
                    IterationRecordView {
                        iteration: old(self).deep_view().iterations.len(),
                        errors_before: old(self).deep_view().current.error_count,
                        errors_after: result.error_count as nat,
                        files_fixed: old(self).deep_view().awaiting_build->0,
                        classification_success: true,
                    },
                ),
                ..old(self).deep_view()
            }),
    {
        let ghost start = self.deep_view();
        proof {
            assert(start.iterations.len() == self.iterations@.len());
        }
        let files_fixed = match self.awaiting_build.take() {
            Some(f) => f,
            None => Vec::new(),
        };
        let record = IterationRecord {
            iteration: self.iterations.len(),
            errors_before: self.current.error_count,
            errors_after: result.error_count,
            files_fixed,
            classification_success: true,
        };
        let ghost records = self.iterations.deep_view();
        self.iterations.push(record);
        self.finished = result.success;
        self.current = result;
        proof {
            assert(self.iterations.deep_view() =~= records.push(record.deep_view()));
            assert(self.iterations.deep_view().drop_last() =~= records);
            assert(record.deep_view().files_fixed == start.awaited());
        }
    }

    /// The summary of a run. One whose first build succeeded reports no errors
    /// at all.
    pub fn summary(self, project_name: String) -> (r: FixSummary)
        requires
            self.deep_view().wf(),
        ensures
            r.project_name@ == project_name@,
            r.total_iterations == self.iterations@.len(),
            r.final_success == self.current.success,
            r.initial_error_count == (if self.already_built {
                0
            } else {
                self.initial_error_count
            }),
            r.final_error_count == (if self.already_built {
                0
            } else {
                self.current.error_count
            }),
            r.files_modified.deep_view() == self.deep_view().files_modified,
            r.iterations.deep_view() == self.deep_view().iterations,
            r.total_iterations <= self.max_iterations,
    {
        proof {
            assert(self.deep_view().iterations.len() == self.iterations@.len());
        }
        FixSummary {
            project_name,
            total_iterations: self.iterations.len(),
            final_success: self.current.success,
            initial_error_count: if self.already_built {
                0
            } else {
                self.initial_error_count
            },
            final_error_count: if self.already_built {
                0
            } else {
                self.current.error_count
            },
            files_modified: self.files_modified,
            iterations: self.iterations,
        }
    }
}

proof fn with_new_has(seen: Seq<Seq<char>>, more: Seq<Seq<char>>, path: Seq<char>)
    ensures
        with_new(seen, more).contains(path) <==> seen.contains(path) || more.contains(path),
    decreases more.len(),
{
    if more.len() > 0 {
        let rest = more.drop_last();
        let before = with_new(seen, rest);
        with_new_has(seen, rest, path);
        assert(more =~= rest.push(more.last()));
        assert(more.contains(path) <==> rest.contains(path) || path == more.last()) by {
            if rest.contains(path) {
                let i = choose|i: int| 0 <= i < rest.len() && rest[i] == path;
                assert(more[i] == path);
            }
            if path == more.last() {
                assert(more[more.len() - 1] == path);
            }
            if more.contains(path) && path != more.last() {
                let i = choose|i: int| 0 <= i < more.len() && more[i] == path;
                assert(rest[i] == path);
            }
        }
        if !before.contains(more.last()) {
            let now = before.push(more.last());
            assert(now.contains(path) <==> before.contains(path) || path == more.last()) by {
                if before.contains(path) {
                    let i = choose|i: int| 0 <= i < before.len() && before[i] == path;
                    assert(now[i] == path);
                }
                if path == more.last() {
                    assert(now[before.len() as int] == path);
                }
                if now.contains(path) && path != more.last() {
                    let i = choose|i: int| 0 <= i < now.len() && now[i] == path;
                    assert(before[i] == path);
                }
            }
        }
    }
}

proof fn fixed_in_has(records: Seq<IterationRecordView>, path: Seq<char>)
    ensures
        fixed_in(records).contains(path) <==> exists|i: int|
            0 <= i < records.len() && (#[trigger] records[i]).files_fixed.contains(path),
    decreases records.len(),
{
    if records.len() > 0 {
        let rest = records.drop_last();
        fixed_in_has(rest, path);
        with_new_has(fixed_in(rest), records.last().files_fixed, path);
        if fixed_in(rest).contains(path) {
            let i = choose|i: int|
                0 <= i < rest.len() && (#[trigger] rest[i]).files_fixed.contains(path);
            assert(records[i].files_fixed.contains(path));
        }
        if records.last().files_fixed.contains(path) {
            assert(records[records.len() - 1].files_fixed.contains(path));
        }
        if exists|i: int|
            0 <= i < records.len() && (#[trigger] records[i]).files_fixed.contains(path) {
            let i = choose|i: int|
                0 <= i < records.len() && (#[trigger] records[i]).files_fixed.contains(path);
            if i < rest.len() {
                assert(rest[i].files_fixed.contains(path));
            }
        }
    }
}

/// The modified files of a run are exactly those that some iteration fixed, that
/// whose build is awaited included.
pub proof fn modified_files_were_fixed(run: FixRunView, path: Seq<char>)
    requires
        run.wf(),
    ensures
        run.files_modified.contains(path) <==> run.awaited().contains(path) || exists|i: int|
            0 <= i < run.iterations.len() && (
            #[trigger] run.iterations[i]).files_fixed.contains(path),
{
    with_new_has(fixed_in(run.iterations), run.awaited(), path);
    fixed_in_has(run.iterations, path);
}

} // verus!
