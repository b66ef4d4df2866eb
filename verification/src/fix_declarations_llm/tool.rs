//! The decisions of the repair: what is asked for, and what the replies change.
//! The caller obtains the replies.
use crate::cargo_output::MessagePart;
use crate::fix_declarations_llm::attribution::{
    attribute_errors, attributed, hits_of, DeclBounds, DeclErrors, DeclErrorsView, FixError,
    ItemRanges,
};
use crate::fix_declarations_llm::interface_ctx::{
    check_items, get_interface_ctx, interface_of, items_inside, slice_of,
};
use crate::fix_declarations_llm::patches::{
    add_patch, apply_patches, spliced, splices_fit, with_patch, Patch, PatchView,
};
use crate::fs::{seen_one_more, RawDir};
use crate::text::{join, joined, read_utf8, same, utf8_text};
use vstd::prelude::*;

verus! {

/// A declaration that is to be repaired.
#[derive(Debug)]
pub struct DeclFix {
    pub file: String,
    pub start: usize,
    pub end: usize,
    pub decl_source: String,
    pub errors_text: String,
}

#[verifier::ext_equal]
pub ghost struct DeclFixView {
    pub file: Seq<char>,
    pub start: usize,
    pub end: usize,
    pub decl_source: Seq<char>,
    pub errors_text: Seq<char>,
}

impl DeepView for DeclFix {
    type V = DeclFixView;

    open spec fn deep_view(&self) -> DeclFixView {
        DeclFixView {
            file: self.file@,
            start: self.start,
            end: self.end,
            decl_source: self.decl_source@,
            errors_text: self.errors_text@,
        }
    }
}

/// The declarations that are to be repaired, with the interface of the package.
#[derive(Debug)]
pub struct FixPlan {
    pub context: String,
    pub requests: Vec<DeclFix>,
}

/// The files of a package.
pub type Files = Map<Seq<char>, Seq<u8>>;

/// The bytes that bounds stand for in a file of `len` bytes.
pub open spec fn byte_range(bounds: DeclBounds, len: usize) -> (usize, usize) {
    match bounds {
        DeclBounds::Whole => (0, len),
        DeclBounds::Range(start, end) => (start, end),
    }
}

/// The request for one declaration.
pub open spec fn request_of(group: DeclErrorsView, dir: Files) -> Result<DeclFixView, FixError> {
    if !dir.dom().contains(group.file) {
        Err(FixError::NoFile)
    } else {
        let bytes = dir[group.file];
        let (start, end) = byte_range(group.bounds, bytes.len() as usize);
        if !(start <= end <= bytes.len()) {
            Err(FixError::BadRange)
        } else {
            match utf8_text(bytes.subrange(start as int, end as int)) {
                None => Err(FixError::NotUtf8),
                Some(decl_source) => Ok(
                    DeclFixView {
                        file: group.file,
                        start,
                        end,
                        decl_source,
                        errors_text: joined(group.messages, "\n\n"@),
                    },
                ),
            }
        }
    }
}

/// The requests for all declarations, or what is wrong with the first that
/// cannot be asked for.
pub open spec fn requests_of(groups: Seq<DeclErrorsView>, dir: Files) -> Result<
    Seq<DeclFixView>,
    FixError,
>
    decreases groups.len(),
{
    if groups.len() == 0 {
        Ok(seq![])
    } else {
        match requests_of(groups.drop_last(), dir) {
            Err(e) => Err(e),
            Ok(rest) => match request_of(groups.last(), dir) {
                Err(e) => Err(e),
                Ok(r) => Ok(rest.push(r)),
            },
        }
    }
}

/// What the errors of a build ask for.
pub open spec fn planned(
    diagnostics: Seq<Vec<MessagePart>>,
    items: Map<Seq<char>, Seq<(usize, usize)>>,
    dir: Files,
) -> Result<(Seq<char>, Seq<DeclFixView>), FixError> {
    match attributed(hits_of(diagnostics), items, dir.dom()) {
        Err(e) => Err(e),
        Ok(groups) => if !items_inside(items, dir) {
            Err(FixError::BadRange)
        } else {
            match requests_of(groups, dir) {
                Err(e) => Err(e),
                Ok(requests) => Ok((interface_of(items, dir), requests)),
            }
        },
    }
}

/// The view of a plan.
pub open spec fn plan_view(r: Result<FixPlan, FixError>) -> Result<
    (Seq<char>, Seq<DeclFixView>),
    FixError,
> {
    match r {
        Ok(p) => Ok((p.context@, p.requests.deep_view())),
        Err(e) => Err(e),
    }
}

proof fn requests_fail(groups: Seq<DeclErrorsView>, dir: Files, n: int, e: FixError)
    requires
        0 <= n <= groups.len(),
        requests_of(groups.take(n), dir) == Err::<Seq<DeclFixView>, FixError>(e),
    ensures
        requests_of(groups, dir) == Err::<Seq<DeclFixView>, FixError>(e),
    decreases groups.len() - n,
{
    if n < groups.len() {
        assert(groups.take(n + 1).drop_last() =~= groups.take(n));
        requests_fail(groups, dir, n + 1, e);
    } else {
        assert(groups.take(n) =~= groups);
    }
}

fn make_request(group: &DeclErrors, package: &RawDir) -> (r: Result<DeclFix, FixError>)
    ensures
        match r {
            Ok(fix) => request_of(group.deep_view(), package@) == Ok::<DeclFixView, FixError>(
                fix.deep_view(),
            ),
            Err(e) => request_of(group.deep_view(), package@) == Err::<DeclFixView, FixError>(e),
        },
{
    let bytes = match package.get_file(group.file.as_str()) {
        Some(b) => b,
        None => {
            return Err(FixError::NoFile);
        },
    };
    let (start, end): (usize, usize) = match group.bounds {
        DeclBounds::Whole => (0, bytes.len()),
        DeclBounds::Range(start, end) => (start, end),
    };
    if !(start <= end && end <= bytes.len()) {
        return Err(FixError::BadRange);
    }
    match read_utf8(slice_of(bytes, start, end).as_slice()) {
        None => Err(FixError::NotUtf8),
        Some(decl_source) => {
            let errors_text = join(group.messages.as_slice(), "\n\n");
            proof {
                assert(Seq::new(group.messages@.len(), |i: int| group.messages@[i]@)
                    =~= group.messages.deep_view());
            }
            Ok(
                DeclFix {
                    file: group.file.as_str().to_owned(),
                    start,
                    end,
                    decl_source,
                    errors_text,
                },
            )
        },
    }
}

fn make_requests(groups: &Vec<DeclErrors>, package: &RawDir) -> (r: Result<Vec<DeclFix>, FixError>)
    ensures
        match r {
            Ok(v) => requests_of(groups.deep_view(), package@) == Ok::<Seq<DeclFixView>, FixError>(
                v.deep_view(),
            ),
            Err(e) => requests_of(groups.deep_view(), package@) == Err::<
                Seq<DeclFixView>,
                FixError,
            >(e),
        },
{
    let ghost all = groups.deep_view();
    let mut out: Vec<DeclFix> = Vec::new();
    let mut i: usize = 0;
    proof {
        assert(out.deep_view() =~= seq![]);
    }
    while i < groups.len()
        invariant
            all == groups.deep_view(),
            i <= groups@.len(),
            requests_of(all.take(i as int), package@) == Ok::<Seq<DeclFixView>, FixError>(
                out.deep_view(),
            ),
        decreases groups@.len() - i,
    {
        let ghost before = out.deep_view();
        proof {
            assert(all.take(i + 1).drop_last() =~= all.take(i as int));
            assert(all.take(i + 1).last() == groups@[i as int].deep_view());
        }
        match make_request(&groups[i], package) {
            Ok(fix) => {
                out.push(fix);
                proof {
                    assert(out.deep_view() =~= before.push(fix.deep_view()));
                }
            },
            Err(e) => {
                proof {
                    requests_fail(all, package@, i + 1, e);
                }
                return Err(e);
            },
        }
        i += 1;
    }
    proof {
        assert(all.take(i as int) =~= all);
    }
    Ok(out)
}

/// The patches of `file` that the replies amount to: one for each request with
/// a reply that is not empty, in the order of the ranges.
pub open spec fn patches_for(
    requests: Seq<DeclFixView>,
    replies: Seq<Option<Seq<char>>>,
    file: Seq<char>,
) -> Seq<PatchView>
    decreases requests.len(),
{
    if requests.len() == 0 {
        seq![]
    } else {
        let rest = patches_for(requests.drop_last(), replies, file);
        let r = requests.last();
        match replies[requests.len() - 1] {
            Some(text) => if text.len() > 0 && r.file == file {
                with_patch(rest, PatchView { start: r.start, end: r.end, text })
            } else {
                rest
            },
            None => rest,
        }
    }
}

/// The number of requests with a reply that is not empty.
pub open spec fn fixed_count(replies: Seq<Option<Seq<char>>>) -> nat
    decreases replies.len(),
{
    if replies.len() == 0 {
        0
    } else {
        fixed_count(replies.drop_last()) + (match replies.last() {
            Some(text) => if text.len() > 0 {
                1nat
            } else {
                0
            },
            None => 0,
        })
    }
}

/// The patches of every file can be made one after another in it.
pub open spec fn all_fit(
    requests: Seq<DeclFixView>,
    replies: Seq<Option<Seq<char>>>,
    dir: Files,
) -> bool {
    forall|p: Seq<char>|
        #![trigger dir.dom().contains(p)]
        dir.dom().contains(p) ==> splices_fit(
            patches_for(requests, replies, p),
            dir[p].len() as int,
        )
}

/// The package with every patch made.
pub open spec fn fixed_files(
    requests: Seq<DeclFixView>,
    replies: Seq<Option<Seq<char>>>,
    dir: Files,
) -> Files {
    Map::new(
        |p: Seq<char>| dir.dom().contains(p),
        |p: Seq<char>| spliced(dir[p], patches_for(requests, replies, p)),
    )
}

/// A file that nothing was asked for is left as it is.
pub proof fn other_files_stay(
    requests: Seq<DeclFixView>,
    replies: Seq<Option<Seq<char>>>,
    dir: Files,
    file: Seq<char>,
)
    requires
        dir.dom().contains(file),
        forall|i: int| 0 <= i < requests.len() ==> (#[trigger] requests[i]).file != file,
    ensures
        fixed_files(requests, replies, dir)[file] == dir[file],
    decreases requests.len(),
{
    no_patches_for(requests, replies, file);
    crate::fix_declarations_llm::patches::no_patches_change_nothing(dir[file]);
}

proof fn no_patches_for(
    requests: Seq<DeclFixView>,
    replies: Seq<Option<Seq<char>>>,
    file: Seq<char>,
)
    requires
        forall|i: int| 0 <= i < requests.len() ==> (#[trigger] requests[i]).file != file,
    ensures
        patches_for(requests, replies, file) == Seq::<PatchView>::empty(),
    decreases requests.len(),
{
    if requests.len() > 0 {
        assert forall|i: int| 0 <= i < requests.drop_last().len() implies (
        #[trigger] requests.drop_last()[i]).file != file by {
            assert(requests[i].file != file);
        }
        no_patches_for(requests.drop_last(), replies, file);
        assert(requests[requests.len() - 1].file != file);
    }
}

fn collect_patches(requests: &Vec<DeclFix>, replies: &Vec<Option<String>>, file: &str) -> (r: Vec<
    Patch,
>)
    requires
        requests@.len() == replies@.len(),
    ensures
        r.deep_view() == patches_for(requests.deep_view(), replies.deep_view(), file@),
{
    let ghost all = requests.deep_view();
    let ghost said = replies.deep_view();
    let mut out: Vec<Patch> = Vec::new();
    let mut i: usize = 0;
    proof {
        assert(out.deep_view() =~= patches_for(all.take(0), said, file@));
    }
    while i < requests.len()
        invariant
            all == requests.deep_view(),
            said == replies.deep_view(),
            requests@.len() == replies@.len(),
            i <= requests@.len(),
            out.deep_view() == patches_for(all.take(i as int), said, file@),
        decreases requests@.len() - i,
    {
        proof {
            assert(all.take(i + 1).drop_last() =~= all.take(i as int));
            assert(all.take(i + 1).last() == requests@[i as int].deep_view());
            assert(said[i as int] == replies@[i as int].deep_view());
        }
        match &replies[i] {
            Some(text) => {
                if !text.as_str().is_empty() && same(requests[i].file.as_str(), file) {
                    add_patch(
                        &mut out,
                        Patch {
                            start: requests[i].start,
                            end: requests[i].end,
                            text: text.as_str().to_owned(),
                        },
                    );
                }
            },
            None => {},
        }
        i += 1;
    }
    proof {
        assert(all.take(i as int) =~= all);
    }
    out
}

fn count_fixed(replies: &Vec<Option<String>>) -> (r: usize)
    ensures
        r == fixed_count(replies.deep_view()),
{
    let ghost all = replies.deep_view();
    let mut n: usize = 0;
    let mut i: usize = 0;
    while i < replies.len()
        invariant
            all == replies.deep_view(),
            i <= replies@.len(),
            n <= i,
            n == fixed_count(all.take(i as int)),
        decreases replies@.len() - i,
    {
        proof {
            assert(all.take(i + 1).drop_last() =~= all.take(i as int));
            assert(all.take(i + 1).last() == replies@[i as int].deep_view());
        }
        match &replies[i] {
            Some(text) => {
                if !text.as_str().is_empty() {
                    n += 1;
                }
            },
            None => {},
        }
        i += 1;
    }
    proof {
        assert(all.take(i as int) =~= all);
    }
    n
}

/// Repairs each declaration that has compiler errors.
pub struct FixDeclarationsLlm;

impl FixDeclarationsLlm {
    /// What the errors of a build ask for: one request per declaration with
    /// errors, and the interface of the package as context.
    pub fn plan(
        diagnostics: &Vec<Vec<MessagePart>>,
        items: &ItemRanges,
        package: &RawDir,
    ) -> (r: Result<FixPlan, FixError>)
        ensures
            plan_view(r) == planned(diagnostics@, items@, package@),
    {
        let groups = match attribute_errors(diagnostics, items, package) {
            Ok(v) => v,
            Err(e) => {
                return Err(e);
            },
        };
        if !check_items(items, package) {
            return Err(FixError::BadRange);
        }
        let context = get_interface_ctx(items, package);
        match make_requests(&groups, package) {
            Ok(requests) => Ok(FixPlan { context, requests }),
            Err(e) => Err(e),
        }
    }

    /// The package with the replies in place of the declarations that they
    /// repair, and how many there are. A missing or an empty reply changes
    /// nothing. The repairs of a file are made one after another in the order of
    /// their ranges; where ranges overlap, a later repair may find no place in
    /// the file that the earlier ones left.
    pub fn apply(
        requests: &Vec<DeclFix>,
        replies: &Vec<Option<String>>,
        package: &RawDir,
    ) -> (r: Result<(RawDir, usize), FixError>)
        requires
            requests@.len() == replies@.len(),
        ensures
            match r {
                Ok((dir, n)) => all_fit(requests.deep_view(), replies.deep_view(), package@)
                    && dir@ == fixed_files(requests.deep_view(), replies.deep_view(), package@)
                    && n == fixed_count(replies.deep_view()),
                Err(e) => !all_fit(requests.deep_view(), replies.deep_view(), package@) && e
                    == FixError::Misplaced,
            },
    {
        let paths = package.file_paths();
        let ghost all = paths.names.deep_view();
        let ghost reqs = requests.deep_view();
        let ghost said = replies.deep_view();
        let mut out = RawDir::new();
        let mut i: usize = 0;
        while i < paths.names.len()
            invariant
                requests@.len() == replies@.len(),
                reqs == requests.deep_view(),
                said == replies.deep_view(),
                all == paths.names.deep_view(),
                all.to_set() == package@.dom(),
                i <= paths.names@.len(),
                forall|p: Seq<char>|
                    #[trigger] out@.dom().contains(p) == all.take(i as int).contains(p),
                forall|p: Seq<char>|
                    #![trigger out@.dom().contains(p)]
                    out@.dom().contains(p) ==> splices_fit(
                        patches_for(reqs, said, p),
                        package@[p].len() as int,
                    ) && out@[p] == spliced(package@[p], patches_for(reqs, said, p)),
            decreases paths.names@.len() - i,
        {
            let path = paths.names[i].as_str();
            proof {
                assert(all[i as int] == path@);
                assert(all.to_set().contains(path@));
                seen_one_more(all, i as int);
            }
            match package.get_file(path) {
                Some(bytes) => {
                    let patches = collect_patches(requests, replies, path);
                    let mut source = slice_of(bytes, 0, bytes.len());
                    proof {
                        assert(bytes@.subrange(0, bytes@.len() as int) =~= bytes@);
                    }
                    if !apply_patches(&mut source, &patches) {
                        return Err(FixError::Misplaced);
                    }
                    out.set_file(path, source);
                },
                None => {},
            }
            i += 1;
        }
        proof {
            assert(all.take(i as int) =~= all);
            assert forall|p: Seq<char>| out@.dom().contains(p) == package@.dom().contains(p) by {
                assert(all.to_set().contains(p) == all.contains(p));
            }
            assert(out@ =~= fixed_files(reqs, said, package@));
            assert forall|p: Seq<char>|
                #![trigger package@.dom().contains(p)]
                package@.dom().contains(p) implies splices_fit(
                patches_for(reqs, said, p),
                package@[p].len() as int,
            ) by {
                assert(out@.dom().contains(p));
            }
        }
        Ok((out, count_fixed(replies)))
    }
}

} // verus!
