//! Groups the errors of a build by the declaration that encloses them.
use crate::cargo_output::{MessagePart, MessageSpan};
use crate::fs::RawDir;
use crate::names::{copy_strings, NameMap};
use crate::text::same;
use vstd::prelude::*;

verus! {

/// The byte ranges of the top-level items of each file.
pub type ItemRanges = NameMap<Vec<(usize, usize)>>;

/// Why declarations cannot be repaired.
#[derive(Debug, Clone, Copy, PartialEq, Eq, Structural)]
pub enum FixError {
    /// An error points into a file that the package does not have.
    NoFile,
    /// An error points into a file without items.
    NoItems,
    /// An item lies outside its file.
    BadRange,
    /// A declaration is not UTF-8.
    NotUtf8,
    /// A repair has no place in the file that the repairs before it left.
    Misplaced,
}

/// The part of a file that is repaired at once.
#[derive(Debug, Clone, Copy, PartialEq, Eq, Structural)]
pub enum DeclBounds {
    /// The whole file.
    Whole,
    /// The bytes from the first number up to the second.
    Range(usize, usize),
}

/// A place that an error points to.
#[derive(Debug)]
pub struct Hit {
    pub file: String,
    pub byte_start: usize,
    pub byte_end: usize,
    pub message: String,
}

#[verifier::ext_equal]
pub ghost struct HitView {
    pub file: Seq<char>,
    pub byte_start: usize,
    pub byte_end: usize,
    pub message: Seq<char>,
}

impl DeepView for Hit {
    type V = HitView;

    open spec fn deep_view(&self) -> HitView {
        HitView {
            file: self.file@,
            byte_start: self.byte_start,
            byte_end: self.byte_end,
            message: self.message@,
        }
    }
}

/// The errors of one declaration: the message of each, once for each place in
/// the declaration that it points to.
#[derive(Debug)]
pub struct DeclErrors {
    pub file: String,
    pub bounds: DeclBounds,
    pub messages: Vec<String>,
}

#[verifier::ext_equal]
pub ghost struct DeclErrorsView {
    pub file: Seq<char>,
    pub bounds: DeclBounds,
    pub messages: Seq<Seq<char>>,
}

impl DeepView for DeclErrors {
    type V = DeclErrorsView;

    open spec fn deep_view(&self) -> DeclErrorsView {
        DeclErrorsView {
            file: self.file@,
            bounds: self.bounds,
            messages: self.messages.deep_view(),
        }
    }
}

/// The place of a span.
pub open spec fn hit_of(span: MessageSpan, message: Seq<char>) -> HitView {
    HitView { file: span.0@, byte_start: span.5 as usize, byte_end: span.6 as usize, message }
}

/// The diagnostic is an error.
pub open spec fn is_error(parts: Seq<MessagePart>) -> bool {
    parts.len() > 0 && parts[0].0@ == "Error"@
}

/// The places that the errors among the diagnostics point to, in order.
pub open spec fn hits_of(diagnostics: Seq<Vec<MessagePart>>) -> Seq<HitView>
    decreases diagnostics.len(),
{
    if diagnostics.len() == 0 {
        seq![]
    } else {
        let rest = hits_of(diagnostics.drop_last());
        let parts = diagnostics.last()@;
        if is_error(parts) {
            rest + Seq::new(parts[0].2@.len(), |i: int| hit_of(parts[0].2@[i], parts[0].1@))
        } else {
            rest
        }
    }
}

/// The byte lies in the range.
pub open spec fn in_range(range: (usize, usize), byte: usize) -> bool {
    range.0 <= byte < range.1
}

/// The first of the ranges that holds both ends of a span, else the whole file.
pub open spec fn enclosing(ranges: Seq<(usize, usize)>, byte_start: usize, byte_end: usize) -> DeclBounds
    decreases ranges.len(),
{
    if ranges.len() == 0 {
        DeclBounds::Whole
    } else if in_range(ranges[0], byte_start) && in_range(ranges[0], byte_end) {
        DeclBounds::Range(ranges[0].0, ranges[0].1)
    } else {
        enclosing(ranges.skip(1), byte_start, byte_end)
    }
}

/// The declaration that a place belongs to.
pub open spec fn bounds_of(
    hit: HitView,
    items: Map<Seq<char>, Seq<(usize, usize)>>,
    files: Set<Seq<char>>,
) -> Result<DeclBounds, FixError> {
    if !files.contains(hit.file) {
        Err(FixError::NoFile)
    } else if !items.dom().contains(hit.file) {
        Err(FixError::NoItems)
    } else {
        Ok(enclosing(items[hit.file], hit.byte_start, hit.byte_end))
    }
}

/// The position of the group of the declaration; -1 if it has none.
pub open spec fn group_at(groups: Seq<DeclErrorsView>, file: Seq<char>, bounds: DeclBounds) -> int
    decreases groups.len(),
{
    if groups.len() == 0 {
        -1
    } else if groups.last().file == file && groups.last().bounds == bounds {
        groups.len() - 1
    } else {
        group_at(groups.drop_last(), file, bounds)
    }
}

/// The groups with `message` in that of the declaration.
pub open spec fn grouped(
    groups: Seq<DeclErrorsView>,
    file: Seq<char>,
    bounds: DeclBounds,
    message: Seq<char>,
) -> Seq<DeclErrorsView> {
    let k = group_at(groups, file, bounds);
    if k < 0 {
        groups.push(DeclErrorsView { file, bounds, messages: seq![message] })
    } else {
        groups.update(
            k,
            DeclErrorsView { file, bounds, messages: groups[k].messages.push(message) },
        )
    }
}

/// The messages of the places by declaration, or what is wrong with the first
/// place that belongs to none.
pub open spec fn attributed(
    hits: Seq<HitView>,
    items: Map<Seq<char>, Seq<(usize, usize)>>,
    files: Set<Seq<char>>,
) -> Result<Seq<DeclErrorsView>, FixError>
    decreases hits.len(),
{
    if hits.len() == 0 {
        Ok(seq![])
    } else {
        match attributed(hits.drop_last(), items, files) {
            Err(e) => Err(e),
            Ok(groups) => match bounds_of(hits.last(), items, files) {
                Err(e) => Err(e),
                Ok(bounds) => Ok(grouped(groups, hits.last().file, bounds, hits.last().message)),
            },
        }
    }
}

/// No declaration has two groups.
pub open spec fn distinct(groups: Seq<DeclErrorsView>) -> bool {
    forall|i: int, j: int|
        0 <= i < j < groups.len() ==> !((#[trigger] groups[i]).file == (#[trigger] groups[j]).file
            && groups[i].bounds == groups[j].bounds)
}

/// The group of a declaration is found if there is one.
pub proof fn group_at_is(groups: Seq<DeclErrorsView>, file: Seq<char>, bounds: DeclBounds)
    ensures
        ({
            let k = group_at(groups, file, bounds);
            &&& -1 <= k < groups.len()
            &&& k >= 0 ==> groups[k].file == file && groups[k].bounds == bounds
            &&& k < 0 ==> forall|i: int|
                0 <= i < groups.len() ==> !((#[trigger] groups[i]).file == file
                    && groups[i].bounds == bounds)
        }),
    decreases groups.len(),
{
    if groups.len() > 0 && !(groups.last().file == file && groups.last().bounds == bounds) {
        let rest = groups.drop_last();
        group_at_is(rest, file, bounds);
        if group_at(rest, file, bounds) < 0 {
            assert forall|i: int| 0 <= i < groups.len() implies !((#[trigger] groups[i]).file
                == file && groups[i].bounds == bounds) by {
                if i < rest.len() {
                    assert(rest[i] == groups[i]);
                }
            }
        }
    }
}

/// Each declaration has one group.
pub proof fn each_declaration_once(
    hits: Seq<HitView>,
    items: Map<Seq<char>, Seq<(usize, usize)>>,
    files: Set<Seq<char>>,
)
    requires
        attributed(hits, items, files) is Ok,
    ensures
        distinct(attributed(hits, items, files)->Ok_0),
    decreases hits.len(),
{
    if hits.len() > 0 {
        each_declaration_once(hits.drop_last(), items, files);
        let groups = attributed(hits.drop_last(), items, files)->Ok_0;
        let bounds = bounds_of(hits.last(), items, files)->Ok_0;
        group_at_is(groups, hits.last().file, bounds);
    }
}

/// The number of messages in all groups.
pub open spec fn message_count(groups: Seq<DeclErrorsView>) -> nat
    decreases groups.len(),
{
    if groups.len() == 0 {
        0
    } else {
        message_count(groups.drop_last()) + groups.last().messages.len()
    }
}

proof fn count_update(groups: Seq<DeclErrorsView>, k: int, g: DeclErrorsView)
    requires
        0 <= k < groups.len(),
    ensures
        message_count(groups.update(k, g)) == message_count(groups) - groups[k].messages.len()
            + g.messages.len(),
    decreases groups.len(),
{
    if k == groups.len() - 1 {
        assert(groups.update(k, g).drop_last() =~= groups.drop_last());
    } else {
        assert(groups.update(k, g).drop_last() =~= groups.drop_last().update(k, g));
        count_update(groups.drop_last(), k, g);
    }
}

/// No message is lost: the groups hold one message for each place.
pub proof fn no_message_is_lost(
    hits: Seq<HitView>,
    items: Map<Seq<char>, Seq<(usize, usize)>>,
    files: Set<Seq<char>>,
)
    requires
        attributed(hits, items, files) is Ok,
    ensures
        message_count(attributed(hits, items, files)->Ok_0) == hits.len(),
    decreases hits.len(),
{
    if hits.len() > 0 {
        no_message_is_lost(hits.drop_last(), items, files);
        let groups = attributed(hits.drop_last(), items, files)->Ok_0;
        let h = hits.last();
        let bounds = bounds_of(h, items, files)->Ok_0;
        group_at_is(groups, h.file, bounds);
        let k = group_at(groups, h.file, bounds);
        if k >= 0 {
            count_update(
                groups,
                k,
                DeclErrorsView {
                    file: h.file,
                    bounds,
                    messages: groups[k].messages.push(h.message),
                },
            );
        } else {
            let one = DeclErrorsView { file: h.file, bounds, messages: seq![h.message] };
            assert(groups.push(one).drop_last() =~= groups);
        }
    }
}

/// The first item that holds both ends of a span, else the whole file.
pub fn find_enclosing_decl(
    items: &ItemRanges,
    file_name: &str,
    byte_start: usize,
    byte_end: usize,
) -> (r: Result<DeclBounds, FixError>)
    ensures
        r == if items@.dom().contains(file_name@) {
            Ok(enclosing(items@[file_name@], byte_start, byte_end))
        } else {
            Err(FixError::NoItems)
        },
{
    let ranges = match items.get(file_name) {
        Some(v) => v,
        None => {
            return Err(FixError::NoItems);
        },
    };
    let ghost all = ranges@;
    let mut i: usize = 0;
    proof {
        assert(ranges.deep_view() =~= all);
        assert(all.skip(0) =~= all);
    }
    while i < ranges.len()
        invariant
            all == ranges@,
            items@.dom().contains(file_name@),
            items@[file_name@] == all,
            i <= all.len(),
            enclosing(all, byte_start, byte_end) == enclosing(
                all.skip(i as int),
                byte_start,
                byte_end,
            ),
        decreases all.len() - i,
    {
        let (start, end) = ranges[i];
        proof {
            assert(all.skip(i as int)[0] == all[i as int]);
            assert(all.skip(i as int).skip(1) =~= all.skip(i + 1));
        }
        if start <= byte_start && byte_start < end && start <= byte_end && byte_end < end {
            return Ok(DeclBounds::Range(start, end));
        }
        i += 1;
    }
    Ok(DeclBounds::Whole)
}

/// The places that the errors among the diagnostics point to.
pub fn error_hits(diagnostics: &Vec<Vec<MessagePart>>) -> (r: Vec<Hit>)
    ensures
        r.deep_view() == hits_of(diagnostics@),
{
    let ghost all = diagnostics@;
    let mut out: Vec<Hit> = Vec::new();
    let mut i: usize = 0;
    proof {
        assert(out.deep_view() =~= hits_of(all.take(0)));
    }
    while i < diagnostics.len()
        invariant
            all == diagnostics@,
            i <= all.len(),
            out.deep_view() == hits_of(all.take(i as int)),
        decreases all.len() - i,
    {
        let parts = &diagnostics[i];
        let ghost before = out.deep_view();
        proof {
            assert(all.take(i + 1).drop_last() =~= all.take(i as int));
            assert(all.take(i + 1).last() == *parts);
        }
        if parts.len() > 0 && same(parts[0].0.as_str(), "Error") {
            let spans = &parts[0].2;
            let message = parts[0].1.as_str();
            let ghost want = Seq::new(spans@.len(), |i: int| hit_of(spans@[i], message@));
            let mut k: usize = 0;
            proof {
                assert(out.deep_view() =~= before + want.take(0));
            }
            while k < spans.len()
                invariant
                    want == Seq::new(spans@.len(), |i: int| hit_of(spans@[i], message@)),
                    k <= spans@.len(),
                    out.deep_view() == before + want.take(k as int),
                decreases spans@.len() - k,
            {
                let ghost so_far = out.deep_view();
                let hit = Hit {
                    file: spans[k].0.as_str().to_owned(),
                    byte_start: spans[k].5 as usize,
                    byte_end: spans[k].6 as usize,
                    message: message.to_owned(),
                };
                out.push(hit);
                proof {
                    assert(out.deep_view() =~= so_far.push(hit.deep_view()));
                    assert(want.take(k + 1) =~= want.take(k as int).push(want[k as int]));
                    assert(out.deep_view() =~= before + want.take(k + 1));
                }
                k += 1;
            }
            proof {
                assert(want.take(k as int) =~= want);
            }
        }
        i += 1;
    }
    proof {
        assert(all.take(i as int) =~= all);
    }
    out
}

fn add_to_group(groups: &mut Vec<DeclErrors>, file: &str, bounds: DeclBounds, message: &str)
    ensures
        final(groups).deep_view() == grouped(old(groups).deep_view(), file@, bounds, message@),
{
    let ghost start = groups.deep_view();
    proof {
        group_at_is(start, file@, bounds);
        assert(start.take(start.len() as int) =~= start);
    }
    let mut n: usize = groups.len();
    while n > 0
        invariant
            start == groups.deep_view(),
            n <= groups@.len(),
            group_at(start, file@, bounds) == group_at(start.take(n as int), file@, bounds),
        ensures
            start == groups.deep_view(),
            n <= groups@.len(),
            group_at(start, file@, bounds) == n - 1,
        decreases n,
    {
        proof {
            assert(start.take(n as int).drop_last() =~= start.take(n - 1));
            assert(start.take(n as int).last() == groups@[n - 1].deep_view());
        }
        if same(groups[n - 1].file.as_str(), file) && groups[n - 1].bounds == bounds {
            break;
        }
        n -= 1;
    }
    if n > 0 {
        let k: usize = n - 1;
        let mut messages = copy_strings(&groups[k].messages);
        let ghost had = messages.deep_view();
        messages.push(message.to_owned());
        let more = DeclErrors { file: file.to_owned(), bounds, messages };
        proof {
            assert(messages.deep_view() =~= had.push(message@));
        }
        groups.set(k, more);
        proof {
            assert(groups.deep_view() =~= start.update(k as int, more.deep_view()));
        }
    } else {
        let mut messages: Vec<String> = Vec::new();
        messages.push(message.to_owned());
        let one = DeclErrors { file: file.to_owned(), bounds, messages };
        proof {
            assert(messages.deep_view() =~= seq![message@]);
        }
        groups.push(one);
        proof {
            assert(groups.deep_view() =~= start.push(one.deep_view()));
        }
    }
}

/// The view of what attribution gives.
pub open spec fn groups_view(r: Result<Vec<DeclErrors>, FixError>) -> Result<
    Seq<DeclErrorsView>,
    FixError,
> {
    match r {
        Ok(v) => Ok(v.deep_view()),
        Err(e) => Err(e),
    }
}

proof fn attribution_fails(
    hits: Seq<HitView>,
    items: Map<Seq<char>, Seq<(usize, usize)>>,
    files: Set<Seq<char>>,
    n: int,
    e: FixError,
)
    requires
        0 <= n <= hits.len(),
        attributed(hits.take(n), items, files) == Err::<Seq<DeclErrorsView>, FixError>(e),
    ensures
        attributed(hits, items, files) == Err::<Seq<DeclErrorsView>, FixError>(e),
    decreases hits.len() - n,
{
    if n < hits.len() {
        assert(hits.take(n + 1).drop_last() =~= hits.take(n));
        attribution_fails(hits, items, files, n + 1, e);
    } else {
        assert(hits.take(n) =~= hits);
    }
}

/// Groups the errors of a build by enclosing declaration so that each
/// declaration can be fixed once. An error that lies in no item belongs to the
/// whole file; one that points into a file outside the package, or into one
/// without items, is refused.
pub fn attribute_errors(
    diagnostics: &Vec<Vec<MessagePart>>,
    items: &ItemRanges,
    package: &RawDir,
) -> (r: Result<Vec<DeclErrors>, FixError>)
    ensures
        groups_view(r) == attributed(hits_of(diagnostics@), items@, package@.dom()),
{
    let hits = error_hits(diagnostics);
    let ghost all = hits.deep_view();
    let mut groups: Vec<DeclErrors> = Vec::new();
    let mut i: usize = 0;
    proof {
        assert(groups.deep_view() =~= seq![]);
    }
    while i < hits.len()
        invariant
            all == hits.deep_view(),
            all == hits_of(diagnostics@),
            i <= hits@.len(),
            attributed(all.take(i as int), items@, package@.dom()) == Ok::<
                Seq<DeclErrorsView>,
                FixError,
            >(groups.deep_view()),
        decreases hits@.len() - i,
    {
        let hit = &hits[i];
        proof {
            assert(all.take(i + 1).drop_last() =~= all.take(i as int));
            assert(all.take(i + 1).last() == hit.deep_view());
        }
        if package.get_file(hit.file.as_str()).is_none() {
            proof {
                attribution_fails(all, items@, package@.dom(), i + 1, FixError::NoFile);
            }
            return Err(FixError::NoFile);
        }
        match find_enclosing_decl(items, hit.file.as_str(), hit.byte_start, hit.byte_end) {
            Ok(bounds) => {
                add_to_group(&mut groups, hit.file.as_str(), bounds, hit.message.as_str());
            },
            Err(e) => {
                proof {
                    attribution_fails(all, items@, package@.dom(), i + 1, e);
                }
                return Err(e);
            },
        }
        i += 1;
    }
    proof {
        assert(all.take(i as int) =~= all);
    }
    Ok(groups)
}

} // verus!
