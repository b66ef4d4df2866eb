//! What holds of the repair of declarations.
use crate::cargo_output::{MessagePart, MessageSpan};
use crate::fix_declarations_llm::attribution::{
    attributed, bounds_of, each_declaration_once, enclosing, group_at, group_at_is, hit_of,
    hits_of, DeclBounds, DeclErrorsView, FixError, HitView,
};
use crate::fix_declarations_llm::interface_ctx::{
    file_stubs, interface_of, item_stubs, range_stubs, stub_of_bytes, stub_with,
};
use crate::fix_declarations_llm::patches::{
    adding_keeps_order, before, growth, in_order, spliced, with_patch, PatchView,
};
use crate::fix_declarations_llm::tool::{
    fixed_count, fixed_files, patches_for, request_of, requests_of, DeclFixView, Files,
};
use crate::order::listing;
use crate::rust_syntax::{body_ranges, stubbed, ItemView};
use crate::seqs::{filter_map_has, flat_map_has, flat_map_last};
use crate::text::{joined, utf8_text, without_newlines};
use vstd::prelude::*;
use vstd::utf8::encode_utf8;

verus! {

// ---------------------------------------------------------------------------
// Errors and declarations
// ---------------------------------------------------------------------------

/// Every span of every error is a hit, with the file, the bytes and the message,
/// in order; nothing that is no error hits anything.
pub proof fn every_span_of_an_error_hits(diagnostics: Seq<Vec<MessagePart>>)
    ensures
        hits_of(diagnostics) == diagnostics.flat_map(
            |d: Vec<MessagePart>|
                if d@.len() > 0 && d@[0].0@ == "Error"@ {
                    d@[0].2@.map_values(
                        |s: MessageSpan|
                            HitView {
                                file: s.0@,
                                byte_start: s.5 as usize,
                                byte_end: s.6 as usize,
                                message: d@[0].1@,
                            },
                    )
                } else {
                    seq![]
                },
        ),
    decreases diagnostics.len(),
{
    let f = |d: Vec<MessagePart>|
        if d@.len() > 0 && d@[0].0@ == "Error"@ {
            d@[0].2@.map_values(
                |s: MessageSpan|
                    HitView {
                        file: s.0@,
                        byte_start: s.5 as usize,
                        byte_end: s.6 as usize,
                        message: d@[0].1@,
                    },
            )
        } else {
            seq![]
        };
    flat_map_last(diagnostics, f);
    if diagnostics.len() > 0 {
        every_span_of_an_error_hits(diagnostics.drop_last());
        let parts = diagnostics.last()@;
        if parts.len() > 0 && parts[0].0@ == "Error"@ {
            assert(Seq::new(parts[0].2@.len(), |i: int| hit_of(parts[0].2@[i], parts[0].1@))
                =~= f(diagnostics.last()));
        } else {
            assert(diagnostics.drop_last().flat_map(f) + f(diagnostics.last())
                =~= diagnostics.drop_last().flat_map(f));
        }
    } else {
        assert(hits_of(diagnostics) =~= diagnostics.flat_map(f));
    }
}

/// The declaration of a hit is the first that holds both its ends; a hit that no
/// declaration holds is one on the whole file.
pub proof fn hits_belong_to_the_first_declaration_around_them(
    ranges: Seq<(usize, usize)>,
    start: usize,
    end: usize,
)
    ensures
        match enclosing(ranges, start, end) {
            DeclBounds::Range(a, b) => exists|i: int|
                0 <= i < ranges.len() && #[trigger] ranges[i] == (a, b) && a <= start < b && a
                    <= end < b && forall|j: int|
                    0 <= j < i ==> !((#[trigger] ranges[j]).0 <= start < ranges[j].1
                        && ranges[j].0 <= end < ranges[j].1),
            DeclBounds::Whole => forall|j: int|
                0 <= j < ranges.len() ==> !((#[trigger] ranges[j]).0 <= start < ranges[j].1
                    && ranges[j].0 <= end < ranges[j].1),
        },
    decreases ranges.len(),
{
    if ranges.len() > 0 {
        let rest = ranges.skip(1);
        let r = ranges[0];
        if r.0 <= start < r.1 && r.0 <= end < r.1 {
            assert(ranges[0] == (r.0, r.1));
        } else {
            hits_belong_to_the_first_declaration_around_them(rest, start, end);
            match enclosing(rest, start, end) {
                DeclBounds::Range(a, b) => {
                    let i = choose|i: int|
                        0 <= i < rest.len() && #[trigger] rest[i] == (a, b) && a <= start < b && a
                            <= end < b && forall|j: int|
                            0 <= j < i ==> !((#[trigger] rest[j]).0 <= start < rest[j].1
                                && rest[j].0 <= end < rest[j].1);
                    assert(ranges[i + 1] == (a, b));
                    assert forall|j: int| 0 <= j < i + 1 implies !((#[trigger] ranges[j]).0
                        <= start < ranges[j].1 && ranges[j].0 <= end < ranges[j].1) by {
                        if j > 0 {
                            assert(rest[j - 1] == ranges[j]);
                        }
                    }
                },
                DeclBounds::Whole => {
                    assert forall|j: int| 0 <= j < ranges.len() implies !((
                    #[trigger] ranges[j]).0 <= start < ranges[j].1 && ranges[j].0 <= end
                        < ranges[j].1) by {
                        if j > 0 {
                            assert(rest[j - 1] == ranges[j]);
                        }
                    }
                },
            }
        }
    }
}

/// The messages of the hits on one declaration, in order.
pub open spec fn messages_on(
    hits: Seq<HitView>,
    items: Map<Seq<char>, Seq<(usize, usize)>>,
    files: Set<Seq<char>>,
    file: Seq<char>,
    bounds: DeclBounds,
) -> Seq<Seq<char>> {
    hits.filter(
        |h: HitView| h.file == file && bounds_of(h, items, files) == Ok::<DeclBounds, FixError>(
            bounds,
        ),
    ).map_values(|h: HitView| h.message)
}

/// The errors have a group for the declaration.
pub open spec fn has_group(
    groups: Seq<DeclErrorsView>,
    file: Seq<char>,
    bounds: DeclBounds,
) -> bool {
    exists|g: int|
        0 <= g < groups.len() && (#[trigger] groups[g]).file == file && groups[g].bounds == bounds
}

/// Every error is told the declaration that it hits: each hit has a group for its
/// declaration, and each group holds exactly the messages of the hits on its
/// declaration, in order. Attribution fails if and only if a hit has no declaration.
pub proof fn every_error_is_attributed(
    hits: Seq<HitView>,
    items: Map<Seq<char>, Seq<(usize, usize)>>,
    files: Set<Seq<char>>,
)
    ensures
        attributed(hits, items, files) is Ok <==> forall|i: int|
            0 <= i < hits.len() ==> bounds_of(#[trigger] hits[i], items, files) is Ok,
        attributed(hits, items, files) matches Ok(groups) ==> {
            &&& forall|i: int|
                0 <= i < hits.len() ==> has_group(
                    groups,
                    (#[trigger] hits[i]).file,
                    bounds_of(hits[i], items, files)->Ok_0,
                )
            &&& forall|g: int|
                0 <= g < groups.len() ==> (#[trigger] groups[g]).messages == messages_on(
                    hits,
                    items,
                    files,
                    groups[g].file,
                    groups[g].bounds,
                )
            &&& forall|g: int| 0 <= g < groups.len() ==> (#[trigger] groups[g]).messages.len() > 0
        },
    decreases hits.len(),
{
    if hits.len() > 0 {
        let rest = hits.drop_last();
        let n = hits.len() - 1;
        let h = hits[n];
        every_error_is_attributed(rest, items, files);
        if forall|i: int| 0 <= i < hits.len() ==> bounds_of(#[trigger] hits[i], items, files) is Ok {
            assert forall|i: int| 0 <= i < rest.len() implies bounds_of(
                #[trigger] rest[i],
                items,
                files,
            ) is Ok by {
                assert(bounds_of(hits[i], items, files) is Ok);
            }
            assert(bounds_of(hits[n], items, files) is Ok);
        }
        if attributed(hits, items, files) is Ok {
            let old_groups = attributed(rest, items, files)->Ok_0;
            let groups = attributed(hits, items, files)->Ok_0;
            let bounds = bounds_of(h, items, files)->Ok_0;
            group_at_is(old_groups, h.file, bounds);
            each_declaration_once(rest, items, files);
            let k = group_at(old_groups, h.file, bounds);
            assert forall|i: int| 0 <= i < hits.len() implies bounds_of(
                #[trigger] hits[i],
                items,
                files,
            ) is Ok by {
                if i < n {
                    assert(bounds_of(rest[i], items, files) is Ok);
                }
            }
            assert forall|i: int| 0 <= i < hits.len() implies has_group(
                groups,
                (#[trigger] hits[i]).file,
                bounds_of(hits[i], items, files)->Ok_0,
            ) by {
                if i < n {
                    assert(rest[i] == hits[i]);
                    let g = choose|g: int|
                        0 <= g < old_groups.len() && (#[trigger] old_groups[g]).file == hits[i].file
                            && old_groups[g].bounds == bounds_of(hits[i], items, files)->Ok_0;
                    assert(groups[g].file == hits[i].file);
                } else if k < 0 {
                    assert(groups[old_groups.len() as int].file == h.file);
                } else {
                    assert(groups[k].file == h.file);
                }
            }
            assert forall|g: int| 0 <= g < groups.len() implies (#[trigger] groups[g]).messages
                == messages_on(hits, items, files, groups[g].file, groups[g].bounds)
                && groups[g].messages.len() > 0 by {
                let file = groups[g].file;
                let b = groups[g].bounds;
                one_more_hit(hits, items, files, file, b);
                if g < old_groups.len() && g != k {
                    assert(groups[g] == old_groups[g]);
                    if k >= 0 {
                        assert(old_groups[k].file == h.file);
                        if g < k {
                            assert(!(old_groups[g].file == old_groups[k].file
                                && old_groups[g].bounds == old_groups[k].bounds));
                        } else {
                            assert(!(old_groups[k].file == old_groups[g].file
                                && old_groups[k].bounds == old_groups[g].bounds));
                        }
                    }
                } else if g == k {
                    assert(old_groups[g].messages == messages_on(rest, items, files, file, b));
                } else {
                    no_hits_no_group(rest, items, files, old_groups, file, b);
                }
            }
        }
    }
}

proof fn one_more_hit(
    hits: Seq<HitView>,
    items: Map<Seq<char>, Seq<(usize, usize)>>,
    files: Set<Seq<char>>,
    file: Seq<char>,
    bounds: DeclBounds,
)
    requires
        hits.len() > 0,
    ensures
        messages_on(hits, items, files, file, bounds) == (if hits.last().file == file && bounds_of(
            hits.last(),
            items,
            files,
        ) == Ok::<DeclBounds, FixError>(bounds) {
            messages_on(hits.drop_last(), items, files, file, bounds).push(hits.last().message)
        } else {
            messages_on(hits.drop_last(), items, files, file, bounds)
        }),
{
    reveal(Seq::filter);
    let p = |h: HitView| h.file == file && bounds_of(h, items, files) == Ok::<DeclBounds, FixError>(
        bounds,
    );
    let g = |h: HitView| h.message;
    let kept = hits.drop_last().filter(p);
    if p(hits.last()) {
        assert(kept.push(hits.last()).map_values(g) =~= kept.map_values(g).push(
            hits.last().message,
        ));
    }
}

proof fn no_hits_no_group(
    hits: Seq<HitView>,
    items: Map<Seq<char>, Seq<(usize, usize)>>,
    files: Set<Seq<char>>,
    groups: Seq<DeclErrorsView>,
    file: Seq<char>,
    bounds: DeclBounds,
)
    requires
        forall|i: int|
            0 <= i < hits.len() ==> bounds_of(#[trigger] hits[i], items, files) is Ok && has_group(
                groups,
                hits[i].file,
                bounds_of(hits[i], items, files)->Ok_0,
            ),
        !has_group(groups, file, bounds),
    ensures
        messages_on(hits, items, files, file, bounds) == Seq::<Seq<char>>::empty(),
    decreases hits.len(),
{
    reveal(Seq::filter);
    if hits.len() > 0 {
        let rest = hits.drop_last();
        assert forall|i: int| 0 <= i < rest.len() implies bounds_of(
            #[trigger] rest[i],
            items,
            files,
        ) is Ok && has_group(groups, rest[i].file, bounds_of(rest[i], items, files)->Ok_0) by {
            assert(bounds_of(hits[i], items, files) is Ok);
        }
        no_hits_no_group(rest, items, files, groups, file, bounds);
        one_more_hit(hits, items, files, file, bounds);
        assert(bounds_of(hits[hits.len() - 1], items, files) is Ok);
    } else {
        assert(messages_on(hits, items, files, file, bounds) =~= seq![]);
    }
}

// ---------------------------------------------------------------------------
// Requests
// ---------------------------------------------------------------------------

/// Every declaration with errors is asked for: its file, its bytes, its text and
/// its messages with an empty line between them, in order.
pub proof fn every_declaration_is_asked_for(groups: Seq<DeclErrorsView>, dir: Files)
    ensures
        requests_of(groups, dir) matches Ok(requests) ==> requests.len() == groups.len() && forall|
            i: int,
        |
            0 <= i < groups.len() ==> asks_for(#[trigger] requests[i], groups[i], dir),
        requests_of(groups, dir) is Ok <==> forall|i: int|
            0 <= i < groups.len() ==> request_of(#[trigger] groups[i], dir) is Ok,
    decreases groups.len(),
{
    if groups.len() > 0 {
        let rest = groups.drop_last();
        let n = groups.len() - 1;
        every_declaration_is_asked_for(rest, dir);
        if requests_of(groups, dir) is Ok {
            let requests = requests_of(groups, dir)->Ok_0;
            let old_requests = requests_of(rest, dir)->Ok_0;
            assert forall|i: int| 0 <= i < groups.len() implies asks_for(
                #[trigger] requests[i],
                groups[i],
                dir,
            ) by {
                if i < n {
                    assert(requests[i] == old_requests[i]);
                    assert(rest[i] == groups[i]);
                }
            }
            assert forall|i: int| 0 <= i < groups.len() implies request_of(
                #[trigger] groups[i],
                dir,
            ) is Ok by {
                if i < n {
                    assert(request_of(rest[i], dir) is Ok);
                }
            }
        }
        if forall|i: int| 0 <= i < groups.len() ==> request_of(#[trigger] groups[i], dir) is Ok {
            assert forall|i: int| 0 <= i < rest.len() implies request_of(
                #[trigger] rest[i],
                dir,
            ) is Ok by {
                assert(request_of(groups[i], dir) is Ok);
            }
            assert(request_of(groups[n], dir) is Ok);
        }
    }
}

/// The request is for the declaration of the group: the whole file, or the bytes
/// between its bounds.
pub open spec fn asks_for(r: DeclFixView, group: DeclErrorsView, dir: Files) -> bool {
    &&& dir.dom().contains(group.file)
    &&& r.file == group.file
    &&& r.errors_text == joined(group.messages, "\n\n"@)
    &&& group.bounds is Whole ==> r.start == 0 && r.end == dir[group.file].len() as usize
    &&& group.bounds matches DeclBounds::Range(a, b) ==> r.start == a && r.end == b
    &&& r.start <= r.end <= dir[group.file].len()
    &&& utf8_text(dir[group.file].subrange(r.start as int, r.end as int)) == Some(r.decl_source)
}

// ---------------------------------------------------------------------------
// Replies
// ---------------------------------------------------------------------------

proof fn last_patch_stays(patches: Seq<PatchView>, p: PatchView, q: PatchView)
    requires
        in_order(patches),
    ensures
        with_patch(patches, p).contains(p),
        patches.contains(q) && (q.start != p.start || q.end != p.end) ==> with_patch(
            patches,
            p,
        ).contains(q),
    decreases patches.len(),
{
    let out = with_patch(patches, p);
    if patches.len() == 0 {
        assert(out[0] == p);
    } else {
        let rest = patches.drop_last();
        let n = patches.len() - 1;
        if before(patches.last(), p) {
            assert(out[patches.len() as int] == p);
            if patches.contains(q) {
                let k = choose|k: int| 0 <= k < patches.len() && patches[k] == q;
                assert(out[k] == q);
            }
        } else if before(p, patches.last()) {
            assert forall|i: int, j: int| 0 <= i < j < rest.len() implies before(
                #[trigger] rest[i],
                #[trigger] rest[j],
            ) by {
                assert(before(patches[i], patches[j]));
            }
            last_patch_stays(rest, p, q);
            let inner = with_patch(rest, p);
            let k = choose|k: int| 0 <= k < inner.len() && inner[k] == p;
            assert(out[k] == p);
            if patches.contains(q) && (q.start != p.start || q.end != p.end) {
                let j = choose|j: int| 0 <= j < patches.len() && patches[j] == q;
                if j < n {
                    assert(rest[j] == q);
                    let m = choose|m: int| 0 <= m < inner.len() && inner[m] == q;
                    assert(out[m] == q);
                } else {
                    assert(out[out.len() - 1] == q);
                }
            }
        } else {
            assert(out[n] == p);
            if patches.contains(q) && (q.start != p.start || q.end != p.end) {
                let j = choose|j: int| 0 <= j < patches.len() && patches[j] == q;
                assert(out[j] == q);
            }
        }
    }
}

/// The reply is a text for this request.
pub open spec fn answered(
    requests: Seq<DeclFixView>,
    replies: Seq<Option<Seq<char>>>,
    file: Seq<char>,
    i: int,
) -> bool {
    requests[i].file == file && (replies[i] matches Some(text) && text.len() > 0)
}

/// Every reply becomes a patch of the bytes that were asked for, the last one where
/// several are for the same bytes; nothing else is patched, and the patches stand in
/// the order of the file.
pub proof fn every_reply_is_a_patch(
    requests: Seq<DeclFixView>,
    replies: Seq<Option<Seq<char>>>,
    file: Seq<char>,
)
    requires
        requests.len() <= replies.len(),
    ensures
        in_order(patches_for(requests, replies, file)),
        forall|i: int|
            0 <= i < requests.len() && #[trigger] answered(requests, replies, file, i) && (forall|
                j: int,
            |
                i < j < requests.len() && #[trigger] answered(requests, replies, file, j)
                    ==> requests[j].start != requests[i].start || requests[j].end
                    != requests[i].end) ==> patches_for(requests, replies, file).contains(
                PatchView {
                    start: requests[i].start,
                    end: requests[i].end,
                    text: replies[i]->0,
                },
            ),
        forall|p: PatchView| #[trigger]
            patches_for(requests, replies, file).contains(p) ==> exists|i: int|
                0 <= i < requests.len() && #[trigger] answered(requests, replies, file, i) && p == (
                PatchView {
                    start: requests[i].start,
                    end: requests[i].end,
                    text: replies[i]->0,
                }),
    decreases requests.len(),
{
    let out = patches_for(requests, replies, file);
    if requests.len() > 0 {
        let rest = requests.drop_last();
        let n = requests.len() - 1;
        every_reply_is_a_patch(rest, replies, file);
        let old_out = patches_for(rest, replies, file);
        let last = PatchView {
            start: requests[n].start,
            end: requests[n].end,
            text: replies[n]->0,
        };
        if answered(requests, replies, file, n) {
            adding_keeps_order(old_out, last);
            assert(out == with_patch(old_out, last));
        } else {
            assert(out == old_out);
        }
        assert forall|i: int|
            0 <= i < requests.len() && #[trigger] answered(requests, replies, file, i) && (forall|
                j: int,
            |
                i < j < requests.len() && #[trigger] answered(requests, replies, file, j)
                    ==> requests[j].start != requests[i].start || requests[j].end
                    != requests[i].end) implies out.contains(
            PatchView { start: requests[i].start, end: requests[i].end, text: replies[i]->0 },
        ) by {
            let q = PatchView {
                start: requests[i].start,
                end: requests[i].end,
                text: replies[i]->0,
            };
            if i < n {
                assert(rest[i] == requests[i]);
                assert(answered(rest, replies, file, i));
                assert forall|j: int|
                    i < j < rest.len() && #[trigger] answered(rest, replies, file, j) implies
                    rest[j].start != rest[i].start || rest[j].end != rest[i].end by {
                    assert(rest[j] == requests[j]);
                    assert(answered(requests, replies, file, j));
                }
                assert(old_out.contains(q));
                if answered(requests, replies, file, n) {
                    last_patch_stays(old_out, last, q);
                }
            } else {
                last_patch_stays(old_out, last, q);
            }
        }
        assert forall|p: PatchView| #[trigger] out.contains(p) implies exists|i: int|
            0 <= i < requests.len() && #[trigger] answered(requests, replies, file, i) && p == (
            PatchView {
                start: requests[i].start,
                end: requests[i].end,
                text: replies[i]->0,
            }) by {
            if answered(requests, replies, file, n) && p == last {
            } else {
                assert(old_out.contains(p));
                let i = choose|i: int|
                    0 <= i < rest.len() && #[trigger] answered(rest, replies, file, i) && p == (
                    PatchView {
                        start: rest[i].start,
                        end: rest[i].end,
                        text: replies[i]->0,
                    });
                assert(rest[i] == requests[i]);
                assert(answered(requests, replies, file, i));
            }
        }
    }
}

/// A single reply puts its text in the place of the bytes that were asked for; the
/// rest of the file and every other file stay.
pub proof fn replies_replace_what_was_asked_for(
    request: DeclFixView,
    text: Seq<char>,
    head: Seq<u8>,
    old_bytes: Seq<u8>,
    tail: Seq<u8>,
    dir: Files,
)
    requires
        dir.dom().contains(request.file),
        dir[request.file] == head + old_bytes + tail,
        request.start == head.len(),
        request.end == head.len() + old_bytes.len(),
        text.len() > 0,
    ensures
        fixed_files(seq![request], seq![Some(text)], dir)[request.file] == head + encode_utf8(text)
            + tail,
        forall|p: Seq<char>|
            dir.dom().contains(p) && p != request.file ==> #[trigger] fixed_files(
                seq![request],
                seq![Some(text)],
                dir,
            )[p] == dir[p],
        fixed_files(seq![request], seq![Some(text)], dir).dom() == dir.dom(),
{
    let requests = seq![request];
    let replies = seq![Some(text)];
    let none = Seq::<PatchView>::empty();
    let p = PatchView { start: request.start, end: request.end, text };
    assert(requests.drop_last() =~= Seq::<DeclFixView>::empty());
    assert(requests.last() == request);
    assert(replies[0] == Some(text));
    assert forall|f: Seq<char>| #[trigger] patches_for(requests, replies, f) == (if f
        == request.file {
        seq![p]
    } else {
        none
    }) by {
        assert(patches_for(requests.drop_last(), replies, f) =~= none);
        assert(with_patch(none, p) =~= seq![p]);
    }
    let bytes = dir[request.file];
    assert(seq![p].drop_last() =~= none);
    assert(seq![p].last() == p);
    assert(spliced(bytes, none) == bytes);
    assert(growth(none) == 0);
    assert(bytes.take(request.start as int) =~= head);
    assert(bytes.skip(request.end as int) =~= tail);
    assert(patches_for(requests, replies, request.file) == seq![p]);
    assert(spliced(bytes, seq![p]) =~= head + encode_utf8(text) + tail);
    assert forall|f: Seq<char>| dir.dom().contains(f) && f != request.file implies
        #[trigger] fixed_files(requests, replies, dir)[f] == dir[f] by {
        assert(patches_for(requests, replies, f) == none);
        assert(spliced(dir[f], none) == dir[f]);
    }
    assert(fixed_files(requests, replies, dir).dom() =~= dir.dom());
}

/// The replies that are counted are those with a text.
pub proof fn replies_with_a_text_are_counted(replies: Seq<Option<Seq<char>>>)
    ensures
        fixed_count(replies) == replies.filter(
            |r: Option<Seq<char>>| r matches Some(text) && text.len() > 0,
        ).len(),
    decreases replies.len(),
{
    reveal(Seq::filter);
    if replies.len() > 0 {
        replies_with_a_text_are_counted(replies.drop_last());
    }
}

// ---------------------------------------------------------------------------
// The interface
// ---------------------------------------------------------------------------

proof fn stubs_of_ranges(source: Seq<u8>, ranges: Seq<(usize, usize)>)
    ensures
        range_stubs(source, ranges) == ranges.filter_map(
            |r: (usize, usize)| stub_of_bytes(source.subrange(r.0 as int, r.1 as int)),
        ),
    decreases ranges.len(),
{
    let f = |r: (usize, usize)| stub_of_bytes(source.subrange(r.0 as int, r.1 as int));
    if ranges.len() > 0 {
        stubs_of_ranges(source, ranges.drop_last());
        assert(range_stubs(source, ranges) =~= ranges.filter_map(f));
    } else {
        assert(range_stubs(source, ranges) =~= ranges.filter_map(f));
    }
}

/// The interface holds the stub of every declaration of every file that is there,
/// file by file in the order of their names, with an empty line between any two.
pub proof fn interfaces_hold_every_declaration(
    paths: Seq<Seq<char>>,
    items: Map<Seq<char>, Seq<(usize, usize)>>,
    dir: Map<Seq<char>, Seq<u8>>,
)
    ensures
        file_stubs(paths, items, dir) == paths.flat_map(
            |p: Seq<char>|
                if dir.dom().contains(p) {
                    items[p].filter_map(
                        |r: (usize, usize)| stub_of_bytes(dir[p].subrange(r.0 as int, r.1 as int)),
                    )
                } else {
                    seq![]
                },
        ),
        interface_of(items, dir) == joined(
            file_stubs(listing(items.dom()), items, dir),
            "\n\n"@,
        ),
        forall|i: int, k: int|
            0 <= i < paths.len() && dir.dom().contains(paths[i]) && 0 <= k < items[paths[i]].len()
                && (#[trigger] stub_of_bytes(
                dir[paths[i]].subrange(
                    items[paths[i]][k].0 as int,
                    items[paths[i]][k].1 as int,
                ),
            ) is Some) ==> file_stubs(paths, items, dir).contains(
                stub_of_bytes(
                    dir[paths[i]].subrange(
                        items[paths[i]][k].0 as int,
                        items[paths[i]][k].1 as int,
                    ),
                )->0,
            ),
    decreases paths.len(),
{
    let f = |p: Seq<char>|
        if dir.dom().contains(p) {
            items[p].filter_map(
                |r: (usize, usize)| stub_of_bytes(dir[p].subrange(r.0 as int, r.1 as int)),
            )
        } else {
            seq![]
        };
    flat_map_last(paths, f);
    if paths.len() > 0 {
        interfaces_hold_every_declaration(paths.drop_last(), items, dir);
        let p = paths.last();
        stubs_of_ranges(dir[p], items[p]);
        if !dir.dom().contains(p) {
            assert(paths.drop_last().flat_map(f) + f(p) =~= paths.drop_last().flat_map(f));
        }
        assert(file_stubs(paths, items, dir) == paths.flat_map(f));
    } else {
        assert(file_stubs(paths, items, dir) =~= paths.flat_map(f));
    }
    flat_map_has(paths, f);
    assert forall|i: int, k: int|
        0 <= i < paths.len() && dir.dom().contains(paths[i]) && 0 <= k < items[paths[i]].len() && (
        #[trigger] stub_of_bytes(
            dir[paths[i]].subrange(items[paths[i]][k].0 as int, items[paths[i]][k].1 as int),
        ) is Some) implies file_stubs(paths, items, dir).contains(
        stub_of_bytes(
            dir[paths[i]].subrange(items[paths[i]][k].0 as int, items[paths[i]][k].1 as int),
        )->0,
    ) by {
        let p = paths[i];
        let g = |r: (usize, usize)| stub_of_bytes(dir[p].subrange(r.0 as int, r.1 as int));
        filter_map_has(items[p], g);
        assert(g(items[p][k]) is Some);
        assert(f(p) == items[p].filter_map(g));
        assert(f(paths[i]).contains(g(items[p][k])->0));
    }
}

/// The stub of a declaration is that of each of its items with the bodies left out,
/// one on a line; a declaration that cannot be parsed stands as it is.
pub proof fn items_are_stubbed_without_their_bodies(
    source: Seq<u8>,
    text: Seq<char>,
    items: Seq<ItemView>,
)
    ensures
        stub_with(source, text, None) == Some(without_newlines(text)),
        (forall|i: int|
            0 <= i < items.len() ==> stubbed(
                source,
                body_ranges(#[trigger] items[i]),
                "{ todo!() }"@,
            ) is Some) ==> stub_with(source, text, Some(items)) == Some(
            joined(
                items.map_values(|i: ItemView| stubbed(source, body_ranges(i), "{ todo!() }"@)->0),
                "\n"@,
            ),
        ),
        (exists|i: int|
            0 <= i < items.len() && stubbed(
                source,
                body_ranges(#[trigger] items[i]),
                "{ todo!() }"@,
            ) is None) ==> stub_with(source, text, Some(items)) is None,
{
    stubs_of_items(source, items);
}

proof fn stubs_of_items(source: Seq<u8>, items: Seq<ItemView>)
    ensures
        (forall|i: int|
            0 <= i < items.len() ==> stubbed(
                source,
                body_ranges(#[trigger] items[i]),
                "{ todo!() }"@,
            ) is Some) ==> item_stubs(source, items) == Some(
            items.map_values(|i: ItemView| stubbed(source, body_ranges(i), "{ todo!() }"@)->0),
        ),
        (exists|i: int|
            0 <= i < items.len() && stubbed(
                source,
                body_ranges(#[trigger] items[i]),
                "{ todo!() }"@,
            ) is None) ==> item_stubs(source, items) is None,
    decreases items.len(),
{
    let g = |i: ItemView| stubbed(source, body_ranges(i), "{ todo!() }"@)->0;
    if items.len() > 0 {
        let rest = items.drop_last();
        let n = items.len() - 1;
        stubs_of_items(source, rest);
        if forall|i: int|
            0 <= i < items.len() ==> stubbed(
                source,
                body_ranges(#[trigger] items[i]),
                "{ todo!() }"@,
            ) is Some {
            assert forall|i: int| 0 <= i < rest.len() implies stubbed(
                source,
                body_ranges(#[trigger] rest[i]),
                "{ todo!() }"@,
            ) is Some by {
                assert(stubbed(source, body_ranges(items[i]), "{ todo!() }"@) is Some);
            }
            assert(stubbed(source, body_ranges(items[n]), "{ todo!() }"@) is Some);
            assert(items.map_values(g) =~= rest.map_values(g).push(g(items.last())));
        }
        if exists|i: int|
            0 <= i < items.len() && stubbed(
                source,
                body_ranges(#[trigger] items[i]),
                "{ todo!() }"@,
            ) is None {
            let i = choose|i: int|
                0 <= i < items.len() && stubbed(
                    source,
                    body_ranges(#[trigger] items[i]),
                    "{ todo!() }"@,
                ) is None;
            if i < n {
                assert(stubbed(source, body_ranges(rest[i]), "{ todo!() }"@) is None);
            }
        }
    } else {
        assert(items.map_values(g) =~= seq![]);
    }
}

} // verus!
