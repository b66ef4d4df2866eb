//! Byte-range patches of a file.
use crate::rust_syntax::push_range;
use crate::text::bytes_of;
use vstd::prelude::*;
use vstd::utf8::encode_utf8;

verus! {

/// The replacement of the bytes from `start` up to `end`.
#[derive(Debug)]
pub struct Patch {
    pub start: usize,
    pub end: usize,
    pub text: String,
}

#[verifier::ext_equal]
pub ghost struct PatchView {
    pub start: usize,
    pub end: usize,
    pub text: Seq<char>,
}

impl DeepView for Patch {
    type V = PatchView;

    open spec fn deep_view(&self) -> PatchView {
        PatchView { start: self.start, end: self.end, text: self.text@ }
    }
}

/// The range of `a` comes before that of `b`.
pub open spec fn before(a: PatchView, b: PatchView) -> bool {
    a.start < b.start || (a.start == b.start && a.end < b.end)
}

/// The patches come in ascending order, no range twice.
pub open spec fn in_order(patches: Seq<PatchView>) -> bool {
    forall|i: int, j: int|
        0 <= i < j < patches.len() ==> before(#[trigger] patches[i], #[trigger] patches[j])
}

/// With `p` at its place in the order, instead of a patch of the same range.
pub open spec fn with_patch(patches: Seq<PatchView>, p: PatchView) -> Seq<PatchView>
    decreases patches.len(),
{
    if patches.len() == 0 {
        seq![p]
    } else if before(patches.last(), p) {
        patches.push(p)
    } else if before(p, patches.last()) {
        with_patch(patches.drop_last(), p).push(patches.last())
    } else {
        patches.drop_last().push(p)
    }
}

/// Adding a patch keeps the order.
pub proof fn adding_keeps_order(patches: Seq<PatchView>, p: PatchView)
    requires
        in_order(patches),
    ensures
        in_order(with_patch(patches, p)),
        forall|q: PatchView|
            #![trigger with_patch(patches, p).contains(q)]
            with_patch(patches, p).contains(q) ==> q == p || patches.contains(q),
    decreases patches.len(),
{
    let out = with_patch(patches, p);
    if patches.len() > 0 {
        let rest = patches.drop_last();
        if before(patches.last(), p) {
            assert forall|q: PatchView| #[trigger] out.contains(q) implies q == p
                || patches.contains(q) by {
                let k = choose|k: int| 0 <= k < out.len() && out[k] == q;
                if k < patches.len() {
                    assert(patches[k] == q);
                }
            }
            assert forall|i: int, j: int| 0 <= i < j < out.len() implies before(
                #[trigger] out[i],
                #[trigger] out[j],
            ) by {
                if j == patches.len() && i < patches.len() - 1 {
                    assert(before(patches[i], patches[patches.len() - 1]));
                }
            }
        } else if before(p, patches.last()) {
            adding_keeps_order(rest, p);
            let inner = with_patch(rest, p);
            assert forall|q: PatchView| #[trigger] out.contains(q) implies q == p
                || patches.contains(q) by {
                let k = choose|k: int| 0 <= k < out.len() && out[k] == q;
                if k < inner.len() {
                    assert(inner[k] == q);
                    assert(inner.contains(q));
                    if q != p {
                        let m = choose|m: int| 0 <= m < rest.len() && rest[m] == q;
                        assert(patches[m] == q);
                    }
                } else {
                    assert(patches[patches.len() - 1] == q);
                }
            }
            assert forall|i: int, j: int| 0 <= i < j < out.len() implies before(
                #[trigger] out[i],
                #[trigger] out[j],
            ) by {
                if j == inner.len() {
                    assert(inner.contains(inner[i]));
                    if inner[i] != p {
                        let m = choose|m: int| 0 <= m < rest.len() && rest[m] == inner[i];
                        assert(before(patches[m], patches[patches.len() - 1]));
                    }
                } else {
                    assert(before(inner[i], inner[j]));
                }
            }
        } else {
            assert forall|q: PatchView| #[trigger] out.contains(q) implies q == p
                || patches.contains(q) by {
                let k = choose|k: int| 0 <= k < out.len() && out[k] == q;
                if k < rest.len() {
                    assert(patches[k] == q);
                }
            }
            assert forall|i: int, j: int| 0 <= i < j < out.len() implies before(
                #[trigger] out[i],
                #[trigger] out[j],
            ) by {
                assert(before(patches[i], patches[j]));
            }
        }
    }
}

/// Puts a patch at its place.
pub fn add_patch(patches: &mut Vec<Patch>, p: Patch)
    ensures
        final(patches).deep_view() == with_patch(old(patches).deep_view(), p.deep_view()),
    decreases old(patches)@.len(),
{
    let ghost start = patches.deep_view();
    match patches.pop() {
        None => {
            patches.push(p);
        },
        Some(last) => {
            let ghost rest = patches.deep_view();
            proof {
                assert(rest =~= start.drop_last());
            }
            if last.start < p.start || (last.start == p.start && last.end < p.end) {
                patches.push(last);
                patches.push(p);
            } else if p.start < last.start || (p.start == last.start && p.end < last.end) {
                add_patch(patches, p);
                let ghost inner = patches.deep_view();
                patches.push(last);
                proof {
                    assert(patches.deep_view() =~= inner.push(last.deep_view()));
                }
            } else {
                patches.push(p);
            }
        },
    }
    proof {
        assert(patches.deep_view() =~= with_patch(start, p.deep_view()));
    }
}

/// Where the last patch ends.
pub open spec fn end_of(patches: Seq<PatchView>) -> int {
    if patches.len() == 0 {
        0
    } else {
        patches.last().end as int
    }
}

/// The patches follow one another without overlap.
pub open spec fn apart(patches: Seq<PatchView>) -> bool
    decreases patches.len(),
{
    patches.len() > 0 ==> apart(patches.drop_last()) && end_of(patches.drop_last())
        <= patches.last().start <= patches.last().end
}

/// The patches follow one another without overlap inside a file of `len` bytes.
pub open spec fn patches_fit(patches: Seq<PatchView>, len: int) -> bool {
    apart(patches) && end_of(patches) <= len
}

/// The patched file up to the end of the last patch.
pub open spec fn patched_part(bytes: Seq<u8>, patches: Seq<PatchView>) -> Seq<u8>
    decreases patches.len(),
{
    if patches.len() == 0 {
        seq![]
    } else {
        patched_part(bytes, patches.drop_last()) + bytes.subrange(
            end_of(patches.drop_last()),
            patches.last().start as int,
        ) + encode_utf8(patches.last().text)
    }
}

/// The file with each range of a patch replaced by its text.
pub open spec fn patched(bytes: Seq<u8>, patches: Seq<PatchView>) -> Seq<u8> {
    patched_part(bytes, patches) + bytes.skip(end_of(patches))
}

proof fn apart_before(patches: Seq<PatchView>, n: int)
    requires
        apart(patches),
        0 <= n <= patches.len(),
    ensures
        apart(patches.take(n)),
        end_of(patches.take(n)) <= end_of(patches),
    decreases patches.len(),
{
    if n == patches.len() {
        assert(patches.take(n) =~= patches);
    } else {
        apart_before(patches.drop_last(), n);
        assert(patches.drop_last().take(n) =~= patches.take(n));
    }
}

// ---------------------------------------------------------------------------
// Splicing
// ---------------------------------------------------------------------------

/// How much longer the file is after the patches than before.
pub open spec fn growth(patches: Seq<PatchView>) -> int
    decreases patches.len(),
{
    if patches.len() == 0 {
        0
    } else {
        growth(patches.drop_last()) + encode_utf8(patches.last().text).len() - (
        patches.last().end - patches.last().start)
    }
}

/// Made one after another, each patch finds its range, moved by the growth of
/// the file so far, in the file as it then is. `len` is the length of the file
/// before any patch.
pub open spec fn splices_fit(patches: Seq<PatchView>, len: int) -> bool
    decreases patches.len(),
{
    patches.len() > 0 ==> {
        let moved = growth(patches.drop_last());
        splices_fit(patches.drop_last(), len) && 0 <= patches.last().start + moved
            && patches.last().start <= patches.last().end <= len
    }
}

/// The file after the patches are made one after another: each replaces its
/// range, moved by the growth of the file so far, by its text.
pub open spec fn spliced(bytes: Seq<u8>, patches: Seq<PatchView>) -> Seq<u8>
    decreases patches.len(),
{
    if patches.len() == 0 {
        bytes
    } else {
        let now = spliced(bytes, patches.drop_last());
        let moved = growth(patches.drop_last());
        now.take(patches.last().start + moved) + encode_utf8(patches.last().text) + now.skip(
            patches.last().end + moved,
        )
    }
}

/// The spliced file is as much longer as its patches make it.
pub proof fn spliced_length(bytes: Seq<u8>, patches: Seq<PatchView>)
    requires
        splices_fit(patches, bytes.len() as int),
    ensures
        spliced(bytes, patches).len() == bytes.len() + growth(patches),
    decreases patches.len(),
{
    if patches.len() > 0 {
        spliced_length(bytes, patches.drop_last());
    }
}

proof fn splices_fit_before(patches: Seq<PatchView>, n: int, len: int)
    requires
        splices_fit(patches, len),
        0 <= n <= patches.len(),
    ensures
        splices_fit(patches.take(n), len),
    decreases patches.len(),
{
    if n == patches.len() {
        assert(patches.take(n) =~= patches);
    } else {
        splices_fit_before(patches.drop_last(), n, len);
        assert(patches.drop_last().take(n) =~= patches.take(n));
    }
}

proof fn growth_is_bytes(patches: Seq<PatchView>)
    ensures
        growth(patches) == bytes_in(patches) - bytes_out(patches),
    decreases patches.len(),
{
    if patches.len() > 0 {
        growth_is_bytes(patches.drop_last());
    }
}

/// Patches that do not overlap can be made one after another, and that replaces
/// each range by its text.
pub proof fn apart_patches_replace_their_ranges(bytes: Seq<u8>, patches: Seq<PatchView>)
    requires
        patches_fit(patches, bytes.len() as int),
    ensures
        splices_fit(patches, bytes.len() as int),
        spliced(bytes, patches) == patched(bytes, patches),
    decreases patches.len(),
{
    if patches.len() == 0 {
        assert(patched(bytes, patches) =~= bytes);
    } else {
        let rest = patches.drop_last();
        let p = patches.last();
        apart_before(patches, patches.len() - 1);
        assert(patches.take(patches.len() - 1) =~= rest);
        apart_patches_replace_their_ranges(bytes, rest);
        part_length(bytes, rest);
        growth_is_bytes(rest);
        let part = patched_part(bytes, rest);
        let now = part + bytes.skip(end_of(rest));
        let moved = growth(rest);
        assert(part.len() == end_of(rest) + moved);
        assert(now.take(p.start + moved) =~= part + bytes.subrange(end_of(rest), p.start as int));
        assert(now.skip(p.end + moved) =~= bytes.skip(p.end as int));
    }
}

/// Makes the patches one after another. Each replaces its range, which is that
/// of the file as it was, moved by the growth of the file so far, by its text.
/// Where a patch does not find its range, the file stays as it was and the
/// result is `false`.
pub fn apply_patches(source: &mut Vec<u8>, patches: &Vec<Patch>) -> (r: bool)
    ensures
        r == splices_fit(patches.deep_view(), old(source)@.len() as int),
        r ==> final(source)@ == spliced(old(source)@, patches.deep_view()),
        !r ==> final(source)@ == old(source)@,
        patches_fit(patches.deep_view(), old(source)@.len() as int) ==> r && final(source)@
            == patched(old(source)@, patches.deep_view()),
{
    let ghost all = patches.deep_view();
    let ghost bytes = source@;
    let len: usize = source.len();
    let mut now: Vec<u8> = Vec::new();
    push_range(&mut now, source.as_slice(), 0, len);
    let mut i: usize = 0;
    proof {
        assert(now@ =~= bytes);
        if patches_fit(all, len as int) {
            apart_patches_replace_their_ranges(bytes, all);
        }
    }
    while i < patches.len()
        invariant
            all == patches.deep_view(),
            len == bytes.len(),
            bytes == source@,
            bytes == old(source)@,
            i <= patches@.len(),
            splices_fit(all.take(i as int), len as int),
            now@ == spliced(bytes, all.take(i as int)),
            patches_fit(all, len as int) ==> splices_fit(all, len as int),
        decreases patches@.len() - i,
    {
        let p = &patches[i];
        proof {
            assert(all.take(i + 1).drop_last() =~= all.take(i as int));
            assert(all.take(i + 1).last() == p.deep_view());
            spliced_length(bytes, all.take(i as int));
        }
        let fits = p.start <= p.end && p.end <= len && p.start as u128 + now.len() as u128
            >= len as u128;
        if !fits {
            proof {
                if splices_fit(all, len as int) {
                    splices_fit_before(all, i + 1, len as int);
                }
            }
            return false;
        }
        let start: usize = (p.start as u128 + now.len() as u128 - len as u128) as usize;
        let end: usize = (p.end as u128 + now.len() as u128 - len as u128) as usize;
        let mut out: Vec<u8> = Vec::new();
        push_range(&mut out, now.as_slice(), 0, start);
        let mut text = bytes_of(p.text.as_str());
        out.append(&mut text);
        push_range(&mut out, now.as_slice(), end, now.len());
        proof {
            assert(out@ =~= spliced(bytes, all.take(i + 1)));
        }
        now = out;
        i += 1;
    }
    proof {
        assert(all.take(i as int) =~= all);
    }
    *source = now;
    true
}

/// No patches leave the file as it is.
pub proof fn no_patches_change_nothing(bytes: Seq<u8>)
    ensures
        splices_fit(seq![], bytes.len() as int),
        spliced(bytes, seq![]) == bytes,
{
}

/// The number of bytes that the patches put in.
pub open spec fn bytes_in(patches: Seq<PatchView>) -> int
    decreases patches.len(),
{
    if patches.len() == 0 {
        0
    } else {
        bytes_in(patches.drop_last()) + encode_utf8(patches.last().text).len()
    }
}

/// The number of bytes that the patches take out.
pub open spec fn bytes_out(patches: Seq<PatchView>) -> int
    decreases patches.len(),
{
    if patches.len() == 0 {
        0
    } else {
        bytes_out(patches.drop_last()) + (patches.last().end - patches.last().start)
    }
}

proof fn part_length(bytes: Seq<u8>, patches: Seq<PatchView>)
    requires
        patches_fit(patches, bytes.len() as int),
    ensures
        patched_part(bytes, patches).len() == end_of(patches) + bytes_in(patches) - bytes_out(
            patches,
        ),
    decreases patches.len(),
{
    if patches.len() > 0 {
        apart_before(patches, patches.len() - 1);
        assert(patches.take(patches.len() - 1) =~= patches.drop_last());
        part_length(bytes, patches.drop_last());
    }
}

/// The patched file is as much longer as the patches put in more bytes than
/// they take out.
pub proof fn patched_length(bytes: Seq<u8>, patches: Seq<PatchView>)
    requires
        patches_fit(patches, bytes.len() as int),
    ensures
        patched(bytes, patches).len() == bytes.len() + bytes_in(patches) - bytes_out(patches),
{
    part_length(bytes, patches);
}

/// The bytes between two patches come through: what stands `d` bytes behind the
/// end of patch `i - 1` stands `d` bytes behind the text that replaced it.
pub proof fn bytes_between_patches_stay(bytes: Seq<u8>, patches: Seq<PatchView>, i: int, d: int)
    requires
        patches_fit(patches, bytes.len() as int),
        0 <= i <= patches.len(),
        0 <= d,
        end_of(patches.take(i)) + d < (if i < patches.len() {
            patches[i].start as int
        } else {
            bytes.len() as int
        }),
    ensures
        ({
            let at = patched_part(bytes, patches.take(i)).len() + d;
            at < patched(bytes, patches).len() && patched(bytes, patches)[at] == bytes[end_of(
                patches.take(i),
            ) + d]
        }),
    decreases patches.len() - i,
{
    if i == patches.len() {
        assert(patches.take(i) =~= patches);
    } else {
        part_prefix(bytes, patches, i + 1);
        let p = patches.take(i + 1);
        assert(p.drop_last() =~= patches.take(i));
        apart_before(patches, i + 1);
        let at = patched_part(bytes, patches.take(i)).len() + d;
        assert(patched_part(bytes, p)[at] == bytes[end_of(patches.take(i)) + d]);
        assert(patched_part(bytes, patches)[at] == patched_part(bytes, p)[at]);
    }
}

proof fn part_prefix(bytes: Seq<u8>, patches: Seq<PatchView>, n: int)
    requires
        0 <= n <= patches.len(),
    ensures
        patched_part(bytes, patches.take(n)).is_prefix_of(patched_part(bytes, patches)),
    decreases patches.len(),
{
    if n == patches.len() {
        assert(patches.take(n) =~= patches);
    } else {
        part_prefix(bytes, patches.drop_last(), n);
        assert(patches.drop_last().take(n) =~= patches.take(n));
        let small = patched_part(bytes, patches.take(n));
        let big = patched_part(bytes, patches.drop_last());
        assert(small =~= big.subrange(0, small.len() as int));
        assert(small =~= patched_part(bytes, patches).subrange(0, small.len() as int));
    }
}

} // verus!
