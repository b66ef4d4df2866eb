//! The interface of a package: its declarations with stubbed bodies.
use crate::fix_declarations_llm::attribution::ItemRanges;
use crate::fs::RawDir;
use crate::order::{is_listing, list_names, listing};
use crate::rust_syntax::{
    body_ranges, collect_ranges, parse_items, parsed_items, push_range, stub_bodies, stubbed,
    ItemParts, ItemView, STUB,
};
use crate::text::{join, joined, read_utf8, trim_newlines, utf8_text, without_newlines};
use vstd::prelude::*;

verus! {

/// The source once for each item in it, with the bodies of that item stubbed;
/// `None` if the bodies of an item do not lie in the source.
pub open spec fn item_stubs(source: Seq<u8>, items: Seq<ItemView>) -> Option<
    Seq<Seq<char>>,
>
    decreases items.len(),
{
    if items.len() == 0 {
        Some(seq![])
    } else {
        match (item_stubs(source, items.drop_last()), stubbed(source, body_ranges(items.last()), STUB@)) {
            (Some(rest), Some(text)) => Some(rest.push(text)),
            _ => None,
        }
    }
}

/// The stub of a source whose text is `text` and whose items are `parsed`; one
/// that does not parse is kept as it is.
pub open spec fn stub_with(
    source: Seq<u8>,
    text: Seq<char>,
    parsed: Option<Seq<ItemView>>,
) -> Option<Seq<char>> {
    match parsed {
        None => Some(without_newlines(text)),
        Some(items) => match item_stubs(source, items) {
            Some(stubs) => Some(joined(stubs, "\n"@)),
            None => None,
        },
    }
}

/// The stub of a declaration; `None` if it is not UTF-8.
pub open spec fn stub_of_bytes(source: Seq<u8>) -> Option<Seq<char>> {
    match utf8_text(source) {
        None => None,
        Some(text) => stub_with(source, text, parsed_items(text)),
    }
}

proof fn stubs_fail(source: Seq<u8>, items: Seq<ItemView>, n: int)
    requires
        0 <= n <= items.len(),
        item_stubs(source, items.take(n)) is None,
    ensures
        item_stubs(source, items) is None,
    decreases items.len() - n,
{
    if n < items.len() {
        assert(items.take(n + 1).drop_last() =~= items.take(n));
        stubs_fail(source, items, n + 1);
    } else {
        assert(items.take(n) =~= items);
    }
}

/// Stubs the bodies of a source with the given items.
pub fn stub_located(
    source: &[u8],
    text: &str,
    parsed: Option<Vec<ItemParts>>,
) -> (r: Option<String>)
    ensures
        r.deep_view() == stub_with(source@, text@, parsed.deep_view()),
{
    match parsed {
        None => Some(trim_newlines(text).to_owned()),
        Some(items) => {
            let ghost all = items.deep_view();
            let mut stubs: Vec<String> = Vec::new();
            let mut i: usize = 0;
            proof {
                assert(stubs.deep_view() =~= seq![]);
            }
            while i < items.len()
                invariant
                    all == items.deep_view(),
                    parsed.deep_view() == Some(all),
                    i <= items@.len(),
                    item_stubs(source@, all.take(i as int)) == Some(stubs.deep_view()),
                decreases items@.len() - i,
            {
                let ghost before = stubs.deep_view();
                let ranges = collect_ranges(&items[i]);
                proof {
                    assert(all.take(i + 1).drop_last() =~= all.take(i as int));
                    assert(all.take(i + 1).last() == items@[i as int].deep_view());
                }
                match stub_bodies(source, &ranges, STUB) {
                    Some(stub) => {
                        stubs.push(stub);
                        proof {
                            assert(stubs.deep_view() =~= before.push(stub@));
                        }
                    },
                    None => {
                        proof {
                            stubs_fail(source@, all, i + 1);
                        }
                        return None;
                    },
                }
                i += 1;
            }
            proof {
                assert(all.take(i as int) =~= all);
                assert(Seq::new(stubs@.len(), |k: int| stubs@[k]@) =~= stubs.deep_view());
            }
            Some(join(stubs.as_slice(), "\n"))
        },
    }
}

/// A declaration with its function bodies replaced by `{ todo!() }`.
pub fn stub_declaration(source: &[u8]) -> (r: Option<String>)
    ensures
        r.deep_view() == stub_of_bytes(source@),
{
    match read_utf8(source) {
        None => None,
        Some(text) => stub_located(source, text.as_str(), parse_items(text.as_str())),
    }
}

/// Every range lies in a file of `len` bytes.
pub open spec fn ranges_inside(ranges: Seq<(usize, usize)>, len: int) -> bool {
    forall|i: int| 0 <= i < ranges.len() ==> (#[trigger] ranges[i]).0 <= ranges[i].1 <= len
}

/// Every item of a file of the package lies in it.
pub open spec fn items_inside(
    items: Map<Seq<char>, Seq<(usize, usize)>>,
    dir: Map<Seq<char>, Seq<u8>>,
) -> bool {
    forall|p: Seq<char>|
        #![trigger items.dom().contains(p)]
        items.dom().contains(p) && dir.dom().contains(p) ==> ranges_inside(
            items[p],
            dir[p].len() as int,
        )
}

/// The stubs of the items at `ranges` of a file, without those that are not
/// UTF-8.
pub open spec fn range_stubs(source: Seq<u8>, ranges: Seq<(usize, usize)>) -> Seq<Seq<char>>
    decreases ranges.len(),
{
    if ranges.len() == 0 {
        seq![]
    } else {
        let rest = range_stubs(source, ranges.drop_last());
        let (start, end) = ranges.last();
        match stub_of_bytes(source.subrange(start as int, end as int)) {
            Some(stub) => rest.push(stub),
            None => rest,
        }
    }
}

/// The stubs of all items of these files, without the files that the package
/// does not have.
pub open spec fn file_stubs(
    paths: Seq<Seq<char>>,
    items: Map<Seq<char>, Seq<(usize, usize)>>,
    dir: Map<Seq<char>, Seq<u8>>,
) -> Seq<Seq<char>>
    decreases paths.len(),
{
    if paths.len() == 0 {
        seq![]
    } else {
        let rest = file_stubs(paths.drop_last(), items, dir);
        let p = paths.last();
        if dir.dom().contains(p) {
            rest + range_stubs(dir[p], items[p])
        } else {
            rest
        }
    }
}

/// The interface of a package: the stubs of its items, file by file in the
/// order of the paths.
pub open spec fn interface_of(
    items: Map<Seq<char>, Seq<(usize, usize)>>,
    dir: Map<Seq<char>, Seq<u8>>,
) -> Seq<char> {
    joined(file_stubs(listing(items.dom()), items, dir), "\n\n"@)
}

/// The bytes of a range.
pub fn slice_of(bytes: &Vec<u8>, start: usize, end: usize) -> (r: Vec<u8>)
    requires
        start <= end <= bytes@.len(),
    ensures
        r@ == bytes@.subrange(start as int, end as int),
{
    let mut out: Vec<u8> = Vec::new();
    push_range(&mut out, bytes.as_slice(), start, end);
    proof {
        assert(out@ =~= bytes@.subrange(start as int, end as int));
    }
    out
}

/// Whether every item of a file of the package lies in it.
pub fn check_items(items: &ItemRanges, package: &RawDir) -> (r: bool)
    ensures
        r == items_inside(items@, package@),
{
    let paths = list_names(&items.keys());
    let ghost all = paths.deep_view();
    let mut i: usize = 0;
    while i < paths.len()
        invariant
            all == paths.deep_view(),
            is_listing(items@.dom(), all),
            i <= paths@.len(),
            forall|k: int|
                0 <= k < i && package@.dom().contains(#[trigger] all[k]) ==> ranges_inside(
                    items@[all[k]],
                    package@[all[k]].len() as int,
                ),
        decreases paths@.len() - i,
    {
        let path = paths[i].as_str();
        proof {
            assert(all[i as int] == path@);
            assert(all.contains(all[i as int]));
        }
        match (items.get(path), package.get_file(path)) {
            (Some(ranges), Some(bytes)) => {
                proof {
                    assert(ranges.deep_view() =~= ranges@);
                }
                let mut j: usize = 0;
                while j < ranges.len()
                    invariant
                        ranges@ == items@[path@],
                        items@.dom().contains(path@),
                        package@.dom().contains(path@),
                        bytes@ == package@[path@],
                        j <= ranges@.len(),
                        forall|k: int|
                            0 <= k < j ==> (#[trigger] ranges@[k]).0 <= ranges@[k].1
                                <= bytes@.len(),
                    decreases ranges@.len() - j,
                {
                    let (start, end) = ranges[j];
                    if !(start <= end && end <= bytes.len()) {
                        proof {
                            assert(items@[path@][j as int] == ranges@[j as int]);
                        }
                        return false;
                    }
                    j += 1;
                }
            },
            _ => {},
        }
        i += 1;
    }
    proof {
        assert forall|p: Seq<char>|
            #![trigger items@.dom().contains(p)]
            items@.dom().contains(p) && package@.dom().contains(p) implies ranges_inside(
            items@[p],
            package@[p].len() as int,
        ) by {
            assert(all.contains(p));
            let k = choose|k: int| 0 <= k < all.len() && all[k] == p;
            assert(package@.dom().contains(all[k]));
        }
    }
    true
}

/// The declarations of a package with stubbed bodies, to guide the repairs.
pub fn get_interface_ctx(items: &ItemRanges, package: &RawDir) -> (r: String)
    requires
        items_inside(items@, package@),
    ensures
        r@ == interface_of(items@, package@),
{
    let paths = list_names(&items.keys());
    let ghost all = paths.deep_view();
    let mut stubs: Vec<String> = Vec::new();
    let mut i: usize = 0;
    proof {
        assert(stubs.deep_view() =~= file_stubs(all.take(0), items@, package@));
    }
    while i < paths.len()
        invariant
            all == paths.deep_view(),
            is_listing(items@.dom(), all),
            items_inside(items@, package@),
            i <= paths@.len(),
            stubs.deep_view() == file_stubs(all.take(i as int), items@, package@),
        decreases paths@.len() - i,
    {
        let path = paths[i].as_str();
        let ghost before = stubs.deep_view();
        proof {
            assert(all[i as int] == path@);
            assert(all.contains(all[i as int]));
            assert(all.take(i + 1).drop_last() =~= all.take(i as int));
            assert(all.take(i + 1).last() == path@);
        }
        match (items.get(path), package.get_file(path)) {
            (Some(ranges), Some(bytes)) => {
                let ghost in_file = ranges@;
                proof {
                    assert(ranges.deep_view() =~= ranges@);
                }
                let mut j: usize = 0;
                proof {
                    assert(stubs.deep_view() =~= before + range_stubs(bytes@, in_file.take(0)));
                }
                while j < ranges.len()
                    invariant
                        items_inside(items@, package@),
                        in_file == ranges@,
                        in_file == items@[path@],
                        items@.dom().contains(path@),
                        package@.dom().contains(path@),
                        bytes@ == package@[path@],
                        j <= in_file.len(),
                        stubs.deep_view() == before + range_stubs(bytes@, in_file.take(j as int)),
                    decreases in_file.len() - j,
                {
                    let ghost so_far = stubs.deep_view();
                    let (start, end) = ranges[j];
                    proof {
                        assert(in_file.take(j + 1).drop_last() =~= in_file.take(j as int));
                        assert(ranges_inside(items@[path@], package@[path@].len() as int));
                    }
                    match stub_declaration(slice_of(bytes, start, end).as_slice()) {
                        Some(stub) => {
                            stubs.push(stub);
                            proof {
                                assert(stubs.deep_view() =~= so_far.push(stub@));
                                assert(stubs.deep_view() =~= before + range_stubs(
                                    bytes@,
                                    in_file.take(j + 1),
                                ));
                            }
                        },
                        None => {},
                    }
                    j += 1;
                }
                proof {
                    assert(in_file.take(j as int) =~= in_file);
                }
            },
            _ => {},
        }
        i += 1;
    }
    proof {
        assert(all.take(i as int) =~= all);
        assert(Seq::new(stubs@.len(), |k: int| stubs@[k]@) =~= stubs.deep_view());
    }
    join(stubs.as_slice(), "\n\n")
}

} // verus!
