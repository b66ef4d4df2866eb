//! The files of a project, held in memory.
use crate::names::{NameMap, NameSet};
use crate::text::{same, starts_with};
use vstd::prelude::*;

verus! {

/// A directory tree: the contents of each file under its project-relative
/// path.
pub struct RawDir {
    pub files: NameMap<Vec<u8>>,
}

impl View for RawDir {
    type V = Map<Seq<char>, Seq<u8>>;

    open spec fn view(&self) -> Map<Seq<char>, Seq<u8>> {
        self.files@
    }
}

impl RawDir {
    /// The tree without files.
    pub fn new() -> (r: RawDir)
        ensures
            r@ == Map::<Seq<char>, Seq<u8>>::empty(),
    {
        RawDir { files: NameMap::new() }
    }

    /// The contents of the file at `path`.
    pub fn get_file(&self, path: &str) -> (r: Option<&Vec<u8>>)
        ensures
            match r {
                Some(bytes) => self@.dom().contains(path@) && bytes@ == self@[path@],
                None => !self@.dom().contains(path@),
            },
    {
        match self.files.get(path) {
            Some(bytes) => {
                proof {
                    assert(bytes.deep_view() =~= bytes@);
                }
                Some(bytes)
            },
            None => None,
        }
    }

    /// Stores `bytes` at `path`, in place of what was there.
    pub fn set_file(&mut self, path: &str, bytes: Vec<u8>)
        ensures
            final(self)@ == old(self)@.insert(path@, bytes@),
    {
        proof {
            assert(bytes.deep_view() =~= bytes@);
        }
        self.files.insert(path, bytes);
    }

    /// The paths of all files.
    pub fn file_paths(&self) -> (r: NameSet)
        ensures
            r@ == self@.dom(),
    {
        self.files.keys()
    }
}

/// The path is one of `files` or starts with one of `prefixes`.
pub open spec fn path_listed(path: Seq<char>, files: Seq<Seq<char>>, prefixes: Seq<Seq<char>>) -> bool {
    files.contains(path) || exists|i: int|
        0 <= i < prefixes.len() && (#[trigger] prefixes[i]).is_prefix_of(path)
}

/// Whether the path is one of `files` or starts with one of `prefixes`.
pub fn lists_path(path: &str, files: &Vec<String>, prefixes: &Vec<String>) -> (r: bool)
    ensures
        r == path_listed(path@, files.deep_view(), prefixes.deep_view()),
{
    let ghost all = files.deep_view();
    let mut i: usize = 0;
    while i < files.len()
        invariant
            all == files.deep_view(),
            i <= files@.len(),
            forall|j: int| 0 <= j < i ==> all[j] != path@,
        decreases files@.len() - i,
    {
        if same(files[i].as_str(), path) {
            proof {
                assert(all[i as int] == path@);
            }
            return true;
        }
        i += 1;
    }
    let ghost starts = prefixes.deep_view();
    let mut k: usize = 0;
    while k < prefixes.len()
        invariant
            starts == prefixes.deep_view(),
            k <= prefixes@.len(),
            forall|j: int| 0 <= j < k ==> !(#[trigger] starts[j]).is_prefix_of(path@),
        decreases prefixes@.len() - k,
    {
        if starts_with(path, prefixes[k].as_str()) {
            proof {
                assert(starts[k as int].is_prefix_of(path@));
            }
            return true;
        }
        k += 1;
    }
    false
}

/// The tree without the listed paths.
pub open spec fn files_without(
    dir: Map<Seq<char>, Seq<u8>>,
    files: Seq<Seq<char>>,
    prefixes: Seq<Seq<char>>,
) -> Map<Seq<char>, Seq<u8>> {
    Map::new(
        |p: Seq<char>| dir.dom().contains(p) && !path_listed(p, files, prefixes),
        |p: Seq<char>| dir[p],
    )
}

impl RawDir {
    /// A copy of the tree without the listed files and everything under the
    /// listed prefixes.
    pub fn without(&self, files: &Vec<String>, prefixes: &Vec<String>) -> (r: RawDir)
        ensures
            r@ == files_without(self@, files.deep_view(), prefixes.deep_view()),
    {
        let paths = self.file_paths();
        let ghost all = paths.names.deep_view();
        let mut out = RawDir::new();
        let mut i: usize = 0;
        while i < paths.names.len()
            invariant
                all == paths.names.deep_view(),
                all.to_set() == self@.dom(),
                i <= paths.names@.len(),
                forall|p: Seq<char>|
                    #[trigger] out@.dom().contains(p) == (all.take(i as int).contains(p)
                        && !path_listed(p, files.deep_view(), prefixes.deep_view())),
                forall|p: Seq<char>| #[trigger] out@.dom().contains(p) ==> out@[p] == self@[p],
            decreases paths.names@.len() - i,
        {
            let path = paths.names[i].as_str();
            let ghost had = all.take(i as int);
            let ghost now = all.take(i + 1);
            proof {
                assert(all[i as int] == path@);
                assert(all.to_set().contains(path@));
                seen_one_more(all, i as int);
            }
            if !lists_path(path, files, prefixes) {
                match self.get_file(path) {
                    Some(bytes) => {
                        out.set_file(path, copy_bytes(bytes));
                    },
                    None => {},
                }
            }
            i += 1;
        }
        proof {
            assert(all.take(i as int) =~= all);
            assert forall|p: Seq<char>| #[trigger] all.contains(p) == self@.dom().contains(p) by {
                assert(all.to_set().contains(p) == all.contains(p));
            }
            assert(out@ =~= files_without(self@, files.deep_view(), prefixes.deep_view()));
        }
        out
    }

    /// A copy of the tree.
    pub fn copied(&self) -> (r: RawDir)
        ensures
            r@ == self@,
    {
        let none: Vec<String> = Vec::new();
        let r = self.without(&none, &none);
        proof {
            assert forall|p: Seq<char>| !path_listed(p, none.deep_view(), none.deep_view()) by {}
            assert(r@ =~= self@);
        }
        r
    }
}

/// A name is among the first `i + 1` names if it is among the first `i` or is
/// the next.
pub proof fn seen_one_more(all: Seq<Seq<char>>, i: int)
    requires
        0 <= i < all.len(),
    ensures
        forall|p: Seq<char>|
            #[trigger] all.take(i + 1).contains(p) == (all.take(i).contains(p) || p == all[i]),
{
    let had = all.take(i);
    let now = all.take(i + 1);
    assert(now =~= had.push(all[i]));
    assert forall|p: Seq<char>| #[trigger] now.contains(p) == (had.contains(p) || p == all[i]) by {
        assert(now[i] == all[i]);
        if had.contains(p) {
            let j = choose|j: int| 0 <= j < had.len() && had[j] == p;
            assert(now[j] == p);
        }
        if now.contains(p) && p != all[i] {
            let j = choose|j: int| 0 <= j < now.len() && now[j] == p;
            assert(had[j] == p);
        }
    }
}

/// A copy of a file.
pub fn copy_bytes(bytes: &Vec<u8>) -> (r: Vec<u8>)
    ensures
        r@ == bytes@,
{
    let mut out: Vec<u8> = Vec::new();
    let mut i: usize = 0;
    while i < bytes.len()
        invariant
            i <= bytes@.len(),
            out@ == bytes@.take(i as int),
        decreases bytes@.len() - i,
    {
        out.push(bytes[i]);
        i += 1;
    }
    proof {
        assert(bytes@.take(i as int) =~= bytes@);
    }
    out
}

} // verus!
