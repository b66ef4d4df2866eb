//! A generated C test suite, and what is sent to have it generated.
use crate::fs::RawDir;
use crate::order::{is_listing, list_names, listing};
use crate::text::{from_utf8_lossy, lossy_text};
use vstd::prelude::*;

verus! {

/// A generated C test suite that exercises the public API of the C library.
#[derive(Debug)]
pub struct TestSuite {
    pub source: String,
}

impl TestSuite {
    /// The suite as text.
    pub fn describe(&self) -> (r: String)
        ensures
            r@ == self.source@,
    {
        self.source.as_str().to_owned()
    }
}

/// The path and the text of every file, in the order of the paths.
pub open spec fn files_as_text(dir: Map<Seq<char>, Seq<u8>>) -> Seq<(Seq<char>, Seq<char>)> {
    listing(dir.dom()).map_values(|p: Seq<char>| (p, lossy_text(dir[p])))
}

/// The path and the text of every file of a project, in the order of the paths.
pub fn source_texts(dir: &RawDir) -> (r: Vec<(String, String)>)
    ensures
        r.deep_view() == files_as_text(dir@),
        is_listing(dir@.dom(), listing(dir@.dom())),
{
    let paths = list_names(&dir.file_paths());
    let ghost all = paths.deep_view();
    let ghost f = |p: Seq<char>| (p, lossy_text(dir@[p]));
    let mut out: Vec<(String, String)> = Vec::new();
    let mut i: usize = 0;
    proof {
        assert(out.deep_view() =~= all.take(0).map_values(f));
    }
    while i < paths.len()
        invariant
            all == paths.deep_view(),
            f == (|p: Seq<char>| (p, lossy_text(dir@[p]))),
            is_listing(dir@.dom(), all),
            i <= paths@.len(),
            out.deep_view() == all.take(i as int).map_values(f),
        decreases paths@.len() - i,
    {
        let ghost before = out.deep_view();
        proof {
            assert(all[i as int] == paths@[i as int]@);
            assert(all.contains(all[i as int]));
        }
        match dir.get_file(paths[i].as_str()) {
            Some(bytes) => {
                let one = (paths[i].as_str().to_owned(), from_utf8_lossy(bytes.as_slice()));
                out.push(one);
                proof {
                    assert(out.deep_view() =~= before.push(one.deep_view()));
                    assert(all.take(i + 1).map_values(f) =~= before.push(one.deep_view()));
                }
            },
            None => {},
        }
        i += 1;
    }
    proof {
        assert(all.take(i as int) =~= all);
    }
    out
}

/// The tool that has a test suite generated.
pub struct GenerateTestSuite;

impl GenerateTestSuite {
    /// What comes with the request.
    pub fn request(&self) -> (r: &'static str)
        ensures
            r@ == "Generate a comprehensive test suite for this C library:"@,
    {
        "Generate a comprehensive test suite for this C library:"
    }
}

} // verus!
