//! Which files are parsed, with which arguments, and the text of an extent.
use crate::c_ast::rsm::{SourcePoint, SourceSpan, SpanView};
use crate::path::{components, components_of, has_ext, has_extension};
use crate::rust_syntax::push_range;
use crate::text::{chars_of, from_utf8_lossy, lossy_text, pieces, same};
use vstd::prelude::*;

verus! {

/// Checks if the file has a .c or .h extension, which indicates that it should
/// be parsed.
pub fn is_c_or_header(path: &str) -> (r: bool)
    ensures
        r == (has_ext(path@, "c"@) || has_ext(path@, "h"@)),
{
    has_extension(path, "c") || has_extension(path, "h")
}

/// The directory holds generated files.
pub open spec fn generated_dir(name: Seq<char>) -> bool {
    name == "CMakeFiles"@ || name == ".cache"@ || name == "build"@
}

/// A component of the path names a directory of generated files.
pub open spec fn skipped(path: Seq<char>) -> bool {
    let c = components_of(pieces(path, '/'));
    exists|i: int| 0 <= i < c.len() && generated_dir(#[trigger] c[i])
}

/// Returns true when a file path should be skipped by source parsers: it lies
/// in a `CMakeFiles`, `.cache`, or `build` directory.
pub fn should_skip_path(path: &str) -> (r: bool)
    ensures
        r == skipped(path@),
{
    let parts = components(path);
    let ghost all = parts.deep_view();
    let mut i: usize = 0;
    while i < parts.len()
        invariant
            all == parts.deep_view(),
            all == components_of(pieces(path@, '/')),
            i <= parts@.len(),
            forall|j: int| 0 <= j < i ==> !generated_dir(#[trigger] all[j]),
        decreases parts@.len() - i,
    {
        let name = parts[i].as_str();
        proof {
            assert(all[i as int] == name@);
        }
        if same(name, "CMakeFiles") || same(name, ".cache") || same(name, "build") {
            return true;
        }
        i += 1;
    }
    false
}

/// The language that a file is parsed as.
pub open spec fn language_of(path: Seq<char>) -> Seq<char> {
    if has_ext(path, "h"@) {
        "c-header"@
    } else {
        "c"@
    }
}

/// The parser arguments for a file.
pub open spec fn parse_args(src_root: Seq<char>, path: Seq<char>) -> Seq<Seq<char>> {
    seq!["-std=gnu11"@, "-I"@ + src_root + "/include"@, "-x"@, language_of(path)]
}

/// The arguments of the parser for a file of a project: the standard, the
/// directory for headers, and the language by the extension of the file.
pub fn generate_parse_args(src_root: &str, rel_file: &str) -> (r: Vec<String>)
    ensures
        r.deep_view() == parse_args(src_root@, rel_file@),
{
    let mut out: Vec<String> = Vec::new();
    out.push("-std=gnu11".to_owned());
    let mut dir = "-I".to_owned();
    dir.push_str(src_root);
    dir.push_str("/include");
    out.push(dir);
    out.push("-x".to_owned());
    if has_extension(rel_file, "h") {
        out.push("c-header".to_owned());
    } else {
        out.push("c".to_owned());
    }
    proof {
        assert(out.deep_view() =~= parse_args(src_root@, rel_file@));
    }
    out
}

/// Where an entity starts and ends, and the bytes of the file that it starts
/// in.
#[derive(Debug)]
pub struct Extent {
    pub start_path: String,
    pub start: SourcePoint,
    pub end_path: String,
    pub end: SourcePoint,
    pub bytes: Vec<u8>,
}

impl Extent {
    /// The extent lies in one file.
    pub open spec fn fits(self) -> bool {
        self.start_path@ == self.end_path@ && self.start.offset <= self.end.offset
            <= self.bytes@.len()
    }

    /// The span of the extent.
    pub open spec fn span(self) -> SpanView {
        SpanView { file: self.start_path@, start: self.start, end: self.end }
    }

    /// The text of the extent.
    pub open spec fn text(self) -> Seq<char> {
        lossy_text(self.bytes@.subrange(self.start.offset as int, self.end.offset as int))
    }

    /// The span and the text of an extent; `None` if it is invalid or spans
    /// multiple files.
    pub fn get_span_and_text(&self) -> (r: Option<(SourceSpan, String)>)
        ensures
            match r {
                Some((span, text)) => self.fits() && span.deep_view() == self.span() && text@
                    == self.text(),
                None => !self.fits(),
            },
    {
        if !same(self.start_path.as_str(), self.end_path.as_str()) {
            return None;
        }
        let start: usize = self.start.offset as usize;
        let end: usize = self.end.offset as usize;
        if start > end || end > self.bytes.len() {
            return None;
        }
        let mut part: Vec<u8> = Vec::new();
        push_range(&mut part, self.bytes.as_slice(), start, end);
        proof {
            assert(part@ =~= self.bytes@.subrange(start as int, end as int));
        }
        let text = from_utf8_lossy(part.as_slice());
        let span = SourceSpan {
            file: self.start_path.as_str().to_owned(),
            start: self.start,
            end: self.end,
        };
        Some((span, text))
    }
}

/// The path ends in `.h`, in either case.
pub open spec fn header_file(path: Seq<char>) -> bool {
    path.len() >= 2 && path[path.len() - 2] == '.' && (path.last() == 'h' || path.last() == 'H')
}

pub fn is_header_file(path: &str) -> (r: bool)
    ensures
        r == header_file(path@),
{
    let cs = chars_of(path);
    let n: usize = cs.len();
    n >= 2 && cs[n - 2] == '.' && (cs[n - 1] == 'h' || cs[n - 1] == 'H')
}

/// The lower-case letter for an ASCII capital, the character itself for any
/// other.
pub open spec fn ascii_lower(c: char) -> char {
    if 'A' <= c <= 'Z' {
        ((c as u32) + 32) as u8 as char
    } else {
        c
    }
}

/// The texts are equal up to the case of ASCII letters.
pub open spec fn same_but_case(a: Seq<char>, b: Seq<char>) -> bool {
    a.len() == b.len() && forall|i: int|
        0 <= i < a.len() ==> ascii_lower(#[trigger] a[i]) == ascii_lower(b[i])
}

fn lower(c: char) -> (r: char)
    ensures
        r == ascii_lower(c),
{
    if 'A' <= c && c <= 'Z' {
        ((c as u32) + 32) as u8 as char
    } else {
        c
    }
}

/// Whether two texts are equal up to the case of ASCII letters.
pub fn eq_ignore_ascii_case(a: &str, b: &str) -> (r: bool)
    ensures
        r == same_but_case(a@, b@),
{
    let x = chars_of(a);
    let y = chars_of(b);
    if x.len() != y.len() {
        return false;
    }
    let mut i: usize = 0;
    while i < x.len()
        invariant
            x@ == a@,
            y@ == b@,
            x@.len() == y@.len(),
            i <= x@.len(),
            forall|j: int| 0 <= j < i ==> ascii_lower(#[trigger] x@[j]) == ascii_lower(y@[j]),
        decreases x@.len() - i,
    {
        if lower(x[i]) != lower(y[i]) {
            return false;
        }
        i += 1;
    }
    true
}

} // verus!
