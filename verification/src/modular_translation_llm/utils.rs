//! Utility functions for working with source locations and ranges.
use crate::fs::RawDir;
use crate::rust_syntax::push_range;
use crate::text::{read_utf8, same, utf8_text};
use vstd::prelude::*;

verus! {

/// Where a token is spelled.
#[derive(Debug)]
pub struct SpellingLoc {
    pub file: String,
    pub offset: usize,
    pub tok_len: usize,
}

/// A location; one without a spelling stands for nothing in a file.
#[derive(Debug)]
pub struct SourceLocation {
    pub spelling_loc: Option<SpellingLoc>,
}

/// A range of the source, from its first token to its last.
#[derive(Debug)]
pub struct SourceRange {
    pub begin: SourceLocation,
    pub end: SourceLocation,
}

/// Why the text of a range cannot be read.
#[derive(Debug, Clone, Copy, PartialEq, Eq, Structural)]
pub enum RangeError {
    /// The first token has no spelling.
    NoBegin,
    /// The last token has no spelling.
    NoEnd,
    /// The range spans multiple files.
    ManyFiles,
    /// The file is not part of the project.
    NoFile,
    /// The range exceeds the file.
    TooLong,
    /// The text is not UTF-8.
    NotUtf8,
}

/// Extracts the file path from a location.
pub fn get_file_from_location(loc: &Option<SourceLocation>) -> (r: Option<String>)
    ensures
        r.deep_view() == match loc {
            Some(SourceLocation { spelling_loc: Some(s) }) => Some(s.file@),
            _ => None,
        },
{
    match loc {
        Some(l) => match &l.spelling_loc {
            Some(s) => Some(s.file.as_str().to_owned()),
            None => None,
        },
        None => None,
    }
}

impl SourceRange {
    /// The first token comes no later than the end of the last, which the
    /// machine can count.
    pub open spec fn forward(self) -> bool {
        match (self.begin.spelling_loc, self.end.spelling_loc) {
            (Some(b), Some(e)) => b.offset <= e.offset + e.tok_len <= usize::MAX,
            _ => true,
        }
    }
}

/// The text of a range, from the first character of its first token to the last
/// character of its last; or the first thing that is wrong with it.
pub open spec fn text_at_range(range: SourceRange, dir: Map<Seq<char>, Seq<u8>>) -> Result<
    Seq<char>,
    RangeError,
> {
    match (range.begin.spelling_loc, range.end.spelling_loc) {
        (None, _) => Err(RangeError::NoBegin),
        (_, None) => Err(RangeError::NoEnd),
        (Some(b), Some(e)) => if b.file@ != e.file@ {
            Err(RangeError::ManyFiles)
        } else if !dir.dom().contains(b.file@) {
            Err(RangeError::NoFile)
        } else if e.offset + e.tok_len > dir[b.file@].len() {
            Err(RangeError::TooLong)
        } else {
            match utf8_text(dir[b.file@].subrange(b.offset as int, e.offset + e.tok_len)) {
                Some(text) => Ok(text),
                None => Err(RangeError::NotUtf8),
            }
        },
    }
}

/// The view of the text of a range.
pub open spec fn range_view(r: Result<String, RangeError>) -> Result<Seq<char>, RangeError> {
    match r {
        Ok(s) => Ok(s@),
        Err(e) => Err(e),
    }
}

/// Reads the text of a source file between the first character of the first
/// token of a range and the last character of its last.
pub fn read_source_at_range(range: &SourceRange, source: &RawDir) -> (r: Result<
    String,
    RangeError,
>)
    requires
        range.forward(),
    ensures
        range_view(r) == text_at_range(*range, source@),
{
    let begin = match &range.begin.spelling_loc {
        Some(s) => s,
        None => {
            return Err(RangeError::NoBegin);
        },
    };
    let end = match &range.end.spelling_loc {
        Some(s) => s,
        None => {
            return Err(RangeError::NoEnd);
        },
    };
    if !same(begin.file.as_str(), end.file.as_str()) {
        return Err(RangeError::ManyFiles);
    }
    let bytes = match source.get_file(begin.file.as_str()) {
        Some(b) => b,
        None => {
            return Err(RangeError::NoFile);
        },
    };
    let stop: usize = end.offset + end.tok_len;
    if stop > bytes.len() {
        return Err(RangeError::TooLong);
    }
    let mut part: Vec<u8> = Vec::new();
    push_range(&mut part, bytes.as_slice(), begin.offset, stop);
    proof {
        assert(part@ =~= bytes@.subrange(begin.offset as int, stop as int));
    }
    match read_utf8(part.as_slice()) {
        Some(text) => Ok(text),
        None => Err(RangeError::NotUtf8),
    }
}

} // verus!
