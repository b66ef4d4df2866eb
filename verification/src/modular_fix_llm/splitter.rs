//! Splits a Rust source file into top-level declarations.
use crate::rust_syntax::{declarations_from, declarations_of, print_items, printed_items};
use vstd::prelude::*;

verus! {

/// A single top-level declaration extracted from a source file.
#[derive(Debug)]
pub struct ParsedDeclaration {
    /// Formatted source, without a trailing newline.
    pub source: String,
}

impl DeepView for ParsedDeclaration {
    type V = Seq<char>;

    open spec fn deep_view(&self) -> Seq<char> {
        self.source@
    }
}

/// Parse `source` into a list of top-level declarations.
///
/// Falls back to a single "whole file" declaration if the source cannot be
/// parsed or holds an item that has no printed form.
pub fn split_source(source: &str) -> (r: Vec<ParsedDeclaration>)
    ensures
        r.deep_view() == declarations_of(source@, printed_items(source@)),
{
    let sources = declarations_from(source, print_items(source));
    let ghost all = sources.deep_view();
    let mut out: Vec<ParsedDeclaration> = Vec::new();
    let mut i: usize = 0;
    while i < sources.len()
        invariant
            all == sources.deep_view(),
            i <= sources@.len(),
            out@.len() == i,
            forall|j: int| 0 <= j < i ==> (#[trigger] out@[j]).source@ == all[j],
        decreases sources@.len() - i,
    {
        out.push(ParsedDeclaration { source: sources[i].as_str().to_owned() });
        i += 1;
    }
    proof {
        assert(out.deep_view() =~= all);
    }
    out
}

} // verus!
