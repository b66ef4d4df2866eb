//! Splits the source of a Cargo package into top-level declarations, each
//! formatted, and computes the assembled source and the line index that the
//! fix loop depends on.
use crate::declarations::{
    assemble, assembled, index_in_text, index_of, lines_fit,
};
use crate::fs::RawDir;
use crate::package::{package_source, read_package, PackageError};
use crate::rust_syntax::{declarations_from, declarations_of, print_items, printed_items};
use crate::text::{bytes_of, decimal, decimal_of};
use vstd::prelude::*;

verus! {

/// A Cargo project decomposed into individually-addressable top-level
/// declarations.
#[derive(Debug)]
pub struct SplitPackage {
    /// Each top-level declaration as a canonical string, ordered exactly as in
    /// the original source file.
    pub declarations: Vec<String>,
    /// Full contents of `Cargo.toml`.
    pub cargo_toml: String,
    /// Relative path of the source file: `"src/main.rs"` or `"src/lib.rs"`.
    pub source_file_name: String,
    /// The declarations joined by blank lines. Exactly this text is compiled,
    /// so the line index stays valid throughout the fix loop.
    pub assembled_source: String,
    /// `(start_line, end_line, decl_idx)`, 1-indexed. Covers every declaration;
    /// separator lines between declarations are not covered.
    pub line_index: Vec<(usize, usize, usize)>,
}

impl SplitPackage {
    /// The derived fields are those of the declarations.
    pub open spec fn wf(&self) -> bool {
        &&& lines_fit(self.declarations.deep_view())
        &&& self.assembled_source@ == assembled(self.declarations.deep_view())
        &&& self.line_index@ == index_of(self.declarations.deep_view())
    }

    /// Construct a `SplitPackage` from a list of declaration strings, computing
    /// `assembled_source` and `line_index` automatically.
    pub fn from_declarations(
        declarations: Vec<String>,
        cargo_toml: String,
        source_file_name: String,
    ) -> (r: SplitPackage)
        ensures
            r.wf(),
            r.declarations.deep_view() == declarations.deep_view(),
            r.cargo_toml@ == cargo_toml@,
            r.source_file_name@ == source_file_name@,
    {
        let assembled_source = assemble(&declarations);
        let line_index = index_in_text(&declarations, assembled_source.as_str());
        SplitPackage { declarations, cargo_toml, source_file_name, assembled_source, line_index }
    }

    /// The files of the package as a compilable Cargo project layout.
    pub fn files(&self) -> (r: RawDir)
        ensures
            r@ == Map::<Seq<char>, Seq<u8>>::empty().insert(
                "Cargo.toml"@,
                vstd::utf8::encode_utf8(self.cargo_toml@),
            ).insert(
                self.source_file_name@,
                vstd::utf8::encode_utf8(self.assembled_source@),
            ),
    {
        let mut dir = RawDir::new();
        dir.set_file("Cargo.toml", bytes_of(self.cargo_toml.as_str()));
        dir.set_file(self.source_file_name.as_str(), bytes_of(self.assembled_source.as_str()));
        dir
    }

    /// A description of the package: a heading, then the source.
    pub fn describe(&self) -> (r: String)
        ensures
            r@ == "SplitPackage ("@ + decimal_of(self.declarations@.len())
                + " declarations, source: "@ + self.source_file_name@ + "):\n"@
                + self.assembled_source@,
    {
        let mut out = "SplitPackage (".to_owned();
        out.push_str(decimal(self.declarations.len()).as_str());
        out.push_str(" declarations, source: ");
        out.push_str(self.source_file_name.as_str());
        out.push_str("):\n");
        out.push_str(self.assembled_source.as_str());
        out
    }
}

/// Split `source` into top-level declaration strings, each formatted.
///
/// Falls back to a single "whole-file" declaration if the source does not parse
/// or holds an item that has no printed form.
pub fn split_source(source: &str) -> (r: Vec<String>)
    ensures
        r.deep_view() == declarations_of(source@, printed_items(source@)),
{
    declarations_from(source, print_items(source))
}

/// Converts a Cargo package into a [`SplitPackage`].
pub struct SplitAndFormat;

impl SplitAndFormat {
    /// Splits the source file of a package and computes its line index.
    pub fn run(&self, package: &RawDir) -> (r: Result<SplitPackage, PackageError>)
        ensures
            match package_source(package@) {
                Err(e) => r == Err::<SplitPackage, PackageError>(e),
                Ok(p) => {
                    r matches Ok(split) && split.wf() && split.declarations.deep_view()
                        == declarations_of(p.source, printed_items(p.source))
                        && split.cargo_toml@ == p.cargo_toml && split.source_file_name@
                        == p.source_file_name
                },
            },
    {
        let p = match read_package(package) {
            Ok(p) => p,
            Err(e) => {
                return Err(e);
            },
        };
        let declarations = split_source(p.source.as_str());
        Ok(SplitPackage::from_declarations(declarations, p.cargo_toml, p.source_file_name))
    }
}

} // verus!
