//! The two files of a Cargo package that the repair tools work on.
use crate::fs::RawDir;
use crate::text::{read_utf8, utf8_text};
use vstd::prelude::*;

verus! {

/// Why a package cannot be worked on.
#[derive(Debug, Clone, Copy, PartialEq, Eq, Structural)]
pub enum PackageError {
    /// Neither `src/main.rs` nor `src/lib.rs` is there.
    NoSource,
    /// `Cargo.toml` is missing.
    NoManifest,
    /// `Cargo.toml` or the source is not UTF-8.
    NotUtf8,
}

/// The source file of a package, its text, and the manifest.
#[derive(Debug)]
pub struct PackageSource {
    /// `"src/main.rs"` or `"src/lib.rs"`.
    pub source_file_name: String,
    pub source: String,
    pub cargo_toml: String,
}

pub ghost struct PackageSourceView {
    pub source_file_name: Seq<char>,
    pub source: Seq<char>,
    pub cargo_toml: Seq<char>,
}

impl DeepView for PackageSource {
    type V = PackageSourceView;

    open spec fn deep_view(&self) -> PackageSourceView {
        PackageSourceView {
            source_file_name: self.source_file_name@,
            source: self.source@,
            cargo_toml: self.cargo_toml@,
        }
    }
}

/// The source file of a package: `src/main.rs` before `src/lib.rs`.
pub open spec fn source_name(dir: Map<Seq<char>, Seq<u8>>) -> Option<Seq<char>> {
    if dir.dom().contains("src/main.rs"@) {
        Some("src/main.rs"@)
    } else if dir.dom().contains("src/lib.rs"@) {
        Some("src/lib.rs"@)
    } else {
        None
    }
}

/// What a package holds, or the first thing that is wrong with it.
pub open spec fn package_source(dir: Map<Seq<char>, Seq<u8>>) -> Result<
    PackageSourceView,
    PackageError,
> {
    match source_name(dir) {
        None => Err(PackageError::NoSource),
        Some(name) => if !dir.dom().contains("Cargo.toml"@) {
            Err(PackageError::NoManifest)
        } else {
            match (utf8_text(dir["Cargo.toml"@]), utf8_text(dir[name])) {
                (Some(cargo_toml), Some(source)) => Ok(
                    PackageSourceView { source_file_name: name, source, cargo_toml },
                ),
                _ => Err(PackageError::NotUtf8),
            }
        },
    }
}

/// The view of a result that carries a package error.
pub open spec fn result_view<T: DeepView>(r: Result<T, PackageError>) -> Result<
    T::V,
    PackageError,
> {
    match r {
        Ok(v) => Ok(v.deep_view()),
        Err(e) => Err(e),
    }
}

/// Reads the source file and the manifest of a package.
pub fn read_package(dir: &RawDir) -> (r: Result<PackageSource, PackageError>)
    ensures
        result_view(r) == package_source(dir@),
{
    let (name, bytes): (&str, &Vec<u8>) = match dir.get_file("src/main.rs") {
        Some(b) => ("src/main.rs", b),
        None => match dir.get_file("src/lib.rs") {
            Some(b) => ("src/lib.rs", b),
            None => {
                return Err(PackageError::NoSource);
            },
        },
    };
    let manifest = match dir.get_file("Cargo.toml") {
        Some(b) => b,
        None => {
            return Err(PackageError::NoManifest);
        },
    };
    match (read_utf8(manifest.as_slice()), read_utf8(bytes.as_slice())) {
        (Some(cargo_toml), Some(source)) => Ok(
            PackageSource { source_file_name: name.to_owned(), source, cargo_toml },
        ),
        _ => Err(PackageError::NotUtf8),
    }
}

} // verus!
