//! Which directories are part of a source project.
use crate::text::{same, starts_with};
use vstd::prelude::*;

verus! {

/// The directory holds build artifacts.
pub open spec fn artifact_dir(name: Seq<char>) -> bool {
    name == "build"@ || name == "target"@ || "build-"@.is_prefix_of(name)
}

/// Directory names to exclude when reading a C source project: build-artifact
/// directories that are not part of the source and can go stale.
pub fn is_build_artifact_dir(name: &str) -> (r: bool)
    ensures
        r == artifact_dir(name@),
{
    same(name, "build") || same(name, "target") || starts_with(name, "build-")
}

/// The tool that reads a source project.
#[derive(Debug)]
pub struct LoadRawSource {
    pub directory: String,
}

impl LoadRawSource {
    /// Reads the project at `directory`.
    pub fn new(directory: &str) -> (r: LoadRawSource)
        ensures
            r.directory@ == directory@,
    {
        LoadRawSource { directory: directory.to_owned() }
    }
}

} // verus!
