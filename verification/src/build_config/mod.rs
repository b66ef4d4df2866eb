//! Interprets CMake build scripts and the values declared in a
//! `configuration.json` as a [`ir::BuildConfigIR`].
pub mod ir;
pub mod lexer;
pub mod variables;
pub mod define_laws;
pub mod handlers;
pub mod lexer_laws;
pub mod variable_laws;
pub mod scan_laws;
pub mod scanner;
pub mod target_laws;
pub mod prompt_ext;
pub mod laws;

use crate::build_config::ir::BuildConfigIR;
use crate::build_config::scanner::{project_configuration, scan, scanned};
use crate::fs::RawDir;
use vstd::prelude::*;

verus! {

/// The tool that scans the build scripts of a project.
pub struct BuildConfig;

impl BuildConfig {
    pub fn run(&self, source: &RawDir) -> (r: BuildConfigIR)
        ensures
            r.deep_view() == scanned(source@, project_configuration(source@)),
    {
        scan(source)
    }
}

} // verus!
