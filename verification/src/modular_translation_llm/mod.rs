//! Rewrites a C project declaration by declaration: types first, then the
//! signatures, then functions and globals.
pub mod clang;
pub mod laws;
pub mod recombine;
pub mod translation;
pub mod utils;
