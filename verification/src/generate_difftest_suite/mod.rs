//! Differential tests of a C library against its Rust counterpart.
pub mod generators;
pub mod laws;
pub mod suite_laws;
pub mod suite;
pub mod types;
