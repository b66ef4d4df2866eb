//! Iterative repair of a package, declaration by declaration: build it, map
//! each error to the declaration on its line, and have those rewritten.
pub mod error_classifier;
pub mod fix_llm;
pub mod laws;
pub mod repair_loop;
pub mod repair_state;
pub mod splitter;
