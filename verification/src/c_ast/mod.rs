//! The top-level entities of a C project, as libclang finds them.
pub mod annotations;
pub mod ast;
pub mod extract;
pub mod laws;
pub mod rsm;
pub mod utils;
pub mod variants;
