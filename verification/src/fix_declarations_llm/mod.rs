//! Repairs the declarations that have compiler errors: groups the errors by
//! declaration, asks for each, and splices the replies into the files.
pub mod attribution;
pub mod interface_ctx;
pub mod laws;
pub mod patches;
pub mod tool;
