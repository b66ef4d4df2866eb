//! Automatic fixing of Rust projects with compilation errors: compile, group
//! the errors by file, fix each file, and repeat until success or a limit.
pub mod compiler;
pub mod error_classifier;
pub mod fix_loop;
pub mod laws;
pub mod version_manager;
