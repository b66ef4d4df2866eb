//! Verified logic of the HARVEST C-to-Rust tool collection.
#![allow(unused_imports)]

pub mod agentic;
pub mod auto_fix;
pub mod build_config;
pub mod build_project_spec;
pub mod c_ast;
pub mod c_build;
pub mod cargo_output;
pub mod cargo_toml;
pub mod clippy_lint;
pub mod compilation_unit_to_rust_llm;
pub mod declarations;
pub mod diagnostic_attributor;
pub mod emit_build_features;
pub mod fix_build_check;
pub mod fix_declarations_llm;
pub mod fs;
pub mod generate_difftest_suite;
pub mod generate_test_suite;
pub mod json;
pub mod load_raw_source;
pub mod modular_fix_llm;
pub mod modular_translation_llm;
pub mod names;
pub mod normalize_cargo;
pub mod order;
pub mod package;
pub mod package_laws;
pub mod path;
pub mod quantize_rust_spans;
pub mod raw_source_to_cargo_llm;
pub mod run_difftest;
pub mod rust_syntax;
pub mod rust_syntax_laws;
pub mod seqs;
pub mod split_and_format;
pub mod text;
pub mod text_laws;
pub mod tool_laws;
pub mod translate_agentic;
pub mod try_cargo_build;
