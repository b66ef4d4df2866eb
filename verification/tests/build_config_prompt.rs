use harvest_tools::build_config::ir::{
    BuildConfigIR, ConfigVarKind, ConfigVariable, DefineKind, DefineMapping,
};
use harvest_tools::build_config::prompt_ext::build_system_prompt;

fn empty_ir() -> BuildConfigIR {
    BuildConfigIR {
        is_empty: true,
        ..Default::default()
    }
}

fn nonempty_ir() -> BuildConfigIR {
    BuildConfigIR {
        is_empty: false,
        variables: vec![
            ConfigVariable {
                name: "BACKEND".to_owned(),
                kind: ConfigVarKind::Enum {
                    values: vec!["alpha".to_owned(), "beta".to_owned()],
                    numeric: false,
                },
                default: Some("alpha".to_owned()),
            },
            ConfigVariable {
                name: "ENABLE_EXTRA".to_owned(),
                kind: ConfigVarKind::Boolean,
                default: Some("false".to_owned()),
            },
        ],
        defines: vec![DefineMapping {
            c_name: "BUILD_PROFILE".to_owned(),
            kind: DefineKind::Composed {
                template: "{BACKEND}_{WORD_SIZE}".to_owned(),
            },
            source_vars: vec!["BACKEND".to_owned(), "WORD_SIZE".to_owned()],
        }],
        ..Default::default()
    }
}

const BASE_PROMPT: &str = "You are a translator. Translate C to Rust.";

/// An empty IR must return the base prompt byte-for-byte.
#[test]
fn empty_ir_returns_base_unchanged() {
    let result = build_system_prompt(BASE_PROMPT, &empty_ir());
    assert_eq!(result, BASE_PROMPT);
}

/// Non-empty IR: must extend the base prompt.
#[test]
fn nonempty_ir_extends_base() {
    let ir = nonempty_ir();
    let result = build_system_prompt(BASE_PROMPT, &ir);
    assert!(result.starts_with(BASE_PROMPT));
    assert!(result.len() > BASE_PROMPT.len());
}

/// Section header must be present.
#[test]
fn nonempty_ir_has_section_header() {
    let result = build_system_prompt(BASE_PROMPT, &nonempty_ir());
    assert!(result.contains("## Configurable variables"));
}

/// Enum variable: bare cfg rule present, NOT feature = "...".
#[test]
fn enum_var_uses_bare_cfg() {
    let result = build_system_prompt(BASE_PROMPT, &nonempty_ir());
    assert!(result.contains("#[cfg(BACKEND_alpha)]"));
    assert!(result.contains("#[cfg(BACKEND_beta)]"));
    assert!(!result.contains("feature = \"BACKEND_"));
}

/// Boolean variable: feature cfg rule.
#[test]
fn boolean_var_uses_feature_cfg() {
    let result = build_system_prompt(BASE_PROMPT, &nonempty_ir());
    assert!(result.contains("#[cfg(feature = \"ENABLE_EXTRA\")]"));
}

/// Composed define: env!() rule.
#[test]
fn composed_define_uses_env() {
    let result = build_system_prompt(BASE_PROMPT, &nonempty_ir());
    assert!(result.contains("env!(\"BUILD_PROFILE\")"));
}

/// Must instruct the LLM not to write a [features] block.
#[test]
fn no_features_block_instruction() {
    let result = build_system_prompt(BASE_PROMPT, &nonempty_ir());
    assert!(result.contains("do NOT write a `[features]` block"));
}

/// Crate hygiene section must be present and forbid openssl.
#[test]
fn crate_hygiene_section_present() {
    let result = build_system_prompt(BASE_PROMPT, &nonempty_ir());
    assert!(result.contains("## Crate hygiene"));
    assert!(result.contains("Do NOT use the `openssl` crate"));
    assert!(result.contains("`aes`"));
    assert!(result.contains("`sha2`"));
}

/// Linker symbol fidelity section must be present with namespace-macro guidance.
#[test]
fn linker_symbol_fidelity_section_present() {
    let result = build_system_prompt(BASE_PROMPT, &nonempty_ir());
    assert!(result.contains("## Linker symbol fidelity"));
    assert!(result.contains("FINAL linker symbol"));
    assert!(result.contains("namespace macros"));
}

/// Empty IR must not include the extra sections.
#[test]
fn empty_ir_omits_strategy_sections() {
    let result = build_system_prompt(BASE_PROMPT, &empty_ir());
    assert!(!result.contains("## Crate hygiene"));
    assert!(!result.contains("## Linker symbol fidelity"));
}
