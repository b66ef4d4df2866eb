use harvest_tools::agentic::BuiltinPrompts;
use harvest_tools::build_config::ir::{
    BuildConfigIR, ConfigVarKind, ConfigVariable, DefineKind, DefineMapping,
};
use harvest_tools::build_project_spec::ProjectKind;
use harvest_tools::fs::RawDir;
use harvest_tools::raw_source_to_cargo_llm::RawSourceToCargoLlm;

const SYSTEM_PROMPT_EXECUTABLE: &str = "Rewrite the C program as a Rust binary crate.\n";
const SYSTEM_PROMPT_LIBRARY: &str = "Rewrite the C library as a Rust cdylib crate.\n";

/// The prompt that is sent for an empty project of this kind.
fn system_prompt(kind: ProjectKind, cfg: &BuildConfigIR) -> String {
    let builtin = BuiltinPrompts {
        executable: SYSTEM_PROMPT_EXECUTABLE.to_string(),
        library: SYSTEM_PROMPT_LIBRARY.to_string(),
    };
    RawSourceToCargoLlm.request(&RawDir::new(), kind, cfg, None, None, &builtin).system_prompt
}

fn empty_ir() -> BuildConfigIR {
    BuildConfigIR {
        is_empty: true,
        ..Default::default()
    }
}

fn nonempty_ir() -> BuildConfigIR {
    BuildConfigIR {
        is_empty: false,
        variables: vec![
            ConfigVariable {
                name: "BACKEND".to_owned(),
                kind: ConfigVarKind::Enum {
                    values: vec!["alpha".to_owned(), "beta".to_owned()],
                    numeric: false,
                },
                default: Some("alpha".to_owned()),
            },
            ConfigVariable {
                name: "ENABLE_EXTRA".to_owned(),
                kind: ConfigVarKind::Boolean,
                default: Some("false".to_owned()),
            },
        ],
        defines: vec![DefineMapping {
            c_name: "BUILD_PROFILE".to_owned(),
            kind: DefineKind::Composed {
                template: "{BACKEND}_{WORD_SIZE}".to_owned(),
            },
            source_vars: vec!["BACKEND".to_owned(), "WORD_SIZE".to_owned()],
        }],
        ..Default::default()
    }
}

/// Without configuration the prompt is the built-in one, byte for byte.
#[test]
fn empty_ir_prompt_is_byte_equal_to_static_executable() {
    let result = system_prompt(ProjectKind::Executable, &empty_ir());
    assert_eq!(
        result, SYSTEM_PROMPT_EXECUTABLE,
        "empty IR must not modify the executable prompt"
    );
}

/// The same for the library prompt.
#[test]
fn empty_ir_prompt_is_byte_equal_to_static_library() {
    let result = system_prompt(ProjectKind::Library, &empty_ir());
    assert_eq!(
        result, SYSTEM_PROMPT_LIBRARY,
        "empty IR must not modify the library prompt"
    );
}

/// Non-empty IR: prompt must contain the configurable-variables section.
#[test]
fn nonempty_ir_prompt_contains_cfg_rules() {
    let ir = nonempty_ir();
    let result = system_prompt(ProjectKind::Executable, &ir);

    // Starts with the base prompt unchanged.
    assert!(result.starts_with(SYSTEM_PROMPT_EXECUTABLE));

    // Contains the section header.
    assert!(
        result.contains("## Configurable variables"),
        "prompt must contain section header"
    );

    // Enum variable: bare cfg rule.
    assert!(
        result.contains("#[cfg(BACKEND_alpha)]"),
        "prompt must mention BACKEND_alpha bare cfg"
    );
    assert!(
        result.contains("#[cfg(BACKEND_beta)]"),
        "prompt must mention BACKEND_beta bare cfg"
    );
    // Must NOT say `feature = "BACKEND_..."` for the enum.
    assert!(
        !result.contains("feature = \"BACKEND_"),
        "enum cfg rules must not use feature = ..."
    );

    // Boolean variable: feature cfg rule.
    assert!(
        result.contains("#[cfg(feature = \"ENABLE_EXTRA\")]"),
        "boolean must use feature = rule"
    );

    // Composed define: env!() rule.
    assert!(
        result.contains("env!(\"BUILD_PROFILE\")"),
        "composed define must use env!()"
    );

    // Explicit: no [features] block.
    assert!(
        result.contains("do NOT write a `[features]` block"),
        "prompt must instruct LLM not to write [features]"
    );
}

/// Non-empty IR: the extended prompt must be strictly longer than the base.
#[test]
fn nonempty_ir_prompt_is_longer_than_base() {
    let ir = nonempty_ir();
    let result = system_prompt(ProjectKind::Executable, &ir);
    assert!(
        result.len() > SYSTEM_PROMPT_EXECUTABLE.len(),
        "non-empty IR must extend the prompt"
    );
}
