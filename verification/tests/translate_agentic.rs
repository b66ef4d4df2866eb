use harvest_tools::build_config::ir::{BuildConfigIR, ConfigVarKind, ConfigVariable};
use harvest_tools::build_project_spec::ProjectKind;
use harvest_tools::translate_agentic::{
    load_prompt, AgentKind, BasePrompts, PromptOverrides, AGENTIC_CONSTRAINTS,
};

const PROMPT_EXECUTABLE: &str = "Rewrite the C program as a Rust binary crate.\n";
const PROMPT_LIBRARY: &str = "Rewrite the C library as a Rust cdylib crate.\n";
const PROMPT_CLAUDE_TRANSLATE: &str = "Rewrite the C project. Keep the plan in PLAN.md.\n";

fn base() -> BasePrompts {
    BasePrompts {
        executable: PROMPT_EXECUTABLE.to_string(),
        library: PROMPT_LIBRARY.to_string(),
        claude: PROMPT_CLAUDE_TRANSLATE.to_string(),
    }
}

fn overrides(
    executable: Option<&str>,
    library: Option<&str>,
    claude: Option<&str>,
) -> PromptOverrides {
    PromptOverrides {
        executable: executable.map(str::to_string),
        library: library.map(str::to_string),
        claude: claude.map(str::to_string),
    }
}

fn prompt_for(
    user: PromptOverrides,
    kind: ProjectKind,
    cfg: &BuildConfigIR,
    agent: AgentKind,
) -> String {
    load_prompt(&user, &base(), kind, cfg, agent)
}

fn empty_ir() -> BuildConfigIR {
    BuildConfigIR {
        is_empty: true,
        ..Default::default()
    }
}

fn non_empty_ir() -> BuildConfigIR {
    BuildConfigIR {
        is_empty: false,
        variables: vec![ConfigVariable {
            name: "BACKEND".into(),
            kind: ConfigVarKind::Enum {
                values: vec!["alpha".into(), "beta".into()],
                numeric: false,
            },
            default: Some("alpha".into()),
        }],
        ..Default::default()
    }
}

/// With an empty IR, the executable path returns the built-in prompt verbatim.
#[test]
fn load_prompt_empty_ir_executable_returns_legacy() {
    let prompt = prompt_for(
        overrides(None, None, None),
        ProjectKind::Executable,
        &empty_ir(),
        AgentKind::Kiro,
    );
    assert_eq!(
        prompt, PROMPT_EXECUTABLE,
        "empty IR must return built-in executable prompt byte-for-byte"
    );
}

/// With an empty IR, the library path returns the built-in prompt verbatim.
#[test]
fn load_prompt_empty_ir_library_returns_legacy() {
    let prompt = prompt_for(
        overrides(None, None, None),
        ProjectKind::Library,
        &empty_ir(),
        AgentKind::Kiro,
    );
    assert_eq!(
        prompt, PROMPT_LIBRARY,
        "empty IR must return built-in library prompt byte-for-byte"
    );
}

/// With a non-empty IR, the executable prompt extends the built-in template
/// with the materialized variable listing plus the agentic constraints
/// note. The extension must include the canonical bare-cfg form for the
/// BACKEND enum (not `feature = "..."`) and must reference the variable
/// names with the same casing as `BuildConfigIR.variables[].name`.
#[test]
fn load_prompt_non_empty_ir_executable_extends_legacy() {
    let prompt = prompt_for(
        overrides(None, None, None),
        ProjectKind::Executable,
        &non_empty_ir(),
        AgentKind::Kiro,
    );
    assert!(
        prompt.starts_with(PROMPT_EXECUTABLE),
        "extended prompt must start with the built-in executable prompt"
    );
    assert!(prompt.contains("## Configurable variables"));
    assert!(prompt.contains("#[cfg(BACKEND_alpha)]"));
    assert!(prompt.contains("#[cfg(BACKEND_beta)]"));
    assert!(!prompt.contains("feature = \"BACKEND_"));
    assert!(prompt.contains(AGENTIC_CONSTRAINTS));
}

/// Same contract for the library path: built-in prefix, variable section,
/// agentic constraints suffix.
#[test]
fn load_prompt_non_empty_ir_library_extends_legacy() {
    let prompt = prompt_for(
        overrides(None, None, None),
        ProjectKind::Library,
        &non_empty_ir(),
        AgentKind::Kiro,
    );
    assert!(
        prompt.starts_with(PROMPT_LIBRARY),
        "extended prompt must start with the built-in library prompt"
    );
    assert!(prompt.contains("## Configurable variables"));
    assert!(prompt.contains("#[cfg(BACKEND_alpha)]"));
    assert!(prompt.contains(AGENTIC_CONSTRAINTS));
}

/// Casing fidelity: a Boolean variable with an uppercase name in the IR
/// must produce `#[cfg(feature = "ENABLE_EXTRA")]` in the prompt -- the
/// `EmitBuildFeatures` emitter writes the feature with the configuration
/// variable's original case, so the cfg gate must match.
#[test]
fn load_prompt_non_empty_ir_preserves_boolean_var_casing() {
    let ir = BuildConfigIR {
        is_empty: false,
        variables: vec![ConfigVariable {
            name: "ENABLE_EXTRA".into(),
            kind: ConfigVarKind::Boolean,
            default: Some("false".into()),
        }],
        ..Default::default()
    };
    let prompt = prompt_for(
        overrides(None, None, None),
        ProjectKind::Executable,
        &ir,
        AgentKind::Kiro,
    );
    assert!(prompt.contains("#[cfg(feature = \"ENABLE_EXTRA\")]"));
    assert!(!prompt.contains("#[cfg(feature = \"enable_extra\")]"));
}

/// Non-empty IR includes sub-task decomposition guidance (kiro-cli invocation).
#[test]
fn load_prompt_non_empty_ir_includes_subtask_decomposition() {
    let prompt = prompt_for(
        overrides(None, None, None),
        ProjectKind::Executable,
        &non_empty_ir(),
        AgentKind::Kiro,
    );
    assert!(
        prompt.contains("kiro-cli chat --no-interactive --trust-all-tools"),
        "agentic constraints must include kiro-cli subagent invocation"
    );
    assert!(
        prompt.contains("Sub-task decomposition"),
        "agentic constraints must include sub-task decomposition section"
    );
    // Must instruct each subagent not to modify files outside its scope.
    assert!(prompt.contains("NOT modify any files outside its scope"));
}

/// Empty IR must NOT include the sub-task decomposition guidance.
#[test]
fn load_prompt_empty_ir_omits_subtask_decomposition() {
    let prompt = prompt_for(
        overrides(None, None, None),
        ProjectKind::Executable,
        &empty_ir(),
        AgentKind::Kiro,
    );
    assert!(
        !prompt.contains("kiro-cli chat --no-interactive --trust-all-tools"),
        "empty IR must not include kiro-cli guidance"
    );
}

/// A config-path override is used verbatim regardless of IR state.
#[test]
fn load_prompt_config_override_is_verbatim() {
    let p = "CUSTOM_PROMPT";

    let prompt = load_prompt(&overrides(Some(p), None, None), &base(), ProjectKind::Executable, &non_empty_ir(), AgentKind::Kiro);
    assert_eq!(prompt, "CUSTOM_PROMPT");

    // Same override with empty IR -- still verbatim.
    let prompt2 = load_prompt(&overrides(Some(p), None, None), &base(), ProjectKind::Executable, &empty_ir(), AgentKind::Kiro);
    assert_eq!(prompt2, "CUSTOM_PROMPT");
}

/// The single-prompt agent with an empty IR returns the unified prompt verbatim,
/// regardless of the project kind. The Kiro per-kind prompts are not
/// touched.
#[test]
fn load_prompt_claude_empty_ir_returns_claude_prompt() {
    for kind in [ProjectKind::Executable, ProjectKind::Library] {
        let prompt =
            prompt_for(overrides(None, None, None), kind, &empty_ir(), AgentKind::Claude);
        assert_eq!(
            prompt, PROMPT_CLAUDE_TRANSLATE,
            "empty-IR must return the unified prompt byte-for-byte ({kind:?})",
        );
    }
}

/// The single-prompt agent with a non-empty IR appends the configurable-variables
/// section from `build_system_prompt`. The Kiro-only sub-task
/// decomposition (kiro-cli references) is not appended.
#[test]
fn load_prompt_claude_non_empty_ir_extends_with_vars_only() {
    let prompt = prompt_for(
        overrides(None, None, None),
        ProjectKind::Executable,
        &non_empty_ir(),
        AgentKind::Claude,
    );
    assert!(
        prompt.starts_with(PROMPT_CLAUDE_TRANSLATE),
        "non-empty prompt must start with the unified base",
    );
    assert!(prompt.contains("## Configurable variables"));
    assert!(prompt.contains("#[cfg(BACKEND_alpha)]"));
    assert!(
        !prompt.contains("kiro-cli chat --no-interactive --trust-all-tools"),
        "the path must not include kiro-cli sub-task decomposition",
    );
}

/// The single-prompt config-path override is honored verbatim regardless of IR.
#[test]
fn load_prompt_claude_config_override_is_verbatim() {
    let p = "CUSTOM_CLAUDE_PROMPT";
    let prompt = load_prompt(&overrides(None, None, Some(p)), &base(), ProjectKind::Library, &non_empty_ir(), AgentKind::Claude);
    assert_eq!(prompt, "CUSTOM_CLAUDE_PROMPT");

    let prompt2 = load_prompt(&overrides(None, None, Some(p)), &base(), ProjectKind::Library, &empty_ir(), AgentKind::Claude);
    assert_eq!(prompt2, "CUSTOM_CLAUDE_PROMPT");
}

/// The Kiro `prompt_claude_translate` config field is ignored on the
/// Kiro path, and vice versa.
#[test]
fn load_prompt_kiro_ignores_claude_override() {
    let p = "CLAUDE_OVERRIDE";
    let prompt = load_prompt(&overrides(None, None, Some(p)), &base(), ProjectKind::Executable, &empty_ir(), AgentKind::Kiro);
    // Kiro path returns the built-in executable prompt; the
    // single-prompt override is not consulted.
    assert_eq!(prompt, PROMPT_EXECUTABLE);
}
