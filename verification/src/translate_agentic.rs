//! The translation agent: its prompt, the scaffold that it starts from, and the
//! package that is made of what it leaves.
use crate::agentic::{chat_command, chat_line, left_behind, prefixes_left_behind};
use crate::build_config::ir::{BuildConfigIR, BuildConfigView};
use crate::build_config::prompt_ext::{build_system_prompt, system_prompt};
use crate::build_project_spec::ProjectKind;
use crate::cargo_toml::{
    manifest_items, parsed_manifest, prints, text_at, with_bin_driver, with_lib, with_table,
    CargoToml, Manifest,
};
use crate::emit_build_features::{
    apply_features_to_cargo, manifest_error, manifest_in, read_manifest, script_needed,
    with_config, ManifestError,
};
use crate::fs::{files_without, RawDir};
use crate::text::{bytes_of, decimal_of, decimal_u64};
use vstd::prelude::*;

verus! {

/// Agent-only structural notes appended after the variable-listing section when
/// the project is configurable. Says only the things that are specific to the
/// agentic path: everything mechanical about the variables themselves comes
/// from the system prompt.
pub const AGENTIC_CONSTRAINTS: &'static str = "\n\
**Notes for the agentic path**:\n\
- Do NOT write a `build.rs` -- `EmitBuildFeatures` generates it after you finish.\n\
- Source files that are selected per-variant (e.g. `backend_${BACKEND}.c`) \
  should each be translated into a separate Rust module annotated with the \
  matching `#[cfg(...)]` rule above.\n\
\n\
**Sub-task decomposition** -- this is a large, configurable project. \
Do NOT try to translate everything in one go. Instead:\n\
1. Analyze the C project structure and create a plan breaking the translation \
   into subtasks (e.g., core/shared code, each backend, entry points).\n\
2. For each subtask, invoke a subagent by running:\n\
   ```\n\
   kiro-cli chat --no-interactive --trust-all-tools '<detailed prompt>' < /dev/null\n\
   ```\n\
3. After each subagent completes, verify the work compiles before moving on.\n\
4. Once all subtasks are done, wire up the feature gates and verify the full build.\n\
\n\
Each subagent must work in the same directory. Give each a clear, focused prompt \
with the specific C files to translate and where to write the Rust output. \
Each subagent prompt MUST include:\n\
- Which specific C source files to translate.\n\
- Which Rust file(s) to write.\n\
- Instructions to build and verify its own work compiles with the relevant features.\n\
- Instructions to NOT modify any files outside its scope.\n\
\n\
After all subagents complete, wire up the feature gates and do a final build check. \
If a combination fails, only fix the glue code (lib.rs, mod declarations) -- \
do NOT modify the backend implementation files.\n";

/// Pinned Rust toolchain for the generated project, so it builds reproducibly
/// rather than against whatever toolchain happens to be the default.
pub const RUST_TOOLCHAIN_TOML: &'static str = "[toolchain]\nchannel = \"1.93.0\"\n";

/// The agents that can be invoked.
#[derive(Debug, Clone, Copy, PartialEq, Eq, Structural)]
pub enum AgentKind {
    Kiro,
    Claude,
}

/// What an agent with a compacted context is told again, so that it goes back to
/// its plan.
pub const AFTER_COMPACTION: &'static str = "After any context compaction, you MUST re-read PLAN.md (if it exists) before doing anything else, and resume from the first unchecked subtask.";

/// The shell command that invokes an agent. It fails when the agent fails, not
/// only when its log cannot be written.
pub open spec fn agent_line(agent: AgentKind, program: Seq<char>, timeout: nat) -> Seq<char> {
    "set -o pipefail; "@ + match agent {
        AgentKind::Kiro => chat_line(program, timeout),
        AgentKind::Claude => "timeout "@ + decimal_of(timeout) + " "@ + program
            + " -p \"$PROMPT\" --permission-mode bypassPermissions --allowedTools 'Bash(*)' 'Write' 'Edit' --append-system-prompt \"$APPEND_SYS\" --output-format stream-json --verbose < /dev/null 2>&1 | tee \"$LOG\""@,
    }
}

/// The shell command that invokes an agent, whose program is `program`, for at
/// most `timeout_secs` seconds.
pub fn agent_command(agent: AgentKind, program: &str, timeout_secs: u64) -> (r: String)
    ensures
        r@ == agent_line(agent, program@, timeout_secs as nat),
{
    let mut out = "set -o pipefail; ".to_owned();
    match agent {
        AgentKind::Kiro => {
            let line = chat_command(program, timeout_secs);
            out.push_str(line.as_str());
        },
        AgentKind::Claude => {
            let mut line = "timeout ".to_owned();
            line.push_str(decimal_u64(timeout_secs).as_str());
            line.push_str(" ");
            line.push_str(program);
            line.push_str(
                " -p \"$PROMPT\" --permission-mode bypassPermissions --allowedTools 'Bash(*)' 'Write' 'Edit' --append-system-prompt \"$APPEND_SYS\" --output-format stream-json --verbose < /dev/null 2>&1 | tee \"$LOG\"",
            );
            out.push_str(line.as_str());
        },
    }
    out
}

/// The built-in prompts.
#[derive(Debug)]
pub struct BasePrompts {
    pub executable: String,
    pub library: String,
    pub claude: String,
}

/// The texts that a user provides in place of the built-in prompts.
#[derive(Debug)]
pub struct PromptOverrides {
    pub executable: Option<String>,
    pub library: Option<String>,
    pub claude: Option<String>,
}

/// The prompt for an agent with one prompt per project kind.
pub open spec fn kiro_prompt(user: Option<Seq<char>>, base: Seq<char>, cfg: BuildConfigView) -> Seq<
    char,
> {
    match user {
        Some(text) => text,
        None => if cfg.is_empty {
            base
        } else {
            system_prompt(base, cfg) + AGENTIC_CONSTRAINTS@
        },
    }
}

/// The prompt for an agent with one prompt for all project kinds.
pub open spec fn claude_prompt(
    user: Option<Seq<char>>,
    base: Seq<char>,
    cfg: BuildConfigView,
) -> Seq<char> {
    match user {
        Some(text) => text,
        None => system_prompt(base, cfg),
    }
}

/// The prompt for an agent.
pub open spec fn agent_prompt(
    overrides: PromptOverrides,
    base: BasePrompts,
    kind: ProjectKind,
    cfg: BuildConfigView,
    agent: AgentKind,
) -> Seq<char> {
    match (agent, kind) {
        (AgentKind::Kiro, ProjectKind::Executable) => kiro_prompt(
            overrides.executable.deep_view(),
            base.executable@,
            cfg,
        ),
        (AgentKind::Kiro, ProjectKind::Library) => kiro_prompt(
            overrides.library.deep_view(),
            base.library@,
            cfg,
        ),
        (AgentKind::Claude, _) => claude_prompt(overrides.claude.deep_view(), base.claude@, cfg),
    }
}

/// Selects the translate prompt.
///
/// - [`AgentKind::Kiro`]: the built-in prompt for the project kind is the base;
///   for a configurable project it is extended with the configurable-variables
///   section and [`AGENTIC_CONSTRAINTS`].
/// - the other agent: the unified prompt is the base; for a configurable project
///   the configurable-variables section is appended.
///
/// A text that the user provides for the agent takes precedence and is returned
/// verbatim.
pub fn load_prompt(
    overrides: &PromptOverrides,
    base: &BasePrompts,
    kind: ProjectKind,
    build_cfg: &BuildConfigIR,
    agent: AgentKind,
) -> (r: String)
    ensures
        r@ == agent_prompt(*overrides, *base, kind, build_cfg.deep_view(), agent),
{
    match agent {
        AgentKind::Kiro => {
            let (user, legacy): (&Option<String>, &str) = match kind {
                ProjectKind::Executable => (&overrides.executable, base.executable.as_str()),
                ProjectKind::Library => (&overrides.library, base.library.as_str()),
            };
            match user {
                Some(text) => text.as_str().to_owned(),
                None => {
                    if build_cfg.is_empty {
                        return legacy.to_owned();
                    }
                    let mut out = build_system_prompt(legacy, build_cfg);
                    out.push_str(AGENTIC_CONSTRAINTS);
                    out
                },
            }
        },
        AgentKind::Claude => match &overrides.claude {
            Some(text) => text.as_str().to_owned(),
            None => build_system_prompt(base.claude.as_str(), build_cfg),
        },
    }
}

/// Neither agent consults the text that is provided for the other.
pub proof fn agents_ignore_each_other(
    a: PromptOverrides,
    b: PromptOverrides,
    base: BasePrompts,
    kind: ProjectKind,
    cfg: BuildConfigView,
)
    ensures
        a.executable == b.executable && a.library == b.library ==> agent_prompt(
            a,
            base,
            kind,
            cfg,
            AgentKind::Kiro,
        ) == agent_prompt(b, base, kind, cfg, AgentKind::Kiro),
        a.claude == b.claude ==> agent_prompt(a, base, kind, cfg, AgentKind::Claude)
            == agent_prompt(b, base, kind, cfg, AgentKind::Claude),
{
}

/// Without a text of the user, the prompt starts with the built-in one, and for
/// a project without configuration it is the built-in one.
pub proof fn prompt_extends_base(
    overrides: PromptOverrides,
    base: BasePrompts,
    kind: ProjectKind,
    cfg: BuildConfigView,
    agent: AgentKind,
)
    requires
        overrides.executable is None,
        overrides.library is None,
        overrides.claude is None,
    ensures
        ({
            let start = match (agent, kind) {
                (AgentKind::Kiro, ProjectKind::Executable) => base.executable@,
                (AgentKind::Kiro, ProjectKind::Library) => base.library@,
                (AgentKind::Claude, _) => base.claude@,
            };
            let prompt = agent_prompt(overrides, base, kind, cfg, agent);
            start.is_prefix_of(prompt) && (cfg.is_empty ==> prompt == start)
        }),
{
    let start = match (agent, kind) {
        (AgentKind::Kiro, ProjectKind::Executable) => base.executable@,
        (AgentKind::Kiro, ProjectKind::Library) => base.library@,
        (AgentKind::Claude, _) => base.claude@,
    };
    let prompt = agent_prompt(overrides, base, kind, cfg, agent);
    crate::build_config::prompt_ext::system_prompt_extends_base(start, cfg);
    assert(start =~= prompt.subrange(0, start.len() as int));
}

/// The canonical crate name for the project: the sanitized base name of the
/// output directory, or `translated_crate` if nothing is left of it. Handing it
/// to the agent up front keeps its imports consistent with the final name.
pub fn canonical_crate_name(sanitized: &str) -> (r: String)
    ensures
        r@ == if sanitized@.len() == 0 {
            "translated_crate"@
        } else {
            sanitized@
        },
{
    if sanitized.is_empty() {
        "translated_crate".to_owned()
    } else {
        sanitized.to_owned()
    }
}

/// The files that the agent starts from.
#[derive(Debug)]
pub struct Scaffold {
    pub cargo_toml: String,
    /// The build script, if the configuration needs one.
    pub build_rs: Option<String>,
    pub rust_toolchain_toml: String,
}

/// The manifest text that the scaffold is made from.
pub open spec fn base_manifest(name: Seq<char>) -> Seq<char> {
    "[package]\nname = \""@ + name + "\"\nversion = \"0.1.0\"\nedition = \"2021\"\n"@
}

/// The manifest of the scaffold: the section for the project kind, a workspace,
/// and the features of the configuration.
pub open spec fn scaffold_manifest(
    m: Manifest,
    name: Seq<char>,
    kind: ProjectKind,
    cfg: BuildConfigView,
) -> Manifest {
    let target = match kind {
        ProjectKind::Library => with_lib(m, name),
        ProjectKind::Executable => with_bin_driver(m),
    };
    with_config(with_table(target, "workspace"@), cfg)
}

/// A deterministic project scaffold: a manifest carrying the canonical name,
/// the `[lib]` or `[[bin]]` section for the project kind and the features of
/// the configuration; the build script `build_rs` when the configuration needs
/// one; and a pinned toolchain. `None` if the name does not fit into a manifest.
pub fn project_scaffold(
    canonical_name: &str,
    kind: ProjectKind,
    build_cfg: &BuildConfigIR,
    build_rs: &str,
) -> (r: Option<Scaffold>)
    ensures
        match (r, parsed_manifest(base_manifest(canonical_name@))) {
            (None, None) => true,
            (Some(s), Some(doc)) => {
                let cfg = build_cfg.deep_view();
                &&& prints(
                    s.cargo_toml@,
                    scaffold_manifest(manifest_items(doc), canonical_name@, kind, cfg),
                )
                &&& s.build_rs.deep_view() == (if !cfg.is_empty && script_needed(cfg) {
                    Some(build_rs@)
                } else {
                    None
                })
                &&& s.rust_toolchain_toml@ == RUST_TOOLCHAIN_TOML@
            },
            _ => false,
        },
{
    let mut base = "[package]\nname = \"".to_owned();
    base.push_str(canonical_name);
    base.push_str("\"\nversion = \"0.1.0\"\nedition = \"2021\"\n");
    let mut cargo = match CargoToml::open(base.as_str()) {
        Some(c) => c,
        None => {
            return None;
        },
    };
    match kind {
        ProjectKind::Library => {
            cargo.set_lib(canonical_name);
        },
        ProjectKind::Executable => {
            cargo.set_bin_driver();
        },
    }
    cargo.add_workspace();
    let needed = apply_features_to_cargo(&mut cargo, build_cfg);
    Some(
        Scaffold {
            cargo_toml: cargo.save(),
            build_rs: if needed {
                Some(build_rs.to_owned())
            } else {
                None
            },
            rust_toolchain_toml: RUST_TOOLCHAIN_TOML.to_owned(),
        },
    )
}

/// The manifest after the agent finished: with a workspace; for a library
/// without binaries and with the library named as the package; for an
/// executable with the binary `driver`.
pub open spec fn post_processed(m: Manifest, kind: ProjectKind) -> Manifest {
    let w = with_table(m, "workspace"@);
    match kind {
        ProjectKind::Library => {
            let lib = w.remove("bin"@);
            match text_at(lib, "package"@, "name"@) {
                Some(name) => with_lib(lib, name),
                None => lib,
            }
        },
        ProjectKind::Executable => with_bin_driver(w),
    }
}

/// Applies standard manifest fixups after the agent finishes.
pub fn post_process(cargo: &mut CargoToml, kind: ProjectKind)
    ensures
        final(cargo)@ == post_processed(old(cargo)@, kind),
{
    cargo.add_workspace();
    match kind {
        ProjectKind::Library => {
            cargo.remove_bin();
            match cargo.package_name() {
                Some(name) => {
                    cargo.set_lib(name.as_str());
                },
                None => {},
            }
        },
        ProjectKind::Executable => {
            cargo.set_bin_driver();
        },
    }
}

/// The files that are dropped from a project of this kind.
pub open spec fn dropped_files(kind: ProjectKind) -> Seq<Seq<char>> {
    match kind {
        ProjectKind::Library => seq!["src/main.rs"@],
        ProjectKind::Executable => seq![],
    }
}

/// The directories that are dropped from a project of this kind.
pub open spec fn dropped_dirs(kind: ProjectKind) -> Seq<Seq<char>> {
    match kind {
        ProjectKind::Library => left_behind().push("tests/"@),
        ProjectKind::Executable => left_behind(),
    }
}

/// The translation agent tool.
pub struct TranslateAgentic;

impl TranslateAgentic {
    /// The number of seconds after which the agent is stopped, if none is
    /// configured: two hours.
    pub fn default_timeout_secs() -> (r: u64)
        ensures
            r == 7200,
    {
        7200
    }

    /// The package made of what the agent left: its manifest fixed up, without
    /// the C source and the build output, and for a library without
    /// `src/main.rs` and `tests/`.
    pub fn collect(&self, translated: &RawDir, kind: ProjectKind) -> (r: Result<
        RawDir,
        ManifestError,
    >)
        ensures
            match r {
                Ok(dir) => manifest_error(translated@) is None && exists|text: Seq<char>|
                    prints(text, post_processed(manifest_in(translated@), kind)) && dir@
                        == files_without(
                        translated@.insert("Cargo.toml"@, vstd::utf8::encode_utf8(text)),
                        dropped_files(kind),
                        dropped_dirs(kind),
                    ),
                Err(e) => manifest_error(translated@) == Some(e),
            },
    {
        let mut cargo = match read_manifest(translated) {
            Ok(c) => c,
            Err(e) => {
                return Err(e);
            },
        };
        post_process(&mut cargo, kind);
        let text = cargo.save();
        let mut files: Vec<String> = Vec::new();
        let mut dirs = prefixes_left_behind();
        match kind {
            ProjectKind::Library => {
                files.push("src/main.rs".to_owned());
                dirs.push("tests/".to_owned());
            },
            ProjectKind::Executable => {},
        }
        proof {
            assert(files.deep_view() =~= dropped_files(kind));
            assert(dirs.deep_view() =~= dropped_dirs(kind));
            assert(prints(text@, post_processed(manifest_in(translated@), kind)));
        }
        let mut all = translated.copied();
        all.set_file("Cargo.toml", bytes_of(text.as_str()));
        Ok(all.without(&files, &dirs))
    }
}

} // verus!
