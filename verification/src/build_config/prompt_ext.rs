//! Helpers that extend LLM system prompts with a configurable-variables
//! section derived from a [`BuildConfigIR`].
use crate::build_config::ir::{
    BuildConfigIR, BuildConfigView, ConfigVarKind, ConfigVarKindView, ConfigVariable,
    ConfigVariableView, DefineKind, DefineKindView, DefineMapping, DefineMappingView,
};
use crate::text::{join, joined};
use vstd::prelude::*;

verus! {

pub const VARIABLES_HEADING: &'static str = "## Configurable variables\n\n";

pub const VARIABLES_INTRO: &'static str = "This project uses configurable variables managed by the build system. `EmitBuildFeatures` has already written the `[features]` block and `build.rs` for you -- do NOT write a `[features]` block in the Cargo.toml you produce.\n\n";

pub const VARIABLES_RULES: &'static str = "Apply the following rules when translating `#ifdef`/`#if` guards that test these variables:\n\n";

pub const DEFINES_INTRO: &'static str = "Composed or bare defines are emitted by `build.rs` as `cargo:rustc-env` or `cargo:rustc-cfg` lines. Access them in Rust source via `env!(\"NAME\")` for string-valued defines, or via `#[cfg(NAME_value)]` for cfg-valued defines:\n\n";

pub const CRATE_HYGIENE: &'static str = "## Crate hygiene\n\nDo NOT use the `openssl` crate or any OpenSSL bindings. Use pure-Rust crates instead (e.g., `aes` for AES-256-ECB, `sha2` for SHA-256).\n\n";

pub const SYMBOL_FIDELITY: &'static str = "## Linker symbol fidelity\n\nC preprocessor macros can RENAME functions at the source level. For example, `#define foo NAMESPACE(foo)` makes the final linker symbol `PREFIX_foo`, not `foo`. The Rust `#[no_mangle]` name must match the FINAL linker symbol, not the source-level name. Check header files for namespace macros before writing `extern \"C\"` exports.\n";

/// The cfg guard for one value of an enumerated variable.
pub open spec fn value_guard(name: Seq<char>, value: Seq<char>) -> Seq<char> {
    "`#[cfg("@ + name + "_"@ + value + ")]`"@
}

/// The line for one variable.
pub open spec fn variable_line(v: ConfigVariableView) -> Seq<char> {
    match v.kind {
        ConfigVarKindView::Boolean => "- `"@ + v.name + "` (boolean): use `#[cfg(feature = \""@
            + v.name + "\")]`\n"@,
        ConfigVarKindView::Enum { values, numeric } => "- `"@ + v.name + "` (enum, values: "@
            + joined(values, ", "@) + "): use bare cfg -- "@ + joined(
            Seq::new(values.len(), |i: int| value_guard(v.name, values[i])),
            " / "@,
        ) + " (NOT `feature = ...`)\n"@,
    }
}

/// The lines for all variables.
pub open spec fn variable_lines(vars: Seq<ConfigVariableView>) -> Seq<char>
    decreases vars.len(),
{
    if vars.len() == 0 {
        seq![]
    } else {
        variable_lines(vars.drop_last()) + variable_line(vars.last())
    }
}

/// The line for one define.
pub open spec fn define_line(d: DefineMappingView) -> Seq<char> {
    match d.kind {
        DefineKindView::QuotedString { var } => "- `"@ + d.c_name + "` (from `"@ + var
            + "`): use `env!(\""@ + d.c_name + "\")`\n"@,
        DefineKindView::Bare { var } => "- `"@ + d.c_name + "` (from `"@ + var
            + "`): use `env!(\""@ + d.c_name + "\")`\n"@,
        DefineKindView::Composed { template } => "- `"@ + d.c_name
            + "` (composed from template `"@ + template + "`): use `env!(\""@ + d.c_name
            + "\")`\n"@,
        DefineKindView::GatedFlag { gate_var } => "- `"@ + d.c_name + "` (gated by `"@ + gate_var
            + "`): use `#[cfg("@ + d.c_name + ")]`\n"@,
    }
}

/// The lines for all defines.
pub open spec fn define_lines(defines: Seq<DefineMappingView>) -> Seq<char>
    decreases defines.len(),
{
    if defines.len() == 0 {
        seq![]
    } else {
        define_lines(defines.drop_last()) + define_line(defines.last())
    }
}

/// The part about defines: empty without defines.
pub open spec fn defines_part(defines: Seq<DefineMappingView>) -> Seq<char> {
    if defines.len() == 0 {
        seq![]
    } else {
        "\n"@ + DEFINES_INTRO@ + define_lines(defines)
    }
}

/// The whole configurable-variables section.
pub open spec fn variables_section(cfg: BuildConfigView) -> Seq<char> {
    VARIABLES_HEADING@ + VARIABLES_INTRO@ + VARIABLES_RULES@ + variable_lines(cfg.variables)
        + defines_part(cfg.defines) + "\n"@ + CRATE_HYGIENE@ + SYMBOL_FIDELITY@
}

/// The system prompt for a project.
pub open spec fn system_prompt(base_prompt: Seq<char>, cfg: BuildConfigView) -> Seq<char> {
    if cfg.is_empty {
        base_prompt
    } else {
        base_prompt + "\n\n"@ + variables_section(cfg)
    }
}

/// Every prompt starts with its base prompt, and the prompt of a project
/// without configurable variables is the base prompt itself.
pub proof fn system_prompt_extends_base(base_prompt: Seq<char>, cfg: BuildConfigView)
    ensures
        base_prompt.is_prefix_of(system_prompt(base_prompt, cfg)),
        cfg.is_empty ==> system_prompt(base_prompt, cfg) == base_prompt,
{
    let p = system_prompt(base_prompt, cfg);
    assert(base_prompt =~= p.subrange(0, base_prompt.len() as int));
}

/// Builds the final system prompt string by appending a configurable-variables
/// section to `base_prompt` when `build_cfg.is_empty == false`.
///
/// When `build_cfg.is_empty == true`, the returned `String` is equal to
/// `base_prompt`.
pub fn build_system_prompt(base_prompt: &str, build_cfg: &BuildConfigIR) -> (r: String)
    ensures
        r@ == system_prompt(base_prompt@, build_cfg.deep_view()),
        build_cfg.is_empty ==> r@ == base_prompt@,
{
    if build_cfg.is_empty {
        return base_prompt.to_owned();
    }
    let mut out = base_prompt.to_owned();
    out.push_str("\n\n");
    out.push_str(build_configurable_vars_section(build_cfg).as_str());
    out
}

fn push_variable_line(out: &mut String, var: &ConfigVariable)
    ensures
        final(out)@ == old(out)@ + variable_line(var.deep_view()),
{
    let ghost start = out@;
    let name = var.name.as_str();
    out.push_str("- `");
    out.push_str(name);
    match &var.kind {
        ConfigVarKind::Boolean => {
            out.push_str("` (boolean): use `#[cfg(feature = \"");
            out.push_str(name);
            out.push_str("\")]`\n");
        },
        ConfigVarKind::Enum { values, numeric } => {
            let mut guards: Vec<String> = Vec::new();
            let mut i: usize = 0;
            let ghost want = Seq::new(
                values@.len(),
                |i: int| value_guard(name@, values.deep_view()[i]),
            );
            while i < values.len()
                invariant
                    i <= values@.len(),
                    want == Seq::new(
                        values@.len(),
                        |i: int| value_guard(name@, values.deep_view()[i]),
                    ),
                    guards@.len() == i,
                    forall|j: int| 0 <= j < i ==> (#[trigger] guards@[j])@ == want[j],
                decreases values@.len() - i,
            {
                let mut guard = "`#[cfg(".to_owned();
                guard.push_str(name);
                guard.push_str("_");
                guard.push_str(values[i].as_str());
                guard.push_str(")]`");
                guards.push(guard);
                i += 1;
            }
            out.push_str("` (enum, values: ");
            out.push_str(join(values.as_slice(), ", ").as_str());
            out.push_str("): use bare cfg -- ");
            out.push_str(join(guards.as_slice(), " / ").as_str());
            out.push_str(" (NOT `feature = ...`)\n");
            proof {
                assert(Seq::new(values@.len(), |i: int| values@[i]@) =~= values.deep_view());
                assert(Seq::new(guards@.len(), |i: int| guards@[i]@) =~= want);
            }
        },
    }
    proof {
        assert(out@ =~= start + variable_line(var.deep_view()));
    }
}

fn push_define_line(out: &mut String, def: &DefineMapping)
    ensures
        final(out)@ == old(out)@ + define_line(def.deep_view()),
{
    let ghost start = out@;
    let c_name = def.c_name.as_str();
    out.push_str("- `");
    out.push_str(c_name);
    match &def.kind {
        DefineKind::QuotedString { var } => {
            out.push_str("` (from `");
            out.push_str(var.as_str());
            out.push_str("`): use `env!(\"");
            out.push_str(c_name);
            out.push_str("\")`\n");
        },
        DefineKind::Bare { var } => {
            out.push_str("` (from `");
            out.push_str(var.as_str());
            out.push_str("`): use `env!(\"");
            out.push_str(c_name);
            out.push_str("\")`\n");
        },
        DefineKind::Composed { template } => {
            out.push_str("` (composed from template `");
            out.push_str(template.as_str());
            out.push_str("`): use `env!(\"");
            out.push_str(c_name);
            out.push_str("\")`\n");
        },
        DefineKind::GatedFlag { gate_var } => {
            out.push_str("` (gated by `");
            out.push_str(gate_var.as_str());
            out.push_str("`): use `#[cfg(");
            out.push_str(c_name);
            out.push_str(")]`\n");
        },
    }
    proof {
        assert(out@ =~= start + define_line(def.deep_view()));
    }
}

/// Renders the configurable-variables section that is appended to a system
/// prompt when the project carries a non-empty [`BuildConfigIR`].
pub fn build_configurable_vars_section(cfg: &BuildConfigIR) -> (r: String)
    ensures
        r@ == variables_section(cfg.deep_view()),
{
    let mut out = String::new();
    out.push_str(VARIABLES_HEADING);
    out.push_str(VARIABLES_INTRO);
    out.push_str(VARIABLES_RULES);
    let ghost head = VARIABLES_HEADING@ + VARIABLES_INTRO@ + VARIABLES_RULES@;
    let ghost vars = cfg.variables.deep_view();
    let mut i: usize = 0;
    proof {
        assert(out@ =~= head + variable_lines(vars.take(0)));
    }
    while i < cfg.variables.len()
        invariant
            vars == cfg.variables.deep_view(),
            i <= cfg.variables@.len(),
            out@ == head + variable_lines(vars.take(i as int)),
        decreases cfg.variables@.len() - i,
    {
        push_variable_line(&mut out, &cfg.variables[i]);
        proof {
            assert(vars.take(i + 1).drop_last() =~= vars.take(i as int));
            assert(out@ =~= head + variable_lines(vars.take(i + 1)));
        }
        i += 1;
    }
    let ghost head = head + variable_lines(vars);
    let ghost defines = cfg.defines.deep_view();
    proof {
        assert(vars.take(i as int) =~= vars);
        assert(defines.len() == cfg.defines@.len());
    }
    if cfg.defines.len() > 0 {
        out.push_str("\n");
        out.push_str(DEFINES_INTRO);
        let ghost middle = "\n"@ + DEFINES_INTRO@;
        let mut j: usize = 0;
        proof {
            assert(out@ =~= head + (middle + define_lines(defines.take(0))));
        }
        while j < cfg.defines.len()
            invariant
                defines == cfg.defines.deep_view(),
                j <= cfg.defines@.len(),
                out@ == head + (middle + define_lines(defines.take(j as int))),
            decreases cfg.defines@.len() - j,
        {
            push_define_line(&mut out, &cfg.defines[j]);
            proof {
                assert(defines.take(j + 1).drop_last() =~= defines.take(j as int));
                assert(out@ =~= head + (middle + define_lines(defines.take(j + 1))));
            }
            j += 1;
        }
        proof {
            assert(defines.take(j as int) =~= defines);
        }
    } else {
        proof {
            assert(out@ =~= head + defines_part(defines));
        }
    }
    out.push_str("\n");
    out.push_str(CRATE_HYGIENE);
    out.push_str(SYMBOL_FIDELITY);
    out
}

} // verus!
