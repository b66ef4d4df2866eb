use harvest_tools::agentic::{
    chat_command, extract_cmake_flags, load_prompt, prefixes_left_behind, verify_prompt, AgenticTool,
    BuiltinPrompts,
};
use harvest_tools::build_config::ir::{
    BuildConfigIR, ConditionalTarget, ConfigVarKind, ConfigVariable, DefineKind, DefineMapping,
    SourceSelection,
};
use harvest_tools::build_project_spec::{BuildProjectSpec, ProjectKind, ProjectSpec};
use harvest_tools::cargo_toml::CargoToml;
use harvest_tools::emit_build_features::{
    apply, apply_features_to_cargo, default_features, feature_names, read_manifest, ManifestError,
};
use harvest_tools::fs::RawDir;
use harvest_tools::normalize_cargo::NormalizeCargo;
use harvest_tools::translate_agentic::{
    agent_command, canonical_crate_name, post_process, project_scaffold, AgentKind,
    TranslateAgentic, RUST_TOOLCHAIN_TOML,
};

fn open(text: &str) -> CargoToml {
    CargoToml::open(text).expect("the manifest is TOML")
}

fn dir(files: &[(&str, &[u8])]) -> RawDir {
    let mut out = RawDir::new();
    for (path, bytes) in files {
        out.set_file(path, bytes.to_vec());
    }
    out
}

fn text<'a>(dir: &'a RawDir, path: &str) -> &'a str {
    std::str::from_utf8(dir.get_file(path).unwrap()).unwrap()
}

const PACKAGE: &str = "[package]\nname = \"my-lib\"\nversion = \"0.1.0\"\n";

#[test]
fn a_manifest_has_to_be_toml() {
    assert!(CargoToml::open("[package").is_none());
    assert_eq!(open(PACKAGE).save(), PACKAGE);
    assert_eq!(open(PACKAGE).package_name().as_deref(), Some("my-lib"));
    assert_eq!(open("[lib]\n").package_name(), None);
    assert_eq!(open("[package]\nname = 3\n").package_name(), None);
}

#[test]
fn a_library_is_built_for_c() {
    let mut m = open(PACKAGE);
    m.set_lib("core");
    let text = m.save();
    assert!(text.contains("[lib]\n"), "{text}");
    assert!(text.contains("name = \"core\""), "{text}");
    assert!(text.contains("crate-type = [\"cdylib\"]"), "{text}");
    // Naming it again keeps one section.
    m.set_lib("core");
    assert_eq!(m.save().matches("[lib]").count(), 1);
}

#[test]
fn the_first_binary_is_the_driver() {
    let mut m = open(PACKAGE);
    m.set_bin_driver();
    let text = m.save();
    assert!(text.contains("[[bin]]"), "{text}");
    assert!(text.contains("name = \"driver\""), "{text}");
    assert!(text.contains("path = \"src/main.rs\""), "{text}");
    m.set_bin_driver();
    assert_eq!(m.save(), text);
    let mut other = open("[[bin]]\nname = \"app\"\npath = \"src/app.rs\"\n");
    other.set_bin_driver();
    assert_eq!(other.save(), "[[bin]]\nname = \"driver\"\npath = \"src/app.rs\"\n");
    other.remove_bin();
    assert_eq!(other.save().trim(), "");
}

#[test]
fn a_workspace_is_added_once() {
    let mut m = open(PACKAGE);
    m.add_workspace();
    let text = m.save();
    assert_eq!(text.matches("[workspace]").count(), 1);
    m.add_workspace();
    assert_eq!(m.save(), text);
    let mut kept = open("[workspace]\nmembers = [\"a\"]\n");
    kept.add_workspace();
    assert_eq!(kept.save(), "[workspace]\nmembers = [\"a\"]\n");
}

#[test]
fn features_enable_nothing_else() {
    let mut m = open(PACKAGE);
    m.add_features(&vec!["A".to_string(), "B_x".to_string()]);
    m.set_default_features(&vec!["B_x".to_string()]);
    m.set_package("build", "build.rs");
    let text = m.save();
    assert!(text.contains("A = []"), "{text}");
    assert!(text.contains("B_x = []"), "{text}");
    assert!(text.contains("default = [\"B_x\"]"), "{text}");
    assert!(text.contains("build = \"build.rs\""), "{text}");
}

fn boolean(name: &str, default: Option<&str>) -> ConfigVariable {
    ConfigVariable {
        name: name.to_string(),
        kind: ConfigVarKind::Boolean,
        default: default.map(str::to_string),
    }
}

fn choice(name: &str, values: &[&str], default: Option<&str>) -> ConfigVariable {
    ConfigVariable {
        name: name.to_string(),
        kind: ConfigVarKind::Enum {
            values: values.iter().map(|v| v.to_string()).collect(),
            numeric: false,
        },
        default: default.map(str::to_string),
    }
}

fn configured() -> BuildConfigIR {
    BuildConfigIR {
        variables: vec![
            choice("MODE", &["fast", "safe"], Some("safe")),
            boolean("EXTRA", Some("true")),
        ],
        ..Default::default()
    }
}

#[test]
fn every_default_is_a_feature() {
    let cfg = configured();
    let features = feature_names(&cfg.variables);
    assert_eq!(features, vec!["MODE_fast", "MODE_safe", "EXTRA"]);
    let defaults = default_features(&cfg.variables);
    assert_eq!(defaults, vec!["EXTRA", "MODE_safe"]);
    assert!(defaults.iter().all(|d| features.contains(d)));
    assert!(default_features(&vec![choice("NONE", &[], None)]).is_empty());
}

#[test]
fn emitting_needs_a_readable_manifest() {
    let cfg = configured();
    assert_eq!(apply(RawDir::new(), &cfg, "").err(), Some(ManifestError::NoManifest));
    let bytes = dir(&[("Cargo.toml", b"\xff")]);
    assert_eq!(read_manifest(&bytes).err(), Some(ManifestError::NotUtf8));
    assert_eq!(apply(bytes, &cfg, "").err(), Some(ManifestError::NotUtf8));
    let broken = dir(&[("Cargo.toml", b"[x")]);
    assert_eq!(apply(broken, &cfg, "").err(), Some(ManifestError::NotToml));
}

#[test]
fn emitting_writes_the_build_script_it_is_given() {
    let package = dir(&[("Cargo.toml", PACKAGE.as_bytes()), ("src/lib.rs", b"// kept")]);
    let out = apply(package, &configured(), "fn main() { /* script */ }").unwrap();
    assert_eq!(text(&out, "build.rs"), "fn main() { /* script */ }");
    assert_eq!(text(&out, "src/lib.rs"), "// kept");
    assert!(text(&out, "Cargo.toml").contains("default = [\"EXTRA\", \"MODE_safe\"]"));
    // Booleans alone need no script.
    let cfg = BuildConfigIR { variables: vec![boolean("EXTRA", None)], ..Default::default() };
    let out = apply(dir(&[("Cargo.toml", PACKAGE.as_bytes())]), &cfg, "x").unwrap();
    assert!(out.get_file("build.rs").is_none());
    assert!(text(&out, "Cargo.toml").contains("EXTRA = []"));
}

#[test]
fn an_empty_configuration_leaves_the_manifest() {
    let mut m = open(PACKAGE);
    assert!(!apply_features_to_cargo(&mut m, &BuildConfigIR::empty()));
    assert_eq!(m.save(), PACKAGE);
    assert!(apply_features_to_cargo(&mut m, &configured()));
}

#[test]
fn a_normalized_package_stays_normalized() {
    let once = NormalizeCargo.run(dir(&[("Cargo.toml", PACKAGE.as_bytes())])).unwrap();
    let first = text(&once, "Cargo.toml").to_string();
    let twice = NormalizeCargo.run(once).unwrap();
    assert_eq!(text(&twice, "Cargo.toml"), first);
    assert_eq!(NormalizeCargo.run(RawDir::new()).err(), Some(ManifestError::NoManifest));
}

#[test]
fn a_scaffold_fits_its_kind() {
    let library =
        project_scaffold("core", ProjectKind::Library, &configured(), "script").unwrap();
    assert!(library.cargo_toml.contains("crate-type = [\"cdylib\"]"));
    assert!(library.cargo_toml.contains("[workspace]"));
    assert!(library.cargo_toml.contains("MODE_fast = []"));
    assert_eq!(library.build_rs.as_deref(), Some("script"));
    assert_eq!(library.rust_toolchain_toml, RUST_TOOLCHAIN_TOML);
    let program =
        project_scaffold("app", ProjectKind::Executable, &BuildConfigIR::empty(), "x").unwrap();
    assert!(program.cargo_toml.contains("name = \"driver\""));
    assert_eq!(program.build_rs, None);
    assert!(project_scaffold("a\"b", ProjectKind::Library, &configured(), "").is_none());
    assert_eq!(canonical_crate_name("zlib"), "zlib");
    assert_eq!(canonical_crate_name(""), "translated_crate");
}

#[test]
fn a_finished_manifest_is_fixed_up() {
    let mut m = open("[package]\nname = \"core\"\n[[bin]]\nname = \"x\"\n");
    post_process(&mut m, ProjectKind::Library);
    let text = m.save();
    assert!(!text.contains("[[bin]]"), "{text}");
    assert!(text.contains("[workspace]"), "{text}");
    assert!(text.contains("[lib]"), "{text}");
    let mut m = open(PACKAGE);
    post_process(&mut m, ProjectKind::Executable);
    assert!(m.save().contains("name = \"driver\""));
}

#[test]
fn what_the_agent_left_is_collected() {
    let left = dir(&[
        ("Cargo.toml", PACKAGE.as_bytes()),
        ("src/main.rs", b"m"),
        ("src/lib.rs", b"l"),
        ("tests/a.rs", b"t"),
        ("c_src/a.c", b"c"),
        ("target/x", b"x"),
    ]);
    let library = TranslateAgentic.collect(&left, ProjectKind::Library).unwrap();
    assert!(library.get_file("src/lib.rs").is_some());
    for gone in ["src/main.rs", "tests/a.rs", "c_src/a.c", "target/x"] {
        assert!(library.get_file(gone).is_none(), "{gone}");
    }
    let program = TranslateAgentic.collect(&left, ProjectKind::Executable).unwrap();
    assert!(program.get_file("src/main.rs").is_some());
    assert!(program.get_file("tests/a.rs").is_some());
    assert!(program.get_file("c_src/a.c").is_none());
    assert_eq!(
        TranslateAgentic.collect(&RawDir::new(), ProjectKind::Library).err(),
        Some(ManifestError::NoManifest)
    );
    assert_eq!(TranslateAgentic::default_timeout_secs(), 7200);
    let plain = AgenticTool.collect(&left).unwrap();
    assert!(plain.get_file("tests/a.rs").is_some());
    assert!(plain.get_file("c_src/a.c").is_none());
    assert_eq!(plain.get_file("Cargo.toml").unwrap(), PACKAGE.as_bytes());
    assert!(AgenticTool.collect(&RawDir::new()).is_none());
    assert_eq!(prefixes_left_behind(), vec!["c_src/", "target/"]);
}

#[test]
fn flags_come_from_the_second_preset() {
    let presets = r#"{"configurePresets": [{"cacheVariables": {"A": "1"}},
        {"cacheVariables": {"CMAKE_BUILD_TYPE": "Debug", "B": "2", "C": 3}}]}"#;
    assert_eq!(extract_cmake_flags(Some(presets)), "-DB=2 -DC=");
    assert_eq!(extract_cmake_flags(None), "");
    assert_eq!(extract_cmake_flags(Some("no json")), "");
    assert_eq!(extract_cmake_flags(Some("{}")), "");
    assert_eq!(
        verify_prompt("see CASE_DIR_PLACEHOLDER with CMAKE_BUILD_FLAGS", "/c", "-DA=1"),
        "see /c with -DA=1"
    );
}

#[test]
fn the_users_prompt_comes_first() {
    let builtin = BuiltinPrompts { executable: "e".to_string(), library: "l".to_string() };
    assert_eq!(load_prompt(None, None, ProjectKind::Executable, &builtin), "e");
    assert_eq!(load_prompt(Some("x"), None, ProjectKind::Library, &builtin), "l");
    assert_eq!(load_prompt(Some("x"), Some("y"), ProjectKind::Library, &builtin), "y");
}

#[test]
fn the_scripts_show_the_project_kind() {
    let source = dir(&[("CMakeLists.txt", b"add_library(core a.c)\n")]);
    let spec = BuildProjectSpec.run(&source, &BuildConfigIR::empty()).unwrap();
    assert_eq!(spec.kind, ProjectKind::Library);
    assert_eq!(spec.describe(), "ProjectSpec(kind=Library)");
    assert!(BuildProjectSpec.run(&RawDir::new(), &BuildConfigIR::empty()).is_none());
    let text = ProjectSpec { kind: ProjectKind::Executable }.describe();
    assert_eq!(text, "ProjectSpec(kind=Executable)");
}

#[test]
fn a_define_needs_a_build_script() {
    let cfg = BuildConfigIR {
        defines: vec![DefineMapping {
            c_name: "W".to_string(),
            kind: DefineKind::Bare { var: "W".to_string() },
            source_vars: vec!["W".to_string()],
        }],
        ..Default::default()
    };
    let out = apply(dir(&[("Cargo.toml", PACKAGE.as_bytes())]), &cfg, "s").unwrap();
    assert_eq!(text(&out, "build.rs"), "s");
}

#[test]
fn a_target_that_is_named_lib_is_a_library() {
    let selection = |target: &str| SourceSelection {
        target: target.to_string(),
        driving_var: "V".to_string(),
        variants: vec![],
    };
    let gated = |target: &str| ConditionalTarget {
        target: target.to_string(),
        gate_var: "G".to_string(),
        files: vec![],
    };
    let named = BuildConfigIR {
        source_selections: vec![selection("core_lib")],
        ..Default::default()
    };
    assert!(named.has_library_target());
    assert!(!named.has_executable_target());
    let spec = BuildProjectSpec.run(&RawDir::new(), &named).unwrap();
    assert_eq!(spec.kind, ProjectKind::Library);

    let program = BuildConfigIR {
        source_selections: vec![selection("driver")],
        conditional_targets: vec![gated("extra")],
        ..Default::default()
    };
    assert!(program.has_library_target());
    assert!(program.has_executable_target());

    let optional = BuildConfigIR {
        conditional_targets: vec![gated("extra")],
        ..Default::default()
    };
    assert!(optional.has_library_target());
    assert!(!optional.has_executable_target());
    assert!(!BuildConfigIR::empty().has_library_target());
}

#[test]
fn the_agents_are_stopped_after_their_time() {
    assert_eq!(
        chat_command("agent", 2700),
        "timeout 2700 agent chat --no-interactive --trust-all-tools \"$PROMPT\" < /dev/null 2>&1 | tee \"$LOG\""
    );
    let kiro = agent_command(AgentKind::Kiro, "agent", 7200);
    assert_eq!(kiro, format!("set -o pipefail; {}", chat_command("agent", 7200)));
    let other = agent_command(AgentKind::Claude, "agent", u64::MAX);
    assert!(other.starts_with(
        "set -o pipefail; timeout 18446744073709551615 agent -p \"$PROMPT\" --permission-mode "
    ));
    assert!(other.ends_with("--verbose < /dev/null 2>&1 | tee \"$LOG\""));
}
