use harvest_tools::build_config::ir::{
    BuildConfigIR, ConfigVarKind, ConfigVariable, DefineKind, DefineMapping,
};
use harvest_tools::emit_build_features::{apply, default_features, needs_build_script};
use harvest_tools::fs::RawDir;

fn boolean(name: &str, default: Option<&str>) -> ConfigVariable {
    ConfigVariable {
        name: name.into(),
        kind: ConfigVarKind::Boolean,
        default: default.map(str::to_owned),
    }
}

fn enum_var(name: &str, values: &[&str], default: Option<&str>) -> ConfigVariable {
    ConfigVariable {
        name: name.into(),
        kind: ConfigVarKind::Enum {
            values: values.iter().map(|v| (*v).to_owned()).collect(),
            numeric: values.iter().all(|v| v.parse::<i64>().is_ok()),
        },
        default: default.map(str::to_owned),
    }
}

#[test]
fn default_features_picks_enum_default() {
    let v = vec![enum_var("BACKEND", &["alpha", "beta"], Some("alpha"))];
    assert_eq!(default_features(&v), vec!["BACKEND_alpha"]);
}

#[test]
fn default_features_falls_back_to_first_value() {
    let v = vec![enum_var("BACKEND", &["alpha", "beta"], None)];
    assert_eq!(default_features(&v), vec!["BACKEND_alpha"]);
}

#[test]
fn default_features_unknown_default_falls_back() {
    let v = vec![enum_var("BACKEND", &["alpha", "beta"], Some("gamma"))];
    assert_eq!(default_features(&v), vec!["BACKEND_alpha"]);
}

#[test]
fn default_features_boolean_true_only() {
    let v = vec![
        boolean("ENABLE_EXTRA", Some("true")),
        boolean("DISABLED", Some("false")),
        boolean("UNSET", None),
    ];
    assert_eq!(default_features(&v), vec!["ENABLE_EXTRA"]);
}

#[test]
fn default_features_sorted() {
    let v = vec![
        enum_var("B", &["x", "y"], Some("x")),
        enum_var("A", &["1", "2"], Some("2")),
    ];
    assert_eq!(default_features(&v), vec!["A_2", "B_x"]);
}

#[test]
fn needs_build_script_for_enum() {
    let ir = BuildConfigIR {
        variables: vec![enum_var("BACKEND", &["alpha", "beta"], Some("alpha"))],
        ..Default::default()
    };
    assert!(needs_build_script(&ir));
}

#[test]
fn needs_build_script_for_define() {
    let ir = BuildConfigIR {
        defines: vec![DefineMapping {
            c_name: "WORD_SIZE".into(),
            kind: DefineKind::Bare {
                var: "WORD_SIZE".into(),
            },
            source_vars: vec!["WORD_SIZE".into()],
        }],
        ..Default::default()
    };
    assert!(needs_build_script(&ir));
}

#[test]
fn no_build_script_for_pure_booleans() {
    let ir = BuildConfigIR {
        variables: vec![boolean("ENABLE_EXTRA", Some("false"))],
        ..Default::default()
    };
    assert!(!needs_build_script(&ir));
}

#[test]
fn no_build_script_for_gated_define_only() {
    let ir = BuildConfigIR {
        variables: vec![boolean("ENABLE_EXTRA", Some("false"))],
        defines: vec![DefineMapping {
            c_name: "ENABLE_EXTRA".into(),
            kind: DefineKind::GatedFlag {
                gate_var: "ENABLE_EXTRA".into(),
            },
            source_vars: vec!["ENABLE_EXTRA".into()],
        }],
        ..Default::default()
    };
    assert!(!needs_build_script(&ir));
}

/// Build the canonical `example_P02`-style IR: 4 variables (APP_MODE,
/// BACKEND, ENABLE_EXTRA, WORD_SIZE), 4 defines (APP_MODE_STR, WORD_SIZE,
/// BUILD_PROFILE, ENABLE_EXTRA).
fn example_p02_ir() -> BuildConfigIR {
    BuildConfigIR {
        variables: vec![
            ConfigVariable {
                name: "APP_MODE".into(),
                kind: ConfigVarKind::Enum {
                    values: vec!["fast".into(), "safe".into()],
                    numeric: false,
                },
                default: Some("fast".into()),
            },
            ConfigVariable {
                name: "BACKEND".into(),
                kind: ConfigVarKind::Enum {
                    values: vec!["alpha".into(), "beta".into()],
                    numeric: false,
                },
                default: Some("alpha".into()),
            },
            ConfigVariable {
                name: "ENABLE_EXTRA".into(),
                kind: ConfigVarKind::Boolean,
                default: Some("false".into()),
            },
            ConfigVariable {
                name: "WORD_SIZE".into(),
                kind: ConfigVarKind::Enum {
                    values: vec!["32".into(), "64".into()],
                    numeric: true,
                },
                default: Some("32".into()),
            },
        ],
        defines: vec![
            DefineMapping {
                c_name: "APP_MODE_STR".into(),
                kind: DefineKind::QuotedString {
                    var: "APP_MODE".into(),
                },
                source_vars: vec!["APP_MODE".into()],
            },
            DefineMapping {
                c_name: "WORD_SIZE".into(),
                kind: DefineKind::Bare {
                    var: "WORD_SIZE".into(),
                },
                source_vars: vec!["WORD_SIZE".into()],
            },
            DefineMapping {
                c_name: "BUILD_PROFILE".into(),
                kind: DefineKind::Composed {
                    template: "{BACKEND}_{WORD_SIZE}".into(),
                },
                source_vars: vec!["BACKEND".into(), "WORD_SIZE".into()],
            },
            DefineMapping {
                c_name: "ENABLE_EXTRA".into(),
                kind: DefineKind::GatedFlag {
                    gate_var: "ENABLE_EXTRA".into(),
                },
                source_vars: vec!["ENABLE_EXTRA".into()],
            },
        ],
        source_selections: vec![],
        conditional_targets: vec![],
        subdir_selections: vec![],
        is_empty: false,
    }
}

/// The build script handed to `apply`; its text is of no concern here.
const BUILD_RS: &str = "fn main() {}\n";

fn skeleton_package() -> RawDir {
    let mut dir = RawDir::new();
    dir.set_file(
        "Cargo.toml",
        b"[package]\nname = \"preset_skeleton\"\nversion = \"0.1.0\"\nedition = \"2024\"\n"
            .to_vec(),
    );
    dir
}

#[test]
fn example_p02_produces_expected_features() {
    let pkg = skeleton_package();
    let ir = example_p02_ir();
    let pkg = apply(pkg, &ir, BUILD_RS).expect("apply succeeded");

    let cargo_bytes = pkg.get_file("Cargo.toml").expect("Cargo.toml present");
    let cargo = std::str::from_utf8(cargo_bytes).unwrap();

    for expected in [
        "APP_MODE_fast = []",
        "APP_MODE_safe = []",
        "BACKEND_alpha = []",
        "BACKEND_beta = []",
        "ENABLE_EXTRA = []",
        "WORD_SIZE_32 = []",
        "WORD_SIZE_64 = []",
    ] {
        assert!(
            cargo.contains(expected),
            "missing `{expected}` in Cargo.toml:\n{cargo}"
        );
    }
}

#[test]
fn example_p02_sets_default_features_to_recorded_defaults() {
    let pkg = skeleton_package();
    let ir = example_p02_ir();
    let pkg = apply(pkg, &ir, BUILD_RS).expect("apply succeeded");

    let cargo_bytes = pkg.get_file("Cargo.toml").expect("Cargo.toml present");
    let cargo = std::str::from_utf8(cargo_bytes).unwrap();

    // ENABLE_EXTRA default is false -> it must NOT appear in the default list.
    // APP_MODE default fast -> APP_MODE_fast.
    // BACKEND default alpha -> BACKEND_alpha.
    // WORD_SIZE default 32 -> WORD_SIZE_32.
    // Defaults are sorted.
    assert!(
        cargo.contains("default = [\"APP_MODE_fast\", \"BACKEND_alpha\", \"WORD_SIZE_32\"]"),
        "unexpected default list in Cargo.toml:\n{cargo}"
    );
}

#[test]
fn example_p02_sets_build_script() {
    let pkg = skeleton_package();
    let ir = example_p02_ir();
    let pkg = apply(pkg, &ir, BUILD_RS).expect("apply succeeded");

    let cargo_bytes = pkg.get_file("Cargo.toml").expect("Cargo.toml present");
    let cargo = std::str::from_utf8(cargo_bytes).unwrap();
    assert!(
        cargo.contains("build = \"build.rs\""),
        "missing [package].build in Cargo.toml:\n{cargo}"
    );
}

/// An empty configuration leaves the package as it is, byte for byte.
#[test]
fn empty_ir_round_trips_cargo_package() {
    let pkg = skeleton_package();
    let original = pkg
        .get_file("Cargo.toml")
        .expect("Cargo.toml present")
        .to_vec();
    let ir = BuildConfigIR {
        is_empty: true,
        ..Default::default()
    };
    let pkg = apply(pkg, &ir, BUILD_RS).expect("apply succeeded on empty IR");

    assert_eq!(pkg.get_file("Cargo.toml").unwrap(), &original);
    assert!(
        pkg.get_file("build.rs").is_none(),
        "empty IR must not produce a build.rs"
    );
}
