use harvest_tools::build_config::handlers::{enumerate_variants, rewrite_composed_defines};
use harvest_tools::build_config::ir::{BuildConfigIR, DefineKind, DefineMapping};
use harvest_tools::build_config::lexer::{
    join_statements, strip_comments, substitute_var_template, tokenize_args,
};
use harvest_tools::build_config::scanner::{scan, scan_configured};
use harvest_tools::build_config::variables::{
    build_variables, configuration_from, parse_configuration_json, ConfigValue,
};
use harvest_tools::build_config::BuildConfig;
use harvest_tools::fs::RawDir;
use harvest_tools::json::{has_repeated_key, Json};
use harvest_tools::names::{NameMap, NameSet};
use harvest_tools::path::{components, extension, file_name, normalize_join};

fn dir(files: &[(&str, &str)]) -> RawDir {
    let mut out = RawDir::new();
    for (path, text) in files {
        out.set_file(path, text.as_bytes().to_vec());
    }
    out
}

fn names(list: &[&str]) -> NameSet {
    let mut out = NameSet::new();
    for name in list {
        out.insert(name);
    }
    out
}

#[test]
fn missing_configuration_json_yields_is_empty() {
    let ir = scan(&dir(&[("CMakeLists.txt", "add_executable(a a.c)\n")]));
    assert!(ir.is_empty);
    assert!(ir.variables.is_empty());
    assert!(ir.defines.is_empty());
    assert!(ir.source_selections.is_empty());
    assert!(ir.conditional_targets.is_empty());
}

#[test]
fn ir_display_for_empty_ir() {
    let ir = BuildConfig.run(&RawDir::new());
    assert_eq!(ir.summary(), "BuildConfigIR { empty }");
    assert_eq!(ir, BuildConfigIR::empty());
}

#[test]
fn ir_display_matches_summary_format() {
    let source = dir(&[("configuration.json", r#"{"configurable_variables": {"A": [true]}}"#)]);
    let s = scan(&source).summary();
    assert!(s.starts_with("BuildConfigIR {"), "unexpected display: {s}");
    assert!(s.contains("vars"));
    assert!(s.contains("defines"));
}

#[test]
fn the_ir_lists_the_declared_variables_in_order() {
    let source = dir(&[(
        "configuration.json",
        r#"{"configurable_variables": {"Z": ["1"], "A": [true, false], "M": [1, 2.5]}}"#,
    )]);
    let ir = scan(&source);
    let listed: Vec<&str> = ir.variables.iter().map(|v| v.name.as_str()).collect();
    assert_eq!(listed, vec!["A", "M", "Z"]);
    assert!(!ir.is_empty);
}

#[test]
fn values_keep_their_kind() {
    let config = parse_configuration_json(
        br#"{"other": 1, "configurable_variables": {"V": ["x", true, 7, null, {"k": []}]}}"#,
    )
    .unwrap();
    assert_eq!(
        config.variables,
        vec![(
            "V".to_string(),
            vec![
                ConfigValue::Text("x".to_string()),
                ConfigValue::Bool(true),
                ConfigValue::Number("7".to_string()),
                ConfigValue::Other,
                ConfigValue::Other,
            ]
        )]
    );
}

#[test]
fn a_configuration_is_an_object_of_arrays() {
    assert!(parse_configuration_json(b"\xff").is_none());
    assert!(parse_configuration_json(b"7").is_none());
    assert!(parse_configuration_json(br#"{"configurable_variables": {"A": 1}}"#).is_none());
    assert!(parse_configuration_json(br#"{"configurable_variables": null}"#).is_none());
    // A record may be written as the list of its members.
    assert_eq!(parse_configuration_json(br#"[{"A": []}]"#).unwrap().variables.len(), 1);
    assert!(parse_configuration_json(b"[]").unwrap().variables.is_empty());
    assert!(parse_configuration_json(b"[{}, {}]").is_none());
    assert!(configuration_from(&Json::Null).is_none());
    // The variables are given once, however their key is spelled.
    let twice = br#"{"configurable_variables": {}, "configurable_variables": {"A": []}}"#;
    assert!(parse_configuration_json(twice).is_none());
    let spelled = br#"{"configurable_variables": {}, "\u0063onfigurable_variables" : {}}"#;
    assert!(parse_configuration_json(spelled).is_none());
    let inner = br#"{"a": {"configurable_variables": 1}, "b": "configurable_variables\":",
        "b": [], "configurable_variables": {"configurable_variables": []}}"#;
    assert_eq!(parse_configuration_json(inner).unwrap().variables.len(), 1);
    assert!(has_repeated_key(r#"{"k": 1, "k": 2}"#, "k"));
    assert!(!has_repeated_key(r#"{"k": ["k", {"k": 2}]}"#, "k"));
}

#[test]
fn a_numeric_variable_has_only_integers() {
    let config = parse_configuration_json(
        br#"{"configurable_variables": {"A": [1, "2"], "B": [1, 2.5], "C": ["x"]}}"#,
    )
    .unwrap();
    let vars = build_variables(&config, &NameMap::new());
    let numeric: Vec<bool> = vars
        .iter()
        .map(|v| match &v.kind {
            harvest_tools::build_config::ir::ConfigVarKind::Enum { numeric, .. } => *numeric,
            other => panic!("unexpected {other:?}"),
        })
        .collect();
    assert_eq!(numeric, vec![true, false, false]);
}

#[test]
fn a_variable_that_selects_its_own_directory_ends() {
    let source = dir(&[
        ("configuration.json", r#"{"configurable_variables": {"V": ["."]}}"#),
        ("CMakeLists.txt", "add_subdirectory(${V})\nadd_compile_definitions(X=${V})\n"),
    ]);
    let ir = scan(&source);
    assert!(!ir.is_empty);
    assert_eq!(ir.variables.len(), 1);
    assert_eq!(ir.defines.len(), 1);
    assert!(ir.subdir_selections.iter().all(|s| s.variants.is_empty()));
}

#[test]
fn variants_that_select_each_other_end() {
    let source = dir(&[
        ("configuration.json", r#"{"configurable_variables": {"V": ["a"], "W": ["../b"]}}"#),
        ("CMakeLists.txt", "add_subdirectory(${V})\n"),
        ("a/CMakeLists.txt", "add_subdirectory(${W})\nadd_compile_definitions(X=${V})\n"),
        ("b/CMakeLists.txt", "add_subdirectory(../${V})\nadd_compile_definitions(Y=${W})\n"),
    ]);
    let ir = scan(&source);
    assert_eq!(ir.subdir_selections.len(), 1);
    let a = &ir.subdir_selections[0].variants[0];
    assert_eq!(a.path, "a");
    assert_eq!(a.subdir_selections[0].variants[0].path, "b");
}

#[test]
fn a_configured_scan_reads_the_selected_directory() {
    let source = dir(&[
        ("configuration.json", r#"{"configurable_variables": {"V": ["a"]}}"#),
        ("CMakeLists.txt", "add_subdirectory(${V})\n"),
        ("a/CMakeLists.txt", "add_compile_definitions(X=${V})\n"),
    ]);
    let config = parse_configuration_json(source.get_file("configuration.json").unwrap());
    let ir = scan_configured(&source, config.as_ref());
    assert_eq!(scan(&source), ir);
    assert_eq!(ir.subdir_selections[0].variants[0].path, "a");
    assert_eq!(scan_configured(&source, None), BuildConfigIR::empty());
}

#[test]
fn a_define_under_else_is_not_gated() {
    let script = |body: &str| {
        dir(&[
            ("configuration.json", r#"{"configurable_variables": {"FLAG": [true, false]}}"#),
            ("CMakeLists.txt", body),
        ])
    };
    let gated = |ir: &BuildConfigIR| {
        ir.defines.iter().any(|d| {
            d.c_name == "X" && d.kind == DefineKind::GatedFlag { gate_var: "FLAG".to_string() }
        })
    };
    assert!(gated(&scan(&script("if(FLAG)\nadd_definitions(-DX)\nendif()\n"))));
    assert!(!gated(&scan(&script("if(FLAG)\nelse()\nadd_definitions(-DX)\nendif()\n"))));
}

#[test]
fn directories_that_add_each_other_are_read_once() {
    let source = dir(&[
        ("configuration.json", r#"{"configurable_variables": {"V": ["1"]}}"#),
        ("CMakeLists.txt", "add_subdirectory(a)\n"),
        ("a/CMakeLists.txt", "add_compile_definitions(X=${V})\nadd_subdirectory(../a)\nadd_subdirectory(..)\n"),
    ]);
    assert_eq!(scan(&source).defines.len(), 1);
}

#[test]
fn gates_end_with_their_block() {
    let source = dir(&[
        ("configuration.json", r#"{"configurable_variables": {"EXTRA": [true, false]}}"#),
        (
            "CMakeLists.txt",
            "if(EXTRA)\nadd_library(extra x.c)\nendif()\nadd_library(always y.c)\n",
        ),
        ("x.c", ""),
        ("y.c", ""),
    ]);
    let ir = scan(&source);
    assert_eq!(ir.conditional_targets.len(), 1);
    assert_eq!(ir.conditional_targets[0].target, "extra");
    assert_eq!(ir.conditional_targets[0].gate_var, "EXTRA");
}

#[test]
fn variants_come_in_order_and_exist() {
    let files = names(&["b_z.c", "b_a.c", "b_m.c", "other.c"]);
    let variants = enumerate_variants("b_${V}.c", "V", &files);
    let values: Vec<&str> = variants.iter().map(|v| v.value.as_str()).collect();
    assert_eq!(values, vec!["a", "m", "z"]);
    for v in &variants {
        assert!(files.contains(&v.files[0]));
    }
}

#[test]
fn rewriting_twice_changes_nothing_more() {
    let define = || DefineMapping {
        c_name: "P".to_string(),
        kind: DefineKind::Bare { var: "PROFILE".to_string() },
        source_vars: vec!["PROFILE".to_string()],
    };
    let mut composed = NameMap::new();
    composed.insert("PROFILE", "${A}_${B}".to_string());
    let mut defines = vec![define()];
    rewrite_composed_defines(&mut defines, &composed, &names(&["A", "B"]));
    let mut again = vec![define()];
    rewrite_composed_defines(&mut again, &composed, &names(&["A", "B"]));
    rewrite_composed_defines(&mut again, &composed, &names(&["A", "B"]));
    assert_eq!(defines, again);
    assert_eq!(defines[0].source_vars, vec!["A", "B"]);
}

#[test]
fn stripping_comments_twice_changes_nothing_more() {
    let text = "set(A \"#\") # one\n# two\nset(B 1)";
    let once = strip_comments(text);
    assert_eq!(once, "set(A \"#\") \n\nset(B 1)");
    assert_eq!(strip_comments(&once), once);
}

#[test]
fn scripts_are_read_by_characters() {
    assert_eq!(tokenize_args("é \"ü ö\""), vec!["é", "\"ü ö\""]);
    assert_eq!(strip_comments("é"), "é");
    assert_eq!(strip_comments("é # ü\nö"), "é \nö");
    let statements = join_statements("set(A é)\n");
    assert_eq!(statements[0].args, vec!["A", "é"]);
    let known = names(&["V"]);
    assert_eq!(substitute_var_template("é${V}ü", &known), "é{V}ü");
}

#[test]
fn paths_never_leave_the_project() {
    assert_eq!(normalize_join("a/b", "../c/./d"), Some("a/c/d".to_string()));
    assert_eq!(normalize_join("a", "/etc"), None);
    assert_eq!(normalize_join("", ".."), None);
    // Joining in two steps is joining at once.
    let step = normalize_join("a/b", "../c").unwrap();
    assert_eq!(normalize_join(&step, "../d"), normalize_join("a/b", "../c/../d"));
    assert_eq!(normalize_join(&step, "../d"), Some("a/d".to_string()));
    assert_eq!(components("/a//b/./c"), vec!["a", "b", "c"]);
    assert_eq!(file_name("a/b.c"), Some("b.c".to_string()));
    assert_eq!(file_name("a/.."), None);
    assert_eq!(extension("a/b.tar.gz"), Some("gz".to_string()));
    assert_eq!(extension(".hidden"), None);
}
