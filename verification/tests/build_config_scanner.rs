use harvest_tools::build_config::handlers::{
    enumerate_variants, extract_defines_from_flags, extract_if_gate,
    handle_add_compile_definitions, handle_add_definitions, handle_option, handle_set,
    handle_target_compile_definitions, rewrite_composed_defines, ScannedCmake,
};
use harvest_tools::build_config::ir::{ConfigVarKind, DefineKind, DefineMapping};
use harvest_tools::build_config::lexer::{
    arg_text, as_single_var_ref, find_var_refs, is_cmake_ident_char, join_statements,
    strip_comments, substitute_var_template, tokenize_args, unquote,
};
use harvest_tools::build_config::scanner::scan;
use harvest_tools::build_config::variables::{
    build_variables, parse_configuration_json, ConfigValue, Configuration,
};
use harvest_tools::fs::RawDir;
use harvest_tools::names::{NameMap, NameSet};
use harvest_tools::path::{normalize_join, prefix_source_path};


fn known(names: &[&str]) -> NameSet {
    let mut out = NameSet::new();
    for name in names {
        out.insert(name);
    }
    out
}

fn files(paths: &[&str]) -> NameSet {
    known(paths)
}

// ---------- character classes & low-level scanners ----------

#[test]
fn is_cmake_ident_char_accepts_alnum_and_underscore() {
    for c in b'a'..=b'z' {
        assert!(is_cmake_ident_char(c));
    }
    for c in b'A'..=b'Z' {
        assert!(is_cmake_ident_char(c));
    }
    for c in b'0'..=b'9' {
        assert!(is_cmake_ident_char(c));
    }
    assert!(is_cmake_ident_char(b'_'));
}

#[test]
fn is_cmake_ident_char_rejects_symbols_and_whitespace() {
    for c in [b' ', b'\t', b'\n', b'-', b'.', b'(', b')', b'$', b'{', b'}'] {
        assert!(!is_cmake_ident_char(c), "should reject 0x{c:02x}");
    }
}

// ---------- strip_comments ----------

#[test]
fn strip_comments_removes_full_line_comment() {
    let out = strip_comments("# only a comment\nset(X 1)\n");
    assert_eq!(out, "\nset(X 1)\n");
}

#[test]
fn strip_comments_removes_trailing_comment() {
    let out = strip_comments("set(X 1) # trailing\n");
    assert_eq!(out, "set(X 1) \n");
}

#[test]
fn strip_comments_preserves_hash_inside_double_quotes() {
    let out = strip_comments(r#"set(X "a#b")"#);
    assert_eq!(out, r#"set(X "a#b")"#);
}

#[test]
fn strip_comments_handles_escaped_quote_inside_string() {
    // Inside the quoted region, `\"` does NOT close the string, so the `#`
    // remains inside the quote and is preserved.
    let out = strip_comments(r##"set(X "a\"#b")"##);
    assert_eq!(out, r##"set(X "a\"#b")"##);
}

// ---------- tokenize_args ----------

#[test]
fn tokenize_args_splits_on_whitespace() {
    assert_eq!(
        tokenize_args("A B C"),
        vec!["A".to_string(), "B".to_string(), "C".to_string()]
    );
}

#[test]
fn tokenize_args_preserves_outer_quotes_on_quoted_args() {
    assert_eq!(
        tokenize_args(r#"NAME "a b c" TAIL"#),
        vec![
            "NAME".to_string(),
            r#""a b c""#.to_string(),
            "TAIL".to_string()
        ]
    );
}

#[test]
fn tokenize_args_handles_escaped_quote_inside_string() {
    // The escaped `\"` does not close the string; the whole `"x\"y"` is
    // one argument.
    assert_eq!(tokenize_args(r#""x\"y""#), vec![r#""x\"y""#.to_string()]);
}

#[test]
fn tokenize_args_empty_returns_empty() {
    assert!(tokenize_args("").is_empty());
    assert!(tokenize_args("   \t\n  ").is_empty());
}

// ---------- join_statements ----------

#[test]
fn join_statements_one_per_logical_command() {
    let stmts = join_statements("set(A 1)\noption(B \"doc\" ON)\n");
    assert_eq!(stmts.len(), 2);
    assert_eq!(stmts[0].command, "set");
    assert_eq!(stmts[0].args, vec!["A".to_string(), "1".to_string()]);
    assert_eq!(stmts[1].command, "option");
    assert_eq!(
        stmts[1].args,
        vec!["B".to_string(), r#""doc""#.to_string(), "ON".to_string()]
    );
}

#[test]
fn join_statements_joins_args_across_lines() {
    let stmts = join_statements("add_executable(\n  app\n  src/main.c\n  src/util.c\n)\n");
    assert_eq!(stmts.len(), 1);
    assert_eq!(stmts[0].command, "add_executable");
    assert_eq!(
        stmts[0].args,
        vec![
            "app".to_string(),
            "src/main.c".to_string(),
            "src/util.c".to_string(),
        ]
    );
}

#[test]
fn join_statements_strips_comments_first() {
    let stmts = join_statements("# header\nset(X 1) # trailer\n");
    assert_eq!(stmts.len(), 1);
    assert_eq!(stmts[0].command, "set");
    assert_eq!(stmts[0].args, vec!["X".to_string(), "1".to_string()]);
}

#[test]
fn join_statements_balances_nested_parens() {
    let stmts = join_statements("if(VAR AND (A OR B))\nset(X 1)\nendif()\n");
    assert_eq!(stmts.len(), 3);
    assert_eq!(stmts[0].command, "if");
    // The inner `(A OR B)` survives as its own tokens because tokenize_args
    // splits on whitespace and treats parens as ordinary characters.
    assert_eq!(
        stmts[0].args,
        vec![
            "VAR".to_string(),
            "AND".to_string(),
            "(A".to_string(),
            "OR".to_string(),
            "B)".to_string(),
        ]
    );
    assert_eq!(stmts[2].command, "endif");
}

#[test]
fn join_statements_treats_parens_inside_strings_as_literal() {
    let stmts = join_statements(r#"set(X "a)b") set(Y 1)"#);
    assert_eq!(stmts.len(), 2);
    assert_eq!(stmts[0].args, vec!["X".to_string(), r#""a)b""#.to_string()]);
}

// ---------- unquote / arg_text ----------

#[test]
fn unquote_returns_inner_for_quoted() {
    assert_eq!(unquote(r#""hello""#), Some("hello".to_string()));
}

#[test]
fn unquote_returns_none_for_unquoted() {
    assert_eq!(unquote("hello"), None);
}

#[test]
fn unquote_handles_escapes() {
    // `\"` -> `"`, `\\` -> `\`, other `\x` -> `x`.
    assert_eq!(unquote(r#""a\"b""#), Some(r#"a"b"#.to_string()));
    assert_eq!(unquote(r#""a\\b""#), Some(r"a\b".to_string()));
    assert_eq!(unquote(r#""a\nb""#), Some("anb".to_string()));
}

#[test]
fn unquote_rejects_too_short() {
    assert_eq!(unquote(""), None);
    assert_eq!(unquote(r#"""#), None);
}

#[test]
fn arg_text_strips_quotes_when_present() {
    assert_eq!(arg_text(r#""hi""#), "hi");
    assert_eq!(arg_text("hi"), "hi");
}

// ---------- as_single_var_ref ----------

#[test]
fn as_single_var_ref_matches_bare_var_ref() {
    assert_eq!(as_single_var_ref("${VAR}"), Some("VAR"));
    assert_eq!(as_single_var_ref("  ${VAR}  "), Some("VAR"));
}

#[test]
fn as_single_var_ref_rejects_concatenated() {
    assert_eq!(as_single_var_ref("${A}_${B}"), None);
    assert_eq!(as_single_var_ref("prefix_${VAR}"), None);
    assert_eq!(as_single_var_ref("${VAR}suffix"), None);
}

#[test]
fn as_single_var_ref_rejects_invalid_ident() {
    assert_eq!(as_single_var_ref("${has space}"), None);
    assert_eq!(as_single_var_ref("${a-b}"), None);
    assert_eq!(as_single_var_ref("${}"), None);
}

// ---------- find_var_refs ----------

#[test]
fn find_var_refs_returns_each_occurrence_in_order() {
    let refs = find_var_refs("${A}_${B}_${A}");
    let names: Vec<&str> = refs.iter().map(|(_, _, n)| n.as_str()).collect();
    assert_eq!(names, vec!["A", "B", "A"]);
}

#[test]
fn find_var_refs_records_byte_offsets() {
    let s = "x${VAR}y";
    let refs = find_var_refs(s);
    assert_eq!(refs.len(), 1);
    let (start, end, name) = &refs[0];
    assert_eq!(name, "VAR");
    assert_eq!(&s[*start..*end], "${VAR}");
}

#[test]
fn find_var_refs_ignores_malformed() {
    // No closing brace -> not a reference.
    assert!(find_var_refs("${VAR").is_empty());
    // Non-ident character inside braces -> not a reference.
    assert!(find_var_refs("${a-b}").is_empty());
    // `$` without `{` -> not a reference.
    assert!(find_var_refs("$VAR").is_empty());
}

// ---------- extract_if_gate ----------

#[test]
fn extract_if_gate_returns_known_var() {
    let args = vec!["BACKEND".to_string()];
    assert_eq!(
        extract_if_gate(&args, &known(&["BACKEND"])),
        Some("BACKEND".to_string()),
    );
}

#[test]
fn extract_if_gate_returns_none_for_unknown() {
    let args = vec!["OTHER".to_string()];
    assert_eq!(extract_if_gate(&args, &known(&["BACKEND"])), None);
}

#[test]
fn extract_if_gate_returns_none_for_empty() {
    assert_eq!(extract_if_gate(&vec![], &known(&["BACKEND"])), None);
}

#[test]
fn extract_if_gate_strips_quotes() {
    // `if("BACKEND")` should still recognize the variable.
    let args = vec![r#""BACKEND""#.to_string()];
    assert_eq!(
        extract_if_gate(&args, &known(&["BACKEND"])),
        Some("BACKEND".to_string()),
    );
}

// ---------- substitute_var_template ----------

#[test]
fn substitute_var_template_replaces_known() {
    let out = substitute_var_template("${A}_${B}", &known(&["A", "B"]));
    assert_eq!(out, "{A}_{B}");
}

#[test]
fn substitute_var_template_leaves_unknown_intact() {
    let out = substitute_var_template("${A}_${OTHER}", &known(&["A"]));
    assert_eq!(out, "{A}_${OTHER}");
}

#[test]
fn substitute_var_template_preserves_surrounding_text() {
    let out = substitute_var_template("prefix-${A}-mid-${B}-tail", &known(&["A", "B"]));
    assert_eq!(out, "prefix-{A}-mid-{B}-tail");
}

// ---------- parse_configuration_json ----------

fn declares(cfg: &Configuration, name: &str) -> bool {
    cfg.variables.iter().any(|(n, _)| n == name)
}

#[test]
fn parse_configuration_json_reads_valid_input() {
    let bytes = br#"{"configurable_variables": {"X": ["a","b"], "Y": [true,false]}}"#;
    let cfg = parse_configuration_json(bytes).expect("should parse");
    assert_eq!(cfg.variables.len(), 2);
    assert!(declares(&cfg, "X"));
    assert!(declares(&cfg, "Y"));
}

#[test]
fn parse_configuration_json_empty_object_yields_no_variables() {
    let cfg = parse_configuration_json(b"{}").expect("should parse");
    assert!(cfg.variables.is_empty());
}

#[test]
fn parse_configuration_json_returns_none_on_malformed() {
    assert!(parse_configuration_json(b"not json").is_none());
    assert!(parse_configuration_json(b"{\"configurable_variables\": []}").is_none());
}

// ---------- build_variables ----------

fn raw_cfg(pairs: Vec<(&str, Vec<ConfigValue>)>) -> Configuration {
    let variables = pairs.into_iter().map(|(k, v)| (k.to_string(), v)).collect();
    Configuration { variables }
}

#[test]
fn build_variables_classifies_booleans() {
    let cfg = raw_cfg(vec![("FLAG", vec![ConfigValue::Bool(true), ConfigValue::Bool(false)])]);
    let vars = build_variables(&cfg, &NameMap::new());
    assert_eq!(vars.len(), 1);
    assert_eq!(vars[0].name, "FLAG");
    assert_eq!(vars[0].kind, ConfigVarKind::Boolean);
}

#[test]
fn build_variables_classifies_string_enum() {
    let cfg = raw_cfg(vec![(
        "MODE",
        vec![ConfigValue::Text("fast".into()), ConfigValue::Text("safe".into())],
    )]);
    let vars = build_variables(&cfg, &NameMap::new());
    assert_eq!(
        vars[0].kind,
        ConfigVarKind::Enum {
            values: vec!["fast".into(), "safe".into()],
            numeric: false,
        }
    );
}

#[test]
fn build_variables_classifies_numeric_enum_from_numbers() {
    let cfg = raw_cfg(vec![(
        "BITS",
        vec![
            ConfigValue::Number("32".into()),
            ConfigValue::Number("64".into()),
        ],
    )]);
    let vars = build_variables(&cfg, &NameMap::new());
    assert_eq!(
        vars[0].kind,
        ConfigVarKind::Enum {
            values: vec!["32".into(), "64".into()],
            numeric: true,
        }
    );
}

#[test]
fn build_variables_classifies_numeric_enum_from_numeric_strings() {
    // Strings that parse as i64 keep `numeric: true`.
    let cfg = raw_cfg(vec![(
        "BITS",
        vec![ConfigValue::Text("32".into()), ConfigValue::Text("64".into())],
    )]);
    let vars = build_variables(&cfg, &NameMap::new());
    assert_eq!(
        vars[0].kind,
        ConfigVarKind::Enum {
            values: vec!["32".into(), "64".into()],
            numeric: true,
        }
    );
}

#[test]
fn build_variables_merges_cmake_default() {
    let cfg = raw_cfg(vec![(
        "MODE",
        vec![ConfigValue::Text("fast".into()), ConfigValue::Text("safe".into())],
    )]);
    let mut defaults = NameMap::new();
    defaults.insert("MODE", Some("safe".to_string()));
    let vars = build_variables(&cfg, &defaults);
    assert_eq!(vars[0].default.as_deref(), Some("safe"));
}

#[test]
fn build_variables_default_absent_when_cmake_missing() {
    let cfg = raw_cfg(vec![("MODE", vec![ConfigValue::Text("fast".into())])]);
    let vars = build_variables(&cfg, &NameMap::new());
    assert_eq!(vars[0].default, None);
}

// ---------- handle_set ----------

#[test]
fn handle_set_records_cache_string_default() {
    let mut out = ScannedCmake::new();
    let mut sources = NameMap::new();
    let mut composed = NameMap::new();
    let args = vec![
        "MODE".to_string(),
        r#""fast""#.to_string(),
        "CACHE".to_string(),
        "STRING".to_string(),
        r#""doc""#.to_string(),
    ];
    handle_set(
        &args,
        &known(&["MODE"]),
        "",
        &mut out,
        &mut sources,
        &mut composed,
    );
    assert_eq!(
        out.var_defaults.get("MODE"),
        Some(&Some("fast".to_string()))
    );
}

#[test]
fn handle_set_ignores_cache_for_unknown_var() {
    let mut out = ScannedCmake::new();
    let mut sources = NameMap::new();
    let mut composed = NameMap::new();
    let args = vec![
        "OTHER".to_string(),
        r#""x""#.to_string(),
        "CACHE".to_string(),
        "STRING".to_string(),
        r#""doc""#.to_string(),
    ];
    handle_set(
        &args,
        &known(&["MODE"]),
        "",
        &mut out,
        &mut sources,
        &mut composed,
    );
    assert!(out.var_defaults.entries.is_empty());
}

#[test]
fn handle_set_extracts_defines_from_cmake_c_flags() {
    let mut out = ScannedCmake::new();
    let mut sources = NameMap::new();
    let mut composed = NameMap::new();
    let args = vec![
        "CMAKE_C_FLAGS".to_string(),
        r#""${CMAKE_C_FLAGS} -DBITS=${WORD_SIZE}""#.to_string(),
    ];
    handle_set(
        &args,
        &known(&["WORD_SIZE"]),
        "",
        &mut out,
        &mut sources,
        &mut composed,
    );
    assert_eq!(out.defines.len(), 1);
    assert_eq!(out.defines[0].c_name, "BITS");
    assert_eq!(
        out.defines[0].kind,
        DefineKind::Bare {
            var: "WORD_SIZE".to_string()
        }
    );
}

#[test]
fn handle_set_captures_source_list() {
    let mut out = ScannedCmake::new();
    let mut sources = NameMap::new();
    let mut composed = NameMap::new();
    let args = vec![
        "BACKEND_SOURCES".to_string(),
        "src/backend_${BACKEND}.c".to_string(),
    ];
    handle_set(
        &args,
        &known(&["BACKEND"]),
        "",
        &mut out,
        &mut sources,
        &mut composed,
    );
    assert_eq!(
        sources.get("BACKEND_SOURCES"),
        Some(&vec!["src/backend_${BACKEND}.c".to_string()])
    );
}

#[test]
fn handle_set_remembers_composed_value() {
    let mut out = ScannedCmake::new();
    let mut sources = NameMap::new();
    let mut composed = NameMap::new();
    let args = vec![
        "BUILD_PROFILE".to_string(),
        r#""${BACKEND}_${WORD_SIZE}""#.to_string(),
    ];
    handle_set(
        &args,
        &known(&["BACKEND", "WORD_SIZE"]),
        "",
        &mut out,
        &mut sources,
        &mut composed,
    );
    assert_eq!(
        composed.get("BUILD_PROFILE"),
        Some(&"${BACKEND}_${WORD_SIZE}".to_string())
    );
}

// ---------- handle_option ----------

#[test]
fn handle_option_maps_on_off_to_bool_strings() {
    for (literal, expected) in [
        ("ON", "true"),
        ("TRUE", "true"),
        ("YES", "true"),
        ("1", "true"),
        ("OFF", "false"),
        ("FALSE", "false"),
        ("NO", "false"),
        ("0", "false"),
    ] {
        let mut out = ScannedCmake::new();
        let args = vec![
            "FLAG".to_string(),
            r#""doc""#.to_string(),
            literal.to_string(),
        ];
        handle_option(&args, &known(&["FLAG"]), &mut out);
        assert_eq!(
            out.var_defaults.get("FLAG"),
            Some(&Some(expected.to_string())),
            "for {literal}"
        );
    }
}

#[test]
fn handle_option_records_no_default_when_missing() {
    let mut out = ScannedCmake::new();
    let args = vec!["FLAG".to_string(), r#""doc""#.to_string()];
    handle_option(&args, &known(&["FLAG"]), &mut out);
    assert_eq!(out.var_defaults.get("FLAG"), Some(&None));
}

#[test]
fn handle_option_ignores_unknown_var() {
    let mut out = ScannedCmake::new();
    let args = vec![
        "OTHER".to_string(),
        r#""doc""#.to_string(),
        "ON".to_string(),
    ];
    handle_option(&args, &known(&["FLAG"]), &mut out);
    assert!(out.var_defaults.entries.is_empty());
}

// ---------- handle_add_compile_definitions ----------

#[test]
fn handle_add_compile_definitions_recognizes_quoted_string() {
    let mut out = ScannedCmake::new();
    let args = vec![r#""APP_MODE_STR=\"${APP_MODE}\"""#.to_string()];
    handle_add_compile_definitions(&args, &known(&["APP_MODE"]), &mut out);
    assert_eq!(out.defines.len(), 1);
    assert_eq!(out.defines[0].c_name, "APP_MODE_STR");
    assert_eq!(
        out.defines[0].kind,
        DefineKind::QuotedString {
            var: "APP_MODE".to_string()
        }
    );
}

#[test]
fn handle_add_compile_definitions_recognizes_bare() {
    let mut out = ScannedCmake::new();
    let args = vec![r#""WORD_SIZE=${WORD_SIZE}""#.to_string()];
    handle_add_compile_definitions(&args, &known(&["WORD_SIZE"]), &mut out);
    assert_eq!(out.defines.len(), 1);
    assert_eq!(
        out.defines[0].kind,
        DefineKind::Bare {
            var: "WORD_SIZE".to_string()
        }
    );
}

#[test]
fn handle_add_compile_definitions_recognizes_composed() {
    let mut out = ScannedCmake::new();
    let args = vec![r#""PROFILE=${BACKEND}_${WORD_SIZE}""#.to_string()];
    handle_add_compile_definitions(&args, &known(&["BACKEND", "WORD_SIZE"]), &mut out);
    assert_eq!(out.defines.len(), 1);
    assert_eq!(
        out.defines[0].kind,
        DefineKind::Composed {
            template: "{BACKEND}_{WORD_SIZE}".to_string()
        }
    );
    assert_eq!(out.defines[0].source_vars, vec!["BACKEND", "WORD_SIZE"]);
}

#[test]
fn handle_add_compile_definitions_skips_unknown_var() {
    let mut out = ScannedCmake::new();
    let args = vec![r#""X=${UNKNOWN}""#.to_string()];
    handle_add_compile_definitions(&args, &known(&["BACKEND"]), &mut out);
    assert!(out.defines.is_empty());
}

// ---------- handle_add_definitions ----------

#[test]
fn handle_add_definitions_emits_gated_flag_inside_if() {
    let mut out = ScannedCmake::new();
    let args = vec!["-DENABLE_EXTRA".to_string()];
    handle_add_definitions(
        &args,
        &known(&["ENABLE_EXTRA"]),
        &mut out,
        Some("ENABLE_EXTRA"),
    );
    assert_eq!(out.defines.len(), 1);
    assert_eq!(out.defines[0].c_name, "ENABLE_EXTRA");
    assert_eq!(
        out.defines[0].kind,
        DefineKind::GatedFlag {
            gate_var: "ENABLE_EXTRA".to_string()
        }
    );
}

#[test]
fn handle_add_definitions_skips_bare_flag_outside_if() {
    let mut out = ScannedCmake::new();
    let args = vec!["-DENABLE_EXTRA".to_string()];
    handle_add_definitions(&args, &known(&["ENABLE_EXTRA"]), &mut out, None);
    assert!(out.defines.is_empty());
}

#[test]
fn handle_add_definitions_emits_bare_for_known_value() {
    let mut out = ScannedCmake::new();
    let args = vec!["-DWORD_SIZE=${WORD_SIZE}".to_string()];
    handle_add_definitions(&args, &known(&["WORD_SIZE"]), &mut out, None);
    assert_eq!(out.defines.len(), 1);
    assert_eq!(
        out.defines[0].kind,
        DefineKind::Bare {
            var: "WORD_SIZE".to_string()
        }
    );
}

// ---------- extract_defines_from_flags ----------

#[test]
fn extract_defines_from_flags_picks_bare_known() {
    let mut defines = Vec::new();
    extract_defines_from_flags(
        "${CMAKE_C_FLAGS} -DBITS=${WORD_SIZE} -O2",
        &known(&["WORD_SIZE"]),
        &NameMap::new(),
        &mut defines,
    );
    assert_eq!(defines.len(), 1);
    assert_eq!(defines[0].c_name, "BITS");
    assert_eq!(
        defines[0].kind,
        DefineKind::Bare {
            var: "WORD_SIZE".to_string()
        }
    );
}

#[test]
fn extract_defines_from_flags_picks_composed_inline() {
    let mut defines = Vec::new();
    extract_defines_from_flags(
        "-DPROFILE=${BACKEND}_${WORD_SIZE}",
        &known(&["BACKEND", "WORD_SIZE"]),
        &NameMap::new(),
        &mut defines,
    );
    assert_eq!(defines.len(), 1);
    assert_eq!(
        defines[0].kind,
        DefineKind::Composed {
            template: "{BACKEND}_{WORD_SIZE}".to_string()
        }
    );
}

#[test]
fn extract_defines_from_flags_resolves_via_composed_var() {
    // `-DPROFILE=${BUILD_PROFILE}` where BUILD_PROFILE was previously
    // defined as `${BACKEND}_${WORD_SIZE}` -> Composed.
    let mut composed = NameMap::new();
    composed.insert(
        "BUILD_PROFILE",
        "${BACKEND}_${WORD_SIZE}".to_string(),
    );
    let mut defines = Vec::new();
    extract_defines_from_flags(
        "-DPROFILE=${BUILD_PROFILE}",
        &known(&["BACKEND", "WORD_SIZE"]),
        &composed,
        &mut defines,
    );
    assert_eq!(defines.len(), 1);
    assert_eq!(
        defines[0].kind,
        DefineKind::Composed {
            template: "{BACKEND}_{WORD_SIZE}".to_string()
        }
    );
}

#[test]
fn extract_defines_from_flags_skips_non_d_tokens() {
    let mut defines = Vec::new();
    extract_defines_from_flags(
        "-O2 -Wall -fPIC",
        &known(&["WORD_SIZE"]),
        &NameMap::new(),
        &mut defines,
    );
    assert!(defines.is_empty());
}

// ---------- enumerate_variants ----------

#[test]
fn enumerate_variants_groups_files_by_value() {
    let files = files(&["src/backend_alpha.c", "src/backend_beta.c", "src/main.c"]);
    let variants = enumerate_variants("src/backend_${BACKEND}.c", "BACKEND", &files);
    assert_eq!(variants.len(), 2);
    // BTreeSet ordering -> alphabetical.
    assert_eq!(variants[0].value, "alpha");
    assert_eq!(
        variants[0].files,
        vec!["src/backend_alpha.c".to_string()]
    );
    assert_eq!(variants[1].value, "beta");
}

#[test]
fn enumerate_variants_returns_empty_when_pattern_missing_ref() {
    let files = files(&["src/main.c"]);
    let variants = enumerate_variants("src/main.c", "BACKEND", &files);
    assert!(variants.is_empty());
}

#[test]
fn enumerate_variants_rejects_non_ident_values() {
    // Files that would match with a non-identifier value (e.g. dashes) are
    // skipped.
    let files = files(&["src/backend_a-b.c", "src/backend_ok.c"]);
    let variants = enumerate_variants("src/backend_${BACKEND}.c", "BACKEND", &files);
    let values: Vec<&str> = variants.iter().map(|v| v.value.as_str()).collect();
    assert_eq!(values, vec!["ok"]);
}

// ---------- handle_target_compile_definitions ----------

#[test]
fn handle_target_compile_definitions_emits_gated_flag() {
    let mut out = ScannedCmake::new();
    let args = vec![
        "app".to_string(),
        "PRIVATE".to_string(),
        "ENABLE_EXTRA".to_string(),
    ];
    handle_target_compile_definitions(&args, Some("ENABLE_EXTRA"), &mut out);
    assert_eq!(out.defines.len(), 1);
    assert_eq!(out.defines[0].c_name, "ENABLE_EXTRA");
    assert_eq!(
        out.defines[0].kind,
        DefineKind::GatedFlag {
            gate_var: "ENABLE_EXTRA".to_string()
        }
    );
}

#[test]
fn handle_target_compile_definitions_no_op_outside_gate() {
    let mut out = ScannedCmake::new();
    let args = vec!["app".to_string(), "PRIVATE".to_string(), "FLAG".to_string()];
    handle_target_compile_definitions(&args, None, &mut out);
    assert!(out.defines.is_empty());
}

#[test]
fn handle_target_compile_definitions_dedupes_same_gate() {
    let mut out = ScannedCmake::new();
    let args = vec!["app".to_string(), "PRIVATE".to_string(), "FLAG".to_string()];
    handle_target_compile_definitions(&args, Some("ENABLE_EXTRA"), &mut out);
    // Second call with the same gate should not add a duplicate.
    handle_target_compile_definitions(&args, Some("ENABLE_EXTRA"), &mut out);
    assert_eq!(out.defines.len(), 1);
}

// ---------- rewrite_composed_defines ----------

#[test]
fn rewrite_composed_defines_promotes_bare_to_composed() {
    let mut defines = vec![DefineMapping {
        c_name: "PROFILE".to_string(),
        kind: DefineKind::Bare {
            var: "BUILD_PROFILE".to_string(),
        },
        source_vars: vec!["BUILD_PROFILE".to_string()],
    }];
    let mut composed = NameMap::new();
    composed.insert(
        "BUILD_PROFILE",
        "${BACKEND}_${WORD_SIZE}".to_string(),
    );
    rewrite_composed_defines(&mut defines, &composed, &known(&["BACKEND", "WORD_SIZE"]));
    assert_eq!(
        defines[0].kind,
        DefineKind::Composed {
            template: "{BACKEND}_{WORD_SIZE}".to_string()
        }
    );
    assert_eq!(defines[0].source_vars, vec!["BACKEND", "WORD_SIZE"]);
}

#[test]
fn rewrite_composed_defines_leaves_unrelated_bare_alone() {
    let mut defines = vec![DefineMapping {
        c_name: "BITS".to_string(),
        kind: DefineKind::Bare {
            var: "WORD_SIZE".to_string(),
        },
        source_vars: vec!["WORD_SIZE".to_string()],
    }];
    // WORD_SIZE is NOT in composed_vars, so it stays Bare.
    rewrite_composed_defines(&mut defines, &NameMap::new(), &known(&["WORD_SIZE"]));
    assert_eq!(
        defines[0].kind,
        DefineKind::Bare {
            var: "WORD_SIZE".to_string()
        }
    );
}

// ---------- normalize_join / prefix_source_path ----------

#[test]
fn normalize_join_appends_descendant() {
    assert_eq!(
        normalize_join("lib", "blake").as_deref(),
        Some("lib/blake"),
    );
    assert_eq!(
        normalize_join("", "app").as_deref(),
        Some("app"),
    );
}

#[test]
fn normalize_join_resolves_parent_dir() {
    assert_eq!(
        normalize_join("lib/blake", "../../app/src/utils.c").as_deref(),
        Some("app/src/utils.c"),
    );
}

#[test]
fn normalize_join_returns_none_when_escapes_root() {
    assert_eq!(
        normalize_join("lib", "../../oops"),
        None
    );
}

#[test]
fn normalize_join_drops_curdir_segments() {
    assert_eq!(
        normalize_join("lib", "./src/./foo.c").as_deref(),
        Some("lib/src/foo.c"),
    );
}

#[test]
fn prefix_source_path_passes_through_at_root() {
    assert_eq!(
        prefix_source_path("", "src/main.c"),
        "src/main.c"
    );
}

#[test]
fn prefix_source_path_prepends_rel_dir() {
    assert_eq!(
        prefix_source_path("lib", "src/backend.c"),
        "lib/src/backend.c"
    );
}

#[test]
fn prefix_source_path_preserves_var_placeholders() {
    // `${BACKEND}` is not normalized -- the literal placeholder survives so
    // `enumerate_variants` can match against the project file set.
    assert_eq!(
        prefix_source_path("lib", "src/backend_${BACKEND}.c"),
        "lib/src/backend_${BACKEND}.c"
    );
}

// ---------- handle_set with rel_dir ----------

#[test]
fn handle_set_prefixes_sources_with_rel_dir() {
    let mut out = ScannedCmake::new();
    let mut sources = NameMap::new();
    let mut composed = NameMap::new();
    let args = vec![
        "BLAKE_SOURCES".to_string(),
        "src/blake256.c".to_string(),
        "src/thash_blake_${THASH}.c".to_string(),
        "../../app/src/utils.c".to_string(),
    ];
    handle_set(
        &args,
        &known(&["THASH"]),
        "lib/blake",
        &mut out,
        &mut sources,
        &mut composed,
    );
    let got = sources.get("BLAKE_SOURCES").unwrap();
    assert_eq!(got.len(), 3);
    assert_eq!(got[0], "lib/blake/src/blake256.c");
    assert_eq!(got[1], "lib/blake/src/thash_blake_${THASH}.c");
    assert_eq!(got[2], "app/src/utils.c");
}

// ---------- add_subdirectory ----------
//
// These exercise `scan` end-to-end against an in-memory `RawDir` so the
// recursive `add_subdirectory` path is covered, including the literal /
// variable / missing-CMakeLists / escaping-root branches.

fn build_dir(files: &[(&str, &str)]) -> RawDir {
    let mut dir = RawDir::new();
    for (path, contents) in files {
        dir.set_file(path, contents.as_bytes().to_vec());
    }
    dir
}

#[test]
fn add_subdirectory_descends_into_literal_path() {
    let dir = build_dir(&[
        (
            "configuration.json",
            r#"{"configurable_variables": {"MODE": ["fast", "safe"]}}"#,
        ),
        (
            "CMakeLists.txt",
            "set(MODE \"fast\" CACHE STRING \"doc\")\nadd_subdirectory(lib)\n",
        ),
        (
            "lib/CMakeLists.txt",
            "add_compile_definitions(\"MODE_STR=\\\"${MODE}\\\"\")\nadd_library(core src/lib.c)\n",
        ),
        ("lib/src/lib.c", "// stub\n"),
    ]);
    let ir = scan(&dir);
    assert!(!ir.is_empty);
    // The compile-definition declared inside `lib/CMakeLists.txt` made it
    // into the IR.
    assert_eq!(ir.defines.len(), 1);
    assert_eq!(ir.defines[0].c_name, "MODE_STR");
    assert_eq!(
        ir.defines[0].kind,
        DefineKind::QuotedString {
            var: "MODE".to_string()
        }
    );
}

#[test]
fn add_subdirectory_variable_form_emits_one_variant_per_value() {
    let dir = build_dir(&[
        (
            "configuration.json",
            r#"{"configurable_variables": {"BACKEND": ["alpha", "beta"], "MODE": ["fast", "safe"]}}"#,
        ),
        (
            "CMakeLists.txt",
            "set(BACKEND \"alpha\" CACHE STRING \"doc\")\n\
             set(MODE \"fast\" CACHE STRING \"doc\")\n\
             add_subdirectory(${BACKEND})\n",
        ),
        (
            "alpha/CMakeLists.txt",
            "add_compile_definitions(\"PICKED_MODE=${MODE}\")\n",
        ),
        (
            "beta/CMakeLists.txt",
            "add_compile_definitions(\"PICKED_MODE=${MODE}\")\n",
        ),
    ]);
    let ir = scan(&dir);
    // The variant subtrees do NOT leak into the top-level defines.
    assert!(ir.defines.is_empty(), "ir.defines = {:?}", ir.defines);
    assert_eq!(ir.subdir_selections.len(), 1);
    let sel = &ir.subdir_selections[0];
    assert_eq!(sel.driving_var, "BACKEND");
    assert_eq!(sel.variants.len(), 2);
    let alpha = sel.variants.iter().find(|v| v.value == "alpha").unwrap();
    assert_eq!(alpha.path, "alpha".to_string());
    assert_eq!(alpha.defines.len(), 1);
    assert_eq!(alpha.defines[0].c_name, "PICKED_MODE");
    assert_eq!(
        alpha.defines[0].kind,
        DefineKind::Bare {
            var: "MODE".to_string()
        }
    );
    let beta = sel.variants.iter().find(|v| v.value == "beta").unwrap();
    assert_eq!(beta.path, "beta".to_string());
    assert_eq!(beta.defines.len(), 1);
    assert_eq!(beta.defines[0].c_name, "PICKED_MODE");
}

#[test]
fn add_subdirectory_variable_form_skips_missing_variant() {
    // `BACKEND` declares two values but only `alpha/` exists on disk.
    let dir = build_dir(&[
        (
            "configuration.json",
            r#"{"configurable_variables": {"BACKEND": ["alpha", "beta"], "MODE": ["fast"]}}"#,
        ),
        ("CMakeLists.txt", "add_subdirectory(${BACKEND})\n"),
        (
            "alpha/CMakeLists.txt",
            "add_compile_definitions(\"TAG=${MODE}\")\n",
        ),
    ]);
    let ir = scan(&dir);
    assert_eq!(ir.subdir_selections.len(), 1);
    let sel = &ir.subdir_selections[0];
    assert_eq!(sel.variants.len(), 1);
    assert_eq!(sel.variants[0].value, "alpha");
}

#[test]
fn add_subdirectory_variable_form_isolates_variants() {
    // The `CMAKE_C_FLAGS` accumulator must NOT leak `alpha`'s `-DTAG=alpha`
    // into the `beta` variant (and vice versa). Each variant's defines
    // come only from its own subtree.
    let dir = build_dir(&[
        (
            "configuration.json",
            r#"{"configurable_variables": {"BACKEND": ["alpha", "beta"]}}"#,
        ),
        ("CMakeLists.txt", "add_subdirectory(${BACKEND})\n"),
        (
            "alpha/CMakeLists.txt",
            "set(CMAKE_C_FLAGS \"${CMAKE_C_FLAGS} -DTAG=${BACKEND}\")\n",
        ),
        (
            "beta/CMakeLists.txt",
            "set(CMAKE_C_FLAGS \"${CMAKE_C_FLAGS} -DTAG=${BACKEND}\")\n",
        ),
    ]);
    let ir = scan(&dir);
    let sel = &ir.subdir_selections[0];
    for variant in &sel.variants {
        assert_eq!(
            variant.defines.len(),
            1,
            "variant `{}` should record exactly one define (got {:?})",
            variant.value,
            variant.defines,
        );
        assert_eq!(variant.defines[0].c_name, "TAG");
    }
}

#[test]
fn add_subdirectory_variable_form_nests() {
    // A `add_subdirectory(${OUTER})` selection can itself contain a
    // `add_subdirectory(${INNER})` selection inside one of its variants.
    let dir = build_dir(&[
        (
            "configuration.json",
            r#"{"configurable_variables": {"OUTER": ["x", "y"], "INNER": ["one", "two"], "MODE": ["fast"]}}"#,
        ),
        ("CMakeLists.txt", "add_subdirectory(${OUTER})\n"),
        ("x/CMakeLists.txt", "add_subdirectory(${INNER})\n"),
        (
            "x/one/CMakeLists.txt",
            "add_compile_definitions(\"DEEP=${MODE}\")\n",
        ),
        (
            "x/two/CMakeLists.txt",
            "add_compile_definitions(\"DEEP=${MODE}\")\n",
        ),
        (
            "y/CMakeLists.txt",
            "add_compile_definitions(\"SHALLOW=${MODE}\")\n",
        ),
    ]);
    let ir = scan(&dir);
    assert_eq!(ir.subdir_selections.len(), 1);
    let outer = &ir.subdir_selections[0];
    assert_eq!(outer.driving_var, "OUTER");

    let x = outer.variants.iter().find(|v| v.value == "x").unwrap();
    assert!(x.defines.is_empty(), "x.defines = {:?}", x.defines);
    assert_eq!(x.subdir_selections.len(), 1);
    let inner = &x.subdir_selections[0];
    assert_eq!(inner.driving_var, "INNER");
    assert_eq!(inner.variants.len(), 2);

    let y = outer.variants.iter().find(|v| v.value == "y").unwrap();
    assert_eq!(y.defines.len(), 1);
    assert_eq!(y.defines[0].c_name, "SHALLOW");
    assert!(y.subdir_selections.is_empty());
}

#[test]
fn add_subdirectory_variable_form_resolves_target_inside_variant() {
    // Mirrors sphincs's `lib/${HASH_BACKEND}/CMakeLists.txt` pattern, where
    // each variant subdir declares its own target and sources via the
    // `*_SOURCES` indirection.
    let dir = build_dir(&[
        (
            "configuration.json",
            r#"{"configurable_variables": {"HASH_BACKEND": ["blake", "haraka"]}}"#,
        ),
        (
            "CMakeLists.txt",
            "set(HASH_BACKEND \"blake\" CACHE STRING \"doc\")\nadd_subdirectory(lib)\n",
        ),
        ("lib/CMakeLists.txt", "add_subdirectory(${HASH_BACKEND})\n"),
        (
            "lib/blake/CMakeLists.txt",
            "set(BLAKE_SOURCES src/blake256.c)\n\
             add_library(blake SHARED ${BLAKE_SOURCES})\n",
        ),
        (
            "lib/haraka/CMakeLists.txt",
            "set(HARAKA_SOURCES src/haraka.c)\n\
             add_library(haraka SHARED ${HARAKA_SOURCES})\n",
        ),
        ("lib/blake/src/blake256.c", "// stub\n"),
        ("lib/haraka/src/haraka.c", "// stub\n"),
    ]);
    let ir = scan(&dir);
    assert!(ir.source_selections.is_empty());
    assert_eq!(ir.subdir_selections.len(), 1);
    let sel = &ir.subdir_selections[0];
    assert_eq!(sel.driving_var, "HASH_BACKEND");
    let blake = sel.variants.iter().find(|v| v.value == "blake").unwrap();
    assert_eq!(blake.path, "lib/blake".to_string());
    // Source paths are normalized project-relative.
    assert!(
        blake.source_selections.is_empty(),
        "no `${{VAR}}` in sources, so no SourceSelection inside the variant; \
         blake.source_selections = {:?}",
        blake.source_selections,
    );
    let haraka = sel.variants.iter().find(|v| v.value == "haraka").unwrap();
    assert_eq!(haraka.path, "lib/haraka".to_string());
}

#[test]
fn add_subdirectory_with_missing_cmakelists_is_warn_and_continue() {
    let dir = build_dir(&[
        (
            "configuration.json",
            r#"{"configurable_variables": {"MODE": ["fast"]}}"#,
        ),
        (
            "CMakeLists.txt",
            "add_subdirectory(missing)\nadd_compile_definitions(\"AFTER=${MODE}\")\n",
        ),
    ]);
    let ir = scan(&dir);
    // Statements AFTER the failed add_subdirectory still scan.
    assert_eq!(ir.defines.len(), 1);
    assert_eq!(ir.defines[0].c_name, "AFTER");
}

#[test]
fn add_subdirectory_nested_recursion_works() {
    let dir = build_dir(&[
        (
            "configuration.json",
            r#"{"configurable_variables": {"MODE": ["fast"]}}"#,
        ),
        ("CMakeLists.txt", "add_subdirectory(a)\n"),
        ("a/CMakeLists.txt", "add_subdirectory(b)\n"),
        (
            "a/b/CMakeLists.txt",
            "add_compile_definitions(\"NESTED=${MODE}\")\n",
        ),
    ]);
    let ir = scan(&dir);
    assert_eq!(ir.defines.len(), 1);
    assert_eq!(ir.defines[0].c_name, "NESTED");
}

#[test]
fn add_subdirectory_source_paths_resolve_through_rel_dir() {
    // The library declares its sources in a `*_SOURCES` variable inside the
    // subdirectory (the conventional CMake idiom). The IR must store those
    // files as project-relative paths.
    let dir = build_dir(&[
        (
            "configuration.json",
            r#"{"configurable_variables": {"BACKEND": ["alpha", "beta"]}}"#,
        ),
        (
            "CMakeLists.txt",
            "set(BACKEND \"alpha\" CACHE STRING \"doc\")\nadd_subdirectory(lib)\n",
        ),
        (
            "lib/CMakeLists.txt",
            "set(CORE_SOURCES src/backend_${BACKEND}.c)\n\
             add_library(core ${CORE_SOURCES})\n",
        ),
        ("lib/src/backend_alpha.c", "// stub\n"),
        ("lib/src/backend_beta.c", "// stub\n"),
    ]);
    let ir = scan(&dir);
    assert_eq!(ir.source_selections.len(), 1, "ir = {ir:?}");
    let sel = &ir.source_selections[0];
    assert_eq!(sel.target, "core");
    assert_eq!(sel.driving_var, "BACKEND");
    assert_eq!(sel.variants.len(), 2);
    let alpha = sel.variants.iter().find(|v| v.value == "alpha").unwrap();
    assert_eq!(alpha.files, vec!["lib/src/backend_alpha.c".to_string()]);
    let beta = sel.variants.iter().find(|v| v.value == "beta").unwrap();
    assert_eq!(beta.files, vec!["lib/src/backend_beta.c".to_string()]);
}
