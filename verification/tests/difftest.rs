use harvest_tools::c_build::{
    find_executable, find_shared_lib, BuildCArtifact, BuildCLibrary, CArtifact, CLibraryArtifact,
    TreeEntry,
};
use harvest_tools::build_project_spec::ProjectKind;
use harvest_tools::generate_difftest_suite::generators::{
    boundary_values, generate_test_vectors, FnSig, StructMap,
};
use harvest_tools::generate_difftest_suite::suite::{
    fill, generate_difftest_c, index_api, ApiFunction, ApiStruct, GenerateDiffTestSuite, Templates,
};
use harvest_tools::generate_difftest_suite::types::{is_scalar_type, is_string_type, is_void_type};
use harvest_tools::names::NameMap;
use harvest_tools::run_difftest::{find_so_in_dir, parse_output};

fn structs() -> StructMap {
    let mut map = StructMap::new();
    map.insert(
        "Point",
        (
            "Point".to_string(),
            vec![
                ("x".to_string(), "int".to_string()),
                ("cb".to_string(), "callback_t".to_string()),
                ("name".to_string(), "const char *".to_string()),
            ],
        ),
    );
    map.insert(
        "List",
        (
            "struct List".to_string(),
            vec![("next".to_string(), "struct List *".to_string())],
        ),
    );
    map.insert("Empty", ("Empty".to_string(), vec![]));
    map
}

#[test]
fn primitives_have_their_limits() {
    let s = StructMap::new();
    assert_eq!(boundary_values("int", &s), vec!["0", "1", "-1", "INT_MAX", "INT_MIN"]);
    assert_eq!(boundary_values("  unsigned char ", &s), vec!["0", "'a'", "UCHAR_MAX"]);
    assert_eq!(boundary_values("double", &s), vec!["0.0", "1.0", "-1.0"]);
    assert_eq!(boundary_values("size_t", &s), vec!["0", "1", "SIZE_MAX"]);
    assert!(boundary_values("callback_t", &s).is_empty());
}

#[test]
fn pointers_point_to_a_neutral_value() {
    let s = structs();
    assert_eq!(boundary_values("const char *", &s), vec!["NULL", "\"\"", "\"hello\""]);
    assert_eq!(boundary_values("void *", &s), vec!["NULL"]);
    assert_eq!(boundary_values("const int *", &s), vec!["&(int){0}", "NULL"]);
    assert_eq!(boundary_values("callback_t *", &s), vec!["NULL"]);
    assert_eq!(
        boundary_values("Point *", &s),
        vec!["&(Point){.x = 0, .name = NULL}", "NULL"]
    );
}

#[test]
fn structs_leave_out_unknown_fields() {
    let s = structs();
    assert_eq!(boundary_values("Point", &s), vec!["(Point){.x = 0, .name = NULL}"]);
    assert_eq!(boundary_values("struct Point", &s), vec!["(Point){.x = 0, .name = NULL}"]);
    assert_eq!(boundary_values("Empty", &s), vec!["(Empty){0}"]);
}

#[test]
fn recursion_ends_below_a_nesting_of_four() {
    let values = boundary_values("struct List", &structs());
    assert_eq!(
        values,
        vec![
            "(struct List){.next = &(struct List){.next = &(struct List){.next = \
             &(struct List){.next = &(struct List){0}}}}}"
        ]
    );
}

#[test]
fn one_argument_varies_at_a_time() {
    let mut sigs = NameMap::new();
    sigs.insert(
        "add",
        FnSig {
            return_type: "int".to_string(),
            param_types: vec!["unsigned int".to_string(), "bool".to_string()],
        },
    );
    sigs.insert("tick", FnSig { return_type: "void".to_string(), param_types: vec![] });
    let vectors = generate_test_vectors(&sigs, &StructMap::new());
    let shown: Vec<String> =
        vectors.iter().map(|v| format!("{}({})", v.function, v.args.join(","))).collect();
    assert_eq!(
        shown,
        vec!["add(0,0)", "add(1,0)", "add(UINT_MAX,0)", "add(0,1)", "tick()"]
    );
}

#[test]
fn types_are_told_apart_by_their_spelling() {
    assert!(is_void_type(" void "));
    assert!(!is_void_type("void *"));
    assert!(is_scalar_type("uint8_t"));
    assert!(!is_scalar_type("Point"));
    assert!(is_string_type("const char*"));
    assert!(!is_string_type("char **"));
}

fn templates() -> Templates {
    Templates {
        header: "H\n".to_string(),
        prologue: "P {TEST_ID} {RET} {FN_NAME}({PARAM_TYPES})\n{ARG_DECLS}".to_string(),
        body_scalar: "S({ARGS})\n".to_string(),
        body_void: "V\n".to_string(),
        body_string: "T\n".to_string(),
        body_warn: "W {TEST_ID} {FN_NAME}\n".to_string(),
        main: "M\n{TEST_CALLS}".to_string(),
    }
}

#[test]
fn a_suite_compares_by_the_type_of_the_result() {
    let function = |name: &str, ret: &str, params: &[&str]| ApiFunction {
        name: name.to_string(),
        return_type: ret.to_string(),
        param_types: params.iter().map(|p| p.to_string()).collect(),
    };
    let (sigs, structs) = index_api(
        vec![
            function("id", "bool", &["bool"]),
            function("make", "Point", &[]),
            function("name", "char *", &[]),
            function("tick", "void", &[]),
        ],
        vec![ApiStruct { name: "struct Point".to_string(), fields: vec![] }],
    );
    assert_eq!(structs.get("Point").unwrap().0, "struct Point");
    let suite = GenerateDiffTestSuite.generate(&sigs, &structs, &templates());
    assert_eq!(
        suite.source,
        "H\n\
         P T001 bool id(bool)\n    bool arg0 = 0;\nS(arg0)\n\
         P T002 bool id(bool)\n    bool arg0 = 1;\nS(arg0)\n\
         W T003 make\n\
         P T004 char * name(void)\nT\n\
         P T005 void tick(void)\nV\n\
         M\n    diff_T001(&passed, &failed);\n    diff_T002(&passed, &failed);\n    \
         diff_T003(&passed, &failed);\n    diff_T004(&passed, &failed);\n    \
         diff_T005(&passed, &failed);\n"
    );
    assert_eq!(generate_difftest_c(&vec![], &sigs, &templates()), "H\nM\n");
}

#[test]
fn templates_are_filled_one_name_after_another() {
    let subs = vec![("A".to_string(), "{B}".to_string()), ("B".to_string(), "x".to_string())];
    assert_eq!(fill("{A}-{B}-{C}", &subs), "x-x-{C}");
}

#[test]
fn every_reported_test_counts() {
    let result = parse_output("noise\nPASS T001\nFAIL T002 got 1\nWARN T003\nPASSED\n");
    assert_eq!((result.passed, result.failed, result.total), (1, 2, 3));
    assert_eq!(result.failures, vec!["FAIL T002 got 1", "WARN T003"]);
    assert_eq!(
        result.describe(),
        "DiffTestResult: 1/3 passed\n  FAIL T002 got 1\n  WARN T003\n"
    );
}

fn tree() -> Vec<TreeEntry> {
    let file = |name: &str, executable: bool| TreeEntry::File(name.to_string(), executable);
    vec![
        TreeEntry::Dir("CMakeFiles".to_string(), vec![file("probe", true), file("x.so", true)]),
        file("Makefile", false),
        TreeEntry::Dir("lib".to_string(), vec![file("libp.so", true)]),
        file("app", true),
    ]
}

#[test]
fn artifacts_are_found_in_the_build_tree() {
    assert_eq!(find_shared_lib(&tree(), "/b"), Some("/b/CMakeFiles/x.so".to_string()));
    // CMake's own directory holds no executable of the project.
    assert_eq!(find_executable(&tree(), "/b"), Some("/b/app".to_string()));
    assert_eq!(find_so_in_dir(&tree(), "/b"), None);
    assert_eq!(find_executable(&vec![], "/b"), None);
}

#[test]
fn the_kind_decides_what_is_built() {
    let library = BuildCArtifact::locate(ProjectKind::Library, &tree(), "/b").unwrap();
    assert_eq!(library.so_path.as_deref(), Some("/b/CMakeFiles/x.so"));
    assert_eq!(library.exe_path, None);
    let program = BuildCArtifact::locate(ProjectKind::Executable, &tree(), "/b").unwrap();
    assert_eq!(program.describe(), "CArtifact(exe=/b/app)");
    assert!(BuildCArtifact::locate(ProjectKind::Library, &vec![], "/b").is_none());
    assert!(BuildCLibrary::is_built(ProjectKind::Library));
    assert!(!BuildCLibrary::is_built(ProjectKind::Executable));
    let none = CArtifact { so_path: None, exe_path: None };
    assert_eq!(none.describe(), "CArtifact(not applicable)");
    let lib: CLibraryArtifact =
        BuildCLibrary::locate(ProjectKind::Library, &tree(), "/b").unwrap();
    assert_eq!(lib.so_path.as_deref(), Some("/b/CMakeFiles/x.so"));
}
