use harvest_tools::build_project_spec::ProjectKind;
use harvest_tools::c_ast::annotations::{annotate_visibility, EntityAnnotations};
use harvest_tools::c_ast::ast::{ast_from_entity, ClangAST};
use harvest_tools::c_ast::extract::{extract_entities, EntityFacts, ParseToAst};
use harvest_tools::c_ast::rsm::{
    map_top_level_decl_kind, EntityKind, RichSourceMap, SourcePoint, SourceSpan, TopLevelEntity,
};
use harvest_tools::c_ast::utils::{
    generate_parse_args, is_c_or_header, is_header_file, should_skip_path, Extent,
};
use harvest_tools::c_ast::variants::{PathTable, VariantTagMap};
use harvest_tools::compilation_unit_to_rust_llm::{
    collect_sources, include_names, is_referenced, output_path, process_compile_commands,
    relative_path, resolve_source, unit_result, CompilationUnitToRustLlm, CompileCommandsEntry,
    TranslationConfig, TranslationResult,
};
use harvest_tools::fs::RawDir;
use harvest_tools::generate_test_suite::{source_texts, GenerateTestSuite, TestSuite};
use harvest_tools::load_raw_source::{is_build_artifact_dir, LoadRawSource};
use harvest_tools::modular_translation_llm::clang::{extract_top_level_decls, sort_by_span};
use harvest_tools::modular_translation_llm::recombine::{
    prepend_dependency_imports, recombine_decls,
};
use harvest_tools::modular_translation_llm::translation::{
    collect_dependencies, combine, interface_request, read_declarations, translate_decls,
    DeclarationRange, Passes, RustDeclaration, TypeTranslationResult,
};
use harvest_tools::modular_translation_llm::translation::TranslationResult as ModuleResult;
use harvest_tools::modular_translation_llm::utils::{
    get_file_from_location, read_source_at_range, RangeError, SourceLocation, SourceRange,
    SpellingLoc,
};
use harvest_tools::names::NameMap;
use harvest_tools::raw_source_to_cargo_llm::{OutputFile, RawSourceToCargoLlm};

fn point(offset: u32) -> SourcePoint {
    SourcePoint { line: 1, column: 1, offset }
}

fn span(file: &str, from: u32, to: u32) -> SourceSpan {
    SourceSpan { file: file.to_string(), start: point(from), end: point(to) }
}

fn entity(kind: EntityKind, file: &str, from: u32, to: u32) -> TopLevelEntity {
    TopLevelEntity {
        kind,
        source_text: String::new(),
        span: span(file, from, to),
        ast: None,
        annotations: EntityAnnotations::default(),
        sub_entities: vec![],
        variant_tags: vec![],
    }
}

#[test]
fn types_nest_as_their_spans_do() {
    let mut map = RichSourceMap::new();
    map.push_entity(entity(EntityKind::RecordDecl, "a.h", 10, 20), true);
    map.push_entity(entity(EntityKind::EnumDecl, "a.h", 30, 40), true);
    // A typedef around the record takes it in.
    map.push_entity(entity(EntityKind::TypedefDecl, "a.h", 5, 25), true);
    assert_eq!(map.app_types.len(), 2);
    let outer = map.app_types.iter().find(|t| t.kind == EntityKind::TypedefDecl).unwrap();
    assert_eq!(outer.sub_entities.len(), 1);
    assert_eq!(outer.sub_entities[0].kind, EntityKind::RecordDecl);
    // One inside it goes below it, and one in another file does not.
    map.push_entity(entity(EntityKind::UnionDecl, "a.h", 22, 24), true);
    map.push_entity(entity(EntityKind::UnionDecl, "b.h", 22, 24), true);
    assert_eq!(map.app_types.len(), 3);
    assert!(map.well_formed());
    assert_eq!(map.describe(), "C top-level items (3 entries)");
    // Nothing is lost on the way, and a type without a container comes last.
    let outer = &map.app_types[1];
    let below: Vec<EntityKind> = outer.sub_entities.iter().map(|e| e.kind).collect();
    assert_eq!(below, vec![EntityKind::RecordDecl, EntityKind::UnionDecl]);
    assert_eq!(map.app_types[0].kind, EntityKind::EnumDecl);
    assert_eq!(map.app_types[2].span.file, "b.h");
    // The same span counts as containing.
    map.push_entity(entity(EntityKind::RecordDecl, "b.h", 22, 24), true);
    assert_eq!(map.app_types.len(), 3);
    assert_eq!(map.app_types[2].sub_entities[0].kind, EntityKind::RecordDecl);
}

#[test]
fn a_type_goes_below_the_first_that_contains_it() {
    let mut nodes = vec![
        entity(EntityKind::RecordDecl, "a.h", 0, 10),
        entity(EntityKind::TypedefDecl, "a.h", 10, 20),
    ];
    RichSourceMap::insert_type_into(&mut nodes, entity(EntityKind::EnumDecl, "a.h", 12, 14));
    assert_eq!(nodes.len(), 2);
    assert_eq!(nodes[1].sub_entities[0].kind, EntityKind::EnumDecl);
    RichSourceMap::insert_type_into(&mut nodes, entity(EntityKind::UnionDecl, "a.h", 5, 25));
    let kinds: Vec<EntityKind> = nodes.iter().map(|e| e.kind).collect();
    assert_eq!(kinds, vec![EntityKind::RecordDecl, EntityKind::UnionDecl]);
    assert_eq!(nodes[1].sub_entities[0].sub_entities.len(), 1);
}

#[test]
fn entities_are_sorted_by_kind() {
    let mut map = RichSourceMap::new();
    map.push_entity(entity(EntityKind::FunctionDecl, "a.c", 0, 5), true);
    map.push_entity(entity(EntityKind::FunctionDecl, "a.h", 0, 5), false);
    map.push_entity(entity(EntityKind::VarDecl, "a.c", 10, 12), true);
    map.push_entity(entity(EntityKind::InclusionDirective, "a.c", 20, 22), false);
    map.push_entity(entity(EntityKind::MacroDefinition, "a.c", 30, 32), false);
    map.push_entity(entity(EntityKind::PreprocessingDirective, "a.c", 40, 42), false);
    assert_eq!((map.app_functions.len(), map.app_func_sigs.len()), (1, 1));
    assert_eq!(map.iter_definitions().len(), 2);
    assert_eq!(map.iter_directives().len(), 3);
    assert_eq!(map.iter_all_entities().len(), 6);
    assert!(map.well_formed());
    map.push_entity(entity(EntityKind::VarDecl, "a.c", 11, 14), true);
    assert!(!map.well_formed());
}

#[test]
fn kinds_have_clang_names() {
    assert_eq!(map_top_level_decl_kind("StructDecl"), Some(EntityKind::RecordDecl));
    assert_eq!(map_top_level_decl_kind("FunctionDecl"), Some(EntityKind::FunctionDecl));
    assert_eq!(map_top_level_decl_kind("ParmDecl"), None);
    match ast_from_entity(EntityKind::FunctionDecl, &Some("f".to_string())) {
        Some(ClangAST::FunctionDecl { name, storage_class }) => {
            assert_eq!(name, "f");
            assert_eq!(storage_class, None);
        }
        other => panic!("unexpected {other:?}"),
    }
}

#[test]
fn functions_declared_in_a_header_are_public() {
    let named = |file: &str, name: &str, storage: Option<&str>| TopLevelEntity {
        ast: Some(ClangAST::FunctionDecl {
            name: name.to_string(),
            storage_class: storage.map(str::to_string),
        }),
        ..entity(EntityKind::FunctionDecl, file, 0, 5)
    };
    let mut functions = vec![
        named("a.c", "shown", None),
        named("a.c", "hidden", None),
        named("a.c", "own", Some("static")),
    ];
    let sigs = vec![named("a.h", "shown", None), named("b.c", "hidden", None), named("a.h", "own", None)];
    annotate_visibility(&mut functions, &sigs);
    let public: Vec<bool> = functions.iter().map(|f| f.annotations.public).collect();
    assert_eq!(public, vec![true, false, false]);
    annotate_visibility(&mut functions, &sigs);
    let again: Vec<bool> = functions.iter().map(|f| f.annotations.public).collect();
    assert_eq!(again, public);
}

fn facts(kind: &str, from: u32, to: u32) -> EntityFacts {
    EntityFacts {
        kind: kind.to_string(),
        name: Some("n".to_string()),
        is_definition: true,
        in_system_header: false,
        has_file: true,
        extent: Some(Extent {
            start_path: "/p/a.c".to_string(),
            start: point(from),
            end_path: "/p/a.c".to_string(),
            end: point(to),
            bytes: b"int f(void) { return 1; }".to_vec(),
        }),
    }
}

#[test]
fn only_entities_of_the_project_are_extracted() {
    let table = PathTable { src_root: "/p".to_string(), canonical: NameMap::new() };
    let mut tags = VariantTagMap::new();
    tags.insert("/p/a.c", vec![("MODE".to_string(), "fast".to_string())]);
    let mut map = RichSourceMap::new();
    let children = vec![
        facts("FunctionDecl", 0, 25),
        EntityFacts { in_system_header: true, ..facts("FunctionDecl", 0, 25) },
        EntityFacts { has_file: false, ..facts("FunctionDecl", 0, 25) },
        EntityFacts { extent: None, ..facts("FunctionDecl", 0, 25) },
        facts("ParmDecl", 0, 25),
    ];
    extract_entities(&children, &tags, &table, &mut map);
    assert_eq!(map.iter_all_entities().len(), 1);
    let f = &map.app_functions[0];
    assert_eq!(f.source_text, "int f(void) { return 1; }");
    assert_eq!(f.variant_tags, vec![("MODE".to_string(), "fast".to_string())]);
    assert!(!f.annotations.public);
}

#[test]
fn an_extent_lies_in_one_file() {
    let across = Extent {
        start_path: "a".to_string(),
        start: point(0),
        end_path: "b".to_string(),
        end: point(1),
        bytes: vec![],
    };
    assert!(across.get_span_and_text().is_none());
}

#[test]
fn sources_are_told_from_generated_files() {
    assert!(is_c_or_header("src/a.c"));
    assert!(is_c_or_header("a.h"));
    assert!(!is_c_or_header("a.cpp"));
    assert!(should_skip_path("build/a.c"));
    assert!(should_skip_path("x/CMakeFiles/a.c"));
    assert!(!should_skip_path("src/builder.c"));
    assert!(is_header_file("A.H"));
    assert!(!is_header_file("a.hpp"));
    let args = generate_parse_args("/p", "src/a.h");
    assert_eq!(args[0], "-std=gnu11");
    assert!(args.contains(&"-I/p/include".to_string()));
    let mut dir = RawDir::new();
    for path in ["src/b.c", "build/x.c", "a.h", "README.md"] {
        dir.set_file(path, vec![]);
    }
    assert_eq!(ParseToAst.files_to_parse(&dir), vec!["a.h", "src/b.c"]);
    assert!(is_build_artifact_dir("build-release"));
    assert!(is_build_artifact_dir("target"));
    assert!(!is_build_artifact_dir("builds"));
    assert_eq!(LoadRawSource::new("/p").directory, "/p");
}

#[test]
fn declarations_come_in_source_order() {
    let items = vec![
        entity(EntityKind::FunctionDecl, "b.c", 0, 5),
        entity(EntityKind::FunctionDecl, "a.c", 9, 12),
        entity(EntityKind::VarDecl, "a.c", 3, 5),
        entity(EntityKind::RecordDecl, "a.c", 0, 2),
        entity(EntityKind::MacroDefinition, "a.c", 20, 22),
    ];
    let sorted = sort_by_span(&items);
    let offsets: Vec<(&str, u32)> =
        sorted.iter().map(|e| (e.span.file.as_str(), e.span.start.offset)).collect();
    assert_eq!(offsets, vec![("a.c", 0), ("a.c", 3), ("a.c", 9), ("a.c", 20), ("b.c", 0)]);
    let decls = extract_top_level_decls(&items);
    assert_eq!(
        (decls.app_types.len(), decls.app_globals.len(), decls.app_functions.len()),
        (1, 1, 2)
    );
    let rest = decls.app_functions_and_globals();
    assert_eq!(rest[0].as_node().kind, EntityKind::VarDecl);
    assert_eq!(
        translate_decls(&decls),
        Some(Passes { types: true, interface: true, functions: true })
    );
    let none: Vec<TopLevelEntity> = vec![];
    assert_eq!(translate_decls(&extract_top_level_decls(&none)), None);
}

fn location(file: &str, offset: usize, tok_len: usize) -> SourceLocation {
    SourceLocation {
        spelling_loc: Some(SpellingLoc { file: file.to_string(), offset, tok_len }),
    }
}

fn nowhere() -> SourceLocation {
    SourceLocation { spelling_loc: None }
}

#[test]
fn ranges_run_to_the_end_of_the_last_token() {
    let mut dir = RawDir::new();
    dir.set_file("a.c", b"int x = 10;".to_vec());
    dir.set_file("bad.c", b"\xff\xff".to_vec());
    let read = |begin: SourceLocation, end: SourceLocation| {
        read_source_at_range(&SourceRange { begin, end }, &dir)
    };
    assert_eq!(read(location("a.c", 4, 1), location("a.c", 8, 2)), Ok("x = 10".to_string()));
    assert_eq!(read(nowhere(), location("a.c", 8, 2)), Err(RangeError::NoBegin));
    assert_eq!(read(location("a.c", 4, 1), nowhere()), Err(RangeError::NoEnd));
    assert_eq!(
        read(location("a.c", 0, 1), location("bad.c", 0, 1)),
        Err(RangeError::ManyFiles)
    );
    assert_eq!(read(location("c.c", 0, 1), location("c.c", 0, 1)), Err(RangeError::NoFile));
    assert_eq!(read(location("a.c", 0, 1), location("a.c", 10, 9)), Err(RangeError::TooLong));
    assert_eq!(
        read(location("bad.c", 0, 1), location("bad.c", 0, 1)),
        Err(RangeError::NotUtf8)
    );
    assert_eq!(get_file_from_location(&Some(location("a.c", 0, 1))), Some("a.c".to_string()));
    assert_eq!(get_file_from_location(&None), None);
}

#[test]
fn only_public_functions_of_a_library_keep_the_c_interface() {
    let mut dir = RawDir::new();
    dir.set_file("a.c", b"f g v".to_vec());
    let at = |offset: usize, visibility: Option<bool>| DeclarationRange {
        range: SourceRange { begin: location("a.c", offset, 1), end: location("a.c", offset, 1) },
        visibility,
    };
    let functions = vec![at(0, Some(true)), at(2, None)];
    let globals = vec![at(4, Some(true))];
    let inputs = interface_request(&functions, &globals, &dir, ProjectKind::Library).unwrap();
    let shown: Vec<(&str, bool)> =
        inputs.iter().map(|i| (i.source.as_str(), i.enforce_ffi_interface)).collect();
    assert_eq!(shown, vec![("f", true), ("g", false), ("v", false)]);
    let inputs = interface_request(&functions, &globals, &dir, ProjectKind::Executable).unwrap();
    assert!(inputs.iter().all(|i| !i.enforce_ffi_interface));
    assert_eq!(read_declarations(&globals, &dir), Ok(vec!["v".to_string()]));
}

fn declaration(code: &str, deps: &[&str]) -> RustDeclaration {
    RustDeclaration {
        rust_code: code.to_string(),
        dependencies: deps.iter().map(|d| d.to_string()).collect(),
    }
}

#[test]
fn imports_stand_in_front_once() {
    let decls = vec![
        declaration("fn a() {}", &["std::io", " "]),
        declaration("fn b() {}", &["libc::c_int", " std::io "]),
    ];
    assert_eq!(collect_dependencies(&decls), vec![" ", " std::io ", "libc::c_int", "std::io"]);
    assert_eq!(
        prepend_dependency_imports(&decls, "code".to_string()),
        "use libc::c_int;\nuse std::io;\n\ncode"
    );
    assert_eq!(
        prepend_dependency_imports(&decls, " ".to_string()),
        "use libc::c_int;\nuse std::io;"
    );
    let types = TypeTranslationResult { translations: vec![declaration("struct S;", &[])] };
    let all = combine(types, decls);
    assert_eq!(all.len(), 3);
    let result = ModuleResult { translations: all, cargo_toml: "[package]".to_string() };
    let files = recombine_decls(result, ProjectKind::Library);
    assert_eq!(
        files.get_file("src/lib.rs").unwrap(),
        b"use libc::c_int;\nuse std::io;\n\nstruct S;\n\nfn a() {}\n\nfn b() {}"
    );
    assert_eq!(files.get_file("Cargo.toml").unwrap(), b"[package]");
}

fn entry(directory: &str, file: &str) -> CompileCommandsEntry {
    CompileCommandsEntry {
        directory: directory.to_string(),
        file: file.to_string(),
        command: None,
        arguments: None,
    }
}

#[test]
fn paths_of_units_are_resolved() {
    assert_eq!(resolve_source(&entry("/p/build", "../a.c")), "/p/build/../a.c");
    assert_eq!(resolve_source(&entry("/p/build", "/q/a.c")), "/q/a.c");
    assert_eq!(relative_path("/p/src/a.c", "/p"), "src/a.c");
    assert_eq!(relative_path("/q/a.c", "/p"), "a.c");
    assert_eq!(output_path("src/net/a.c"), "src/net/a.rs");
}

#[test]
fn only_included_headers_are_sent() {
    let main = "#include <stdio.h>\n  #include \"util.h\"\nint main;";
    let names = include_names(main);
    assert!(names.contains("util.h"));
    assert!(!names.contains("stdio.h"));
    assert!(is_referenced("inc/util.h", &names));
    assert!(!is_referenced("inc/util.c", &names));
    let files = vec![
        ("/p/inc/util.h".to_string(), "U".to_string()),
        ("/p/inc/other.h".to_string(), "O".to_string()),
    ];
    let bundle = collect_sources(&entry("/p", "src/a.c"), "/p", main, &files);
    assert_eq!(bundle.main_source.0, "src/a.c");
    assert_eq!(bundle.headers, vec![("inc/util.h".to_string(), "U".to_string())]);
    let sent = bundle.request_files();
    assert_eq!(sent.len(), 2);
    assert_eq!(sent[0].1, main);
}

#[test]
fn every_unit_ends_as_a_result_or_an_error() {
    let entries = vec![entry("/p", "a.c"), entry("/p", "b.c")];
    let done = unit_result(&entries[0], "/p", "/out", "fn main() {}");
    assert_eq!(done.source_file, "a.c");
    assert_eq!(done.output_file, "/out/a.rs");
    assert_eq!(done.output_size, 12);
    let outcomes: Vec<Result<TranslationResult, String>> = vec![Ok(done), Err("no".to_string())];
    let summary = process_compile_commands(&entries, outcomes).unwrap();
    assert_eq!(summary.results.len(), 1);
    assert_eq!(summary.errors, vec![("b.c".to_string(), "no".to_string())]);
    let failed = vec![Err("x".to_string()), Err("y".to_string())];
    assert_eq!(process_compile_commands(&entries, failed).unwrap().errors.len(), 2);
    assert!(process_compile_commands(&vec![], vec![]).is_none());
    let config = TranslationConfig {
        custom_prompt: Some("mine".to_string()),
        parallel: false,
        parallelism: 1,
    };
    assert_eq!(config.system_prompt("builtin"), "mine");
}

#[test]
fn a_single_file_needs_a_place() {
    let dir = RawDir::new();
    let file = CompilationUnitToRustLlm.output(&dir, Some("out.rs"), "code").unwrap();
    assert_eq!(file.path, "out.rs");
    assert_eq!(file.contents, "code");
    assert_eq!(file.source_file, "unknown.c");
    assert!(CompilationUnitToRustLlm.output(&dir, None, "code").is_none());
    let mut sources = RawDir::new();
    sources.set_file("src/b.c", vec![]);
    sources.set_file("src/a.h", vec![]);
    let other = CompilationUnitToRustLlm.output(&sources, Some("out.rs"), "code").unwrap();
    assert_eq!(other.source_file, "unknown.c");
    sources.set_file("src/.c", vec![]);
    let named = CompilationUnitToRustLlm.output(&sources, Some("out.rs"), "code").unwrap();
    assert_eq!(named.source_file, "src/.c");
}

#[test]
fn files_are_sent_as_text_in_order() {
    let mut dir = RawDir::new();
    dir.set_file("b.c", b"\xffb".to_vec());
    dir.set_file("a.c", b"a".to_vec());
    assert_eq!(
        source_texts(&dir),
        vec![
            ("a.c".to_string(), "a".to_string()),
            ("b.c".to_string(), "\u{fffd}b".to_string())
        ]
    );
    assert!(GenerateTestSuite.request().starts_with("Generate a comprehensive"));
    assert_eq!(TestSuite { source: "s".to_string() }.describe(), "s");
}

#[test]
fn a_later_file_of_a_reply_wins() {
    let file = |path: &str, contents: &str| OutputFile {
        contents: contents.to_string(),
        path: path.to_string(),
    };
    let dir = RawSourceToCargoLlm.package(&vec![file("a", "1"), file("b", "2"), file("a", "3")]);
    assert_eq!(dir.get_file("a").unwrap(), b"3");
    assert_eq!(dir.get_file("b").unwrap(), b"2");
}
