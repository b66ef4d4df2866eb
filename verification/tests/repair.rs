use harvest_tools::auto_fix::error_classifier::DiagLevel;
use harvest_tools::cargo_output::MessagePart;
use harvest_tools::fix_declarations_llm::attribution::{
    attribute_errors, find_enclosing_decl, DeclBounds, FixError, ItemRanges,
};
use harvest_tools::fix_declarations_llm::interface_ctx::{
    check_items, get_interface_ctx, stub_declaration,
};
use harvest_tools::fix_declarations_llm::patches::{
    add_patch, apply_patches, Patch,
};
use harvest_tools::fix_declarations_llm::tool::{DeclFix, FixDeclarationsLlm};
use harvest_tools::fs::RawDir;
use harvest_tools::modular_fix_llm::error_classifier::{classify_errors, BuildOutput};
use harvest_tools::modular_fix_llm::fix_llm::{fill_prompt, fixed_source};
use harvest_tools::modular_fix_llm::repair_loop::{
    apply_reply, history_dir_name, plan_repair, ModularFixLlm, RepairPlan,
};
use harvest_tools::modular_fix_llm::repair_state::{
    stub_declaration as stub_for_repair, MutableDeclaration, RepairState,
};
use harvest_tools::modular_fix_llm::splitter::split_source as split_for_repair;
use harvest_tools::package::{read_package, PackageError};
use harvest_tools::quantize_rust_spans::{extract_top_level_spans, LineColumn, QuantizeRustSpans};
use harvest_tools::rust_syntax::{
    check_all_print, check_definitions, check_keeps_tokens, collect_ranges, skip_shebang,
    write_outline, Body, ItemParts, SourceToken,
};
use harvest_tools::split_and_format::{split_source, SplitAndFormat};

fn dir(files: &[(&str, &[u8])]) -> RawDir {
    let mut out = RawDir::new();
    for (path, bytes) in files {
        out.set_file(path, bytes.to_vec());
    }
    out
}

const TOML: &[u8] = b"[package]\nname = \"p\"\n";

#[test]
fn a_package_names_its_source() {
    let both = dir(&[("Cargo.toml", TOML), ("src/main.rs", b"fn main() {}"), ("src/lib.rs", b"")]);
    let p = read_package(&both).unwrap();
    assert_eq!(p.source_file_name, "src/main.rs");
    assert_eq!(p.source, "fn main() {}");
    let lib = dir(&[("Cargo.toml", TOML), ("src/lib.rs", b"")]);
    assert_eq!(read_package(&lib).unwrap().source_file_name, "src/lib.rs");
}

#[test]
fn a_package_may_be_unfit() {
    assert_eq!(read_package(&dir(&[("Cargo.toml", TOML)])).err(), Some(PackageError::NoSource));
    assert_eq!(
        read_package(&dir(&[("src/main.rs", b"")])).err(),
        Some(PackageError::NoManifest)
    );
    let bad = dir(&[("Cargo.toml", TOML), ("src/main.rs", b"\xff")]);
    assert_eq!(read_package(&bad).err(), Some(PackageError::NotUtf8));
    assert_eq!(SplitAndFormat.run(&bad).err(), Some(PackageError::NotUtf8));
}

#[test]
fn a_source_is_split_into_formatted_items() {
    let decls = split_source("use std::io; struct  S{x:i32}\nfn f(){ g( ) ; }\n");
    assert_eq!(
        decls,
        vec!["use std::io;", "struct S {\n    x: i32,\n}", "fn f() {\n    g();\n}"]
    );
}

#[test]
fn a_source_that_does_not_parse_stays_whole() {
    assert_eq!(split_source("fn f( {\n\n"), vec!["fn f( {"]);
    let decls = split_for_repair("fn f( {\n");
    assert_eq!(decls.len(), 1);
}

#[test]
fn splitting_a_package_indexes_what_is_compiled() {
    let pkg = dir(&[("Cargo.toml", TOML), ("src/lib.rs", b"fn a(){}\nfn b(){\n}")]);
    let split = SplitAndFormat.run(&pkg).unwrap();
    assert_eq!(split.assembled_source, "fn a() {}\n\nfn b() {}");
    assert_eq!(split.line_index, vec![(1, 1, 0), (3, 3, 1)]);
}

#[test]
fn spans_cover_the_top_level_items() {
    let spans = extract_top_level_spans("fn a() {\n}\n  struct S;\n");
    assert_eq!(
        spans,
        vec![
            (LineColumn { line: 1, column: 0 }, LineColumn { line: 2, column: 1 }),
            (LineColumn { line: 3, column: 2 }, LineColumn { line: 3, column: 11 }),
        ]
    );
    assert!(extract_top_level_spans("fn (").is_empty());
    assert!(LineColumn { line: 1, column: 9 } < LineColumn { line: 2, column: 0 });
    assert!(LineColumn { line: 2, column: 1 } > LineColumn { line: 2, column: 0 });
}

#[test]
fn only_rust_files_are_quantized() {
    let pkg = dir(&[
        ("src/main.rs", b"fn main() {}"),
        ("build.rs", b"fn main() {}\nfn x() {}"),
        ("README.md", b"fn main() {}"),
    ]);
    let map = QuantizeRustSpans.run(&pkg).unwrap();
    assert_eq!(map.items.entries.len(), 2);
    assert_eq!(map.items.get("build.rs").unwrap().len(), 2);
    assert_eq!(map.items.get("src/main.rs").unwrap().len(), 1);
    let bad = dir(&[("src/main.rs", b"\xff")]);
    assert_eq!(QuantizeRustSpans.run(&bad).err(), Some(PackageError::NotUtf8));
}

const SOURCE: &str = "fn a() {\n    x\n}\n\nfn b() {\n    1\n}\n";

fn items() -> ItemRanges {
    let mut items = ItemRanges::new();
    items.insert("src/main.rs", vec![(0, 16), (18, 34)]);
    items
}

fn package() -> RawDir {
    dir(&[("Cargo.toml", TOML), ("src/main.rs", SOURCE.as_bytes())])
}

fn error_at(file: &str, from: u32, to: u32, message: &str) -> Vec<MessagePart> {
    let span = (file.to_string(), 1, 1, 1, 1, from, to, true);
    vec![("Error".to_string(), message.to_string(), vec![span])]
}

#[test]
fn an_error_belongs_to_the_item_around_it() {
    let items = items();
    assert_eq!(find_enclosing_decl(&items, "src/main.rs", 13, 14), Ok(DeclBounds::Range(0, 16)));
    // Both ends have to lie in the item.
    assert_eq!(find_enclosing_decl(&items, "src/main.rs", 13, 20), Ok(DeclBounds::Whole));
    assert_eq!(find_enclosing_decl(&items, "src/none.rs", 0, 1), Err(FixError::NoItems));
}

#[test]
fn errors_are_grouped_by_item() {
    let warning = vec![("Warning".to_string(), "w".to_string(), vec![])];
    let diags = vec![
        error_at("src/main.rs", 13, 14, "one"),
        error_at("src/main.rs", 30, 31, "two"),
        warning,
        error_at("src/main.rs", 14, 15, "three"),
    ];
    let groups = attribute_errors(&diags, &items(), &package()).unwrap();
    assert_eq!(groups.len(), 2);
    assert_eq!(groups[0].bounds, DeclBounds::Range(0, 16));
    assert_eq!(groups[0].messages, vec!["one", "three"]);
    assert_eq!(groups[1].messages, vec!["two"]);
    // No message is lost.
    let total: usize = groups.iter().map(|g| g.messages.len()).sum();
    assert_eq!(total, 3);
    let missing = vec![error_at("src/gone.rs", 0, 1, "x")];
    assert_eq!(
        attribute_errors(&missing, &items(), &package()).err(),
        Some(FixError::NoFile)
    );
}

#[test]
fn a_plan_asks_for_each_broken_item_once() {
    let diags = vec![
        error_at("src/main.rs", 13, 14, "cannot find `x`"),
        error_at("src/main.rs", 13, 14, "mismatched types"),
    ];
    let plan = FixDeclarationsLlm::plan(&diags, &items(), &package()).unwrap();
    assert_eq!(plan.requests.len(), 1);
    assert_eq!(plan.requests[0].decl_source, "fn a() {\n    x\n}");
    assert_eq!(plan.requests[0].errors_text, "cannot find `x`\n\nmismatched types");
    assert_eq!(plan.context, "fn a() { todo!() }\n\nfn b() { todo!() }");
    let mut outside = ItemRanges::new();
    outside.insert("src/main.rs", vec![(0, 1000)]);
    assert!(!check_items(&outside, &package()));
    assert_eq!(
        FixDeclarationsLlm::plan(&diags, &outside, &package()).err(),
        Some(FixError::BadRange)
    );
}

#[test]
fn the_context_shows_every_item_with_its_body_stubbed() {
    assert!(check_items(&items(), &package()));
    assert_eq!(
        get_interface_ctx(&items(), &package()),
        "fn a() { todo!() }\n\nfn b() { todo!() }"
    );
}

#[test]
fn replies_replace_their_items_alone() {
    let plan = FixDeclarationsLlm::plan(
        &vec![
            error_at("src/main.rs", 30, 31, "two"),
            error_at("src/main.rs", 13, 14, "one"),
        ],
        &items(),
        &package(),
    )
    .unwrap();
    let replies = vec![Some("fn b() {}".to_string()), None];
    let (fixed, count) = FixDeclarationsLlm::apply(&plan.requests, &replies, &package()).unwrap();
    assert_eq!(count, 1);
    assert_eq!(
        fixed.get_file("src/main.rs").unwrap(),
        b"fn a() {\n    x\n}\n\nfn b() {}\n"
    );
    assert_eq!(fixed.get_file("Cargo.toml").unwrap(), TOML);
    let both = vec![Some("B".to_string()), Some("A".to_string())];
    let (fixed, count) = FixDeclarationsLlm::apply(&plan.requests, &both, &package()).unwrap();
    assert_eq!(count, 2);
    assert_eq!(fixed.get_file("src/main.rs").unwrap(), b"A\n\nB\n");
    // An empty reply changes nothing.
    let empty = vec![Some(String::new()), None];
    let (same, count) = FixDeclarationsLlm::apply(&plan.requests, &empty, &package()).unwrap();
    assert_eq!(count, 0);
    assert_eq!(same.get_file("src/main.rs").unwrap(), SOURCE.as_bytes());
}

#[test]
fn overlapping_replies_are_made_one_after_another() {
    let one = |start: usize, end: usize| DeclFix {
        file: "src/main.rs".to_string(),
        start,
        end,
        decl_source: String::new(),
        errors_text: String::new(),
    };
    let len = SOURCE.len();
    // The whole file grows by one item; the second repair is moved by that.
    let whole = format!("// {SOURCE}");
    let replies = vec![Some(whole.clone()), Some("fn c() {}".to_string())];
    let (fixed, count) =
        FixDeclarationsLlm::apply(&vec![one(0, len), one(18, 34)], &replies, &package()).unwrap();
    assert_eq!(count, 2);
    let expected = format!("{}fn c() {{}}{}", &whole[..21], &whole[37..]);
    assert_eq!(fixed.get_file("src/main.rs").unwrap(), expected.as_bytes());
    // Here the file has become too short for the second repair.
    let replies = vec![Some("x".to_string()), Some("y".to_string())];
    assert_eq!(
        FixDeclarationsLlm::apply(&vec![one(0, 16), one(8, 20)], &replies, &package()).err(),
        Some(FixError::Misplaced)
    );
    // Nor does a repair reach beyond its file.
    assert_eq!(
        FixDeclarationsLlm::apply(&vec![one(0, len + 1)], &vec![Some("x".to_string())], &package())
            .err(),
        Some(FixError::Misplaced)
    );
}

#[test]
fn overlapping_patches_are_moved() {
    let patch = |start: usize, end: usize, text: &str| Patch { start, end, text: text.to_string() };
    let mut bytes = b"abcdefgh".to_vec();
    let patches = vec![patch(0, 8, "ABCDEFGHIJ"), patch(2, 4, "-")];
    assert!(apply_patches(&mut bytes, &patches));
    assert_eq!(bytes, b"ABCD-GHIJ");
    assert!(!apply_patches(&mut bytes, &vec![patch(0, 8, "A"), patch(2, 4, "-")]));
    assert_eq!(bytes, b"ABCD-GHIJ");
}

#[test]
fn patches_are_kept_in_order() {
    let patch = |start: usize, end: usize, text: &str| Patch { start, end, text: text.to_string() };
    let mut patches = vec![];
    add_patch(&mut patches, patch(6, 7, "G"));
    add_patch(&mut patches, patch(1, 3, "bcbc"));
    assert_eq!(patches.iter().map(|p| p.start).collect::<Vec<_>>(), vec![1, 6]);
    assert!(!apply_patches(&mut b"abcdef".to_vec(), &patches));
    let mut bytes = b"abcdefgh".to_vec();
    assert!(apply_patches(&mut bytes, &patches));
    assert_eq!(bytes, b"abcbcdefGh");
    // Without patches nothing changes.
    assert!(apply_patches(&mut bytes, &vec![]));
    assert_eq!(bytes, b"abcbcdefGh");
}

#[test]
fn stubs_need_text() {
    assert_eq!(stub_declaration(b"\xff"), None);
    assert_eq!(stub_declaration(b"fn (\n\n"), Some("fn (".to_string()));
}

fn state() -> RepairState {
    RepairState::new(
        vec![
            MutableDeclaration { source: "fn a() {\n    x\n}".to_string() },
            MutableDeclaration { source: "fn b() {}".to_string() },
        ],
        "[package]\n".to_string(),
        "src/main.rs".to_string(),
    )
}

fn message(level: &str, line: usize) -> String {
    format!(
        "{{\"reason\":\"compiler-message\",\"package_id\":\"p 0.1.0\",\
         \"manifest_path\":\"/p/Cargo.toml\",\"target\":{{\"kind\":[\"bin\"],\
         \"crate_types\":[\"bin\"],\"name\":\"p\",\"src_path\":\"/p/src/main.rs\",\
         \"edition\":\"2021\",\"doc\":true,\"doctest\":false,\"test\":true}},\"message\":{{\
         \"rendered\":\"{level} at {line}\",\"children\":[],\"code\":null,\"level\":\"{level}\",\
         \"message\":\"m\",\"spans\":[{{\"file_name\":\"src/main.rs\",\"byte_start\":0,\
         \"byte_end\":1,\"line_start\":{line},\"line_end\":{line},\"column_start\":1,\
         \"column_end\":2,\"is_primary\":true,\"text\":[],\"label\":null,\
         \"suggested_replacement\":null,\"suggestion_applicability\":null,\
         \"expansion\":null}}]}}}}\n"
    )
}

#[test]
fn lines_belong_to_declarations() {
    let mut state = state();
    assert_eq!(state.assemble_source(), "fn a() {\n    x\n}\n\nfn b() {}");
    assert_eq!(state.find_declaration_for_line(2), Some(0));
    assert_eq!(state.find_declaration_for_line(4), None);
    assert_eq!(state.find_declaration_for_line(5), Some(1));
    state.update_declaration(0, "fn a() {}".to_string());
    assert_eq!(state.find_declaration_for_line(3), Some(1));
    // A position without a declaration is left alone.
    state.update_declaration(9, "fn z() {}".to_string());
    assert_eq!(state.assemble_source(), "fn a() {}\n\nfn b() {}");
    let files = state.to_cargo_package();
    assert_eq!(files.get_file("src/main.rs").unwrap(), b"fn a() {}\n\nfn b() {}");
    assert_eq!(files.get_file("Cargo.toml").unwrap(), b"[package]\n");
}

#[test]
fn the_interface_shows_stubbed_declarations() {
    let context = state().interface_context();
    assert!(context.contains("fn a() {\n    todo!()\n}"), "{context}");
    assert!(!context.contains("    x"), "{context}");
}

#[test]
fn a_package_becomes_a_repair_state() {
    let state = RepairState::from_cargo_package(&package()).unwrap();
    assert_eq!(state.declarations.len(), 2);
    assert_eq!(state.source_file_name, "src/main.rs");
    assert_eq!(
        RepairState::from_cargo_package(&RawDir::new()).err(),
        Some(PackageError::NoSource)
    );
}

#[test]
fn builds_are_classified() {
    let stdout = message("warning", 1) + &message("error", 2);
    let found = classify_errors(&BuildOutput { success: false, stdout_bytes: stdout.into_bytes() });
    assert_eq!((found.total_errors, found.total_warnings), (1, 1));
    assert_eq!(found.files.len(), 1);
    assert_eq!(found.files[0].file_path, "src/main.rs");
    assert_eq!(found.files[0].diagnostics.len(), 1);
    assert_eq!(found.files[0].diagnostics[0].level, DiagLevel::Error);
}

#[test]
fn a_failed_build_asks_for_its_declarations() {
    let mut state = state();
    let stdout = message("error", 2) + &message("error", 4) + &message("error", 3);
    let build = BuildOutput { success: false, stdout_bytes: stdout.into_bytes() };
    let (found, plan) = plan_repair(&mut state, &build, 0, 3);
    assert_eq!(found.total_errors, 3);
    match plan {
        RepairPlan::Fix { requests, .. } => {
            assert_eq!(requests.len(), 1);
            assert_eq!(requests[0].decl_idx, 0);
            assert_eq!(requests[0].decl_source, "fn a() {\n    x\n}");
            assert_eq!(requests[0].errors_text, "error at 2\n\nerror at 3");
        }
        RepairPlan::Stop => panic!("there are errors"),
    }
    // The last iteration asks for nothing.
    assert!(matches!(plan_repair(&mut state, &build, 3, 3).1, RepairPlan::Stop));
    let done = BuildOutput { success: true, stdout_bytes: vec![] };
    assert!(matches!(plan_repair(&mut state, &done, 0, 3).1, RepairPlan::Stop));
}

#[test]
fn replies_update_their_declaration() {
    let mut state = state();
    assert!(apply_reply(&mut state, 1, Some("fn b() -> i32 {\n    1\n}".to_string())));
    assert!(!apply_reply(&mut state, 0, None));
    assert_eq!(state.assemble_source(), "fn a() {\n    x\n}\n\nfn b() -> i32 {\n    1\n}");
}

#[test]
fn prompts_are_filled_in_order() {
    assert_eq!(
        fill_prompt("C: {context} E: {errors} D: {declaration}", "c", "e", "d"),
        "C: c E: e D: d"
    );
    // What a text brings in is filled by the texts after it.
    assert_eq!(fill_prompt("{context}", "{errors}", "e", "d"), "e");
    assert_eq!(fixed_source("fn a() {}\n\n"), "fn a() {}");
    assert_eq!(history_dir_name(4), "iter_4");
    assert_eq!(ModularFixLlm::default_max_iterations(), 5);
}

#[test]
fn a_macro_definition_is_a_declaration_of_its_own() {
    let source = "macro_rules! one { () => { 1 }; ($x:expr) => { $x } }\nfn f() -> i32 { one!() }\n";
    let parts = split_source(source);
    assert_eq!(parts.len(), 2);
    assert!(parts[0].starts_with("macro_rules! one {"));
    assert_eq!(parts[1], "fn f() -> i32 {\n    one!()\n}");
}

#[test]
fn a_macro_without_rules_keeps_the_source_whole() {
    let source = "macro_rules! odd { nothing here }\nfn f() {}\n";
    let parts = split_source(source);
    assert_eq!(parts.len(), 1);
    assert_eq!(parts[0], "macro_rules! odd { nothing here }\nfn f() {}");
}

#[test]
fn rules_are_told_from_other_macro_bodies() {
    let word = |w: &str| SourceToken::Word(w.to_string());
    let head = || vec![word("macro_rules"), SourceToken::Punct('!', false), word("m"), SourceToken::Open('{')];
    let arrow = || vec![SourceToken::Punct('=', true), SourceToken::Punct('>', false)];
    let one = || SourceToken::Literal("1".to_string());
    let group = || vec![SourceToken::Open('('), one(), SourceToken::Close(')')];

    let mut fits = head();
    fits.extend(group());
    fits.extend(arrow());
    fits.extend(group());
    fits.push(SourceToken::Punct(';', false));
    fits.extend(group());
    fits.push(SourceToken::Close('}'));
    assert!(check_definitions(&fits));

    let mut missing = head();
    missing.extend(group());
    missing.extend(group());
    missing.push(SourceToken::Close('}'));
    assert!(!check_definitions(&missing));
    assert!(check_definitions(&vec![word("macro_rules"), one()]));
}

#[test]
fn attributes_inside_a_body_stay_in_its_stub() {
    let stub = stub_for_repair("#[inline] fn f() { #![allow(unused)] g(); }\nimpl S { fn m(&self) { 1; } const N: u8 = 1; }");
    assert_eq!(
        stub,
        "#[inline]\nfn f() {\n    #![allow(unused)]\n    todo!()\n}\nimpl S {\n    fn m(&self) {\n        todo!()\n    }\n    const N: u8 = 1;\n}"
    );
    assert_eq!(stub_for_repair("fn f( {\n"), "fn f( {");
}

#[test]
fn an_outline_empties_texts_and_keeps_characters() {
    let literal = |l: &str| SourceToken::Literal(l.to_string());
    let tokens = vec![
        SourceToken::Word("f".to_string()),
        SourceToken::Open('('),
        literal("\"Expr::Verbatim(\""),
        SourceToken::Punct(',', false),
        literal("br#\"x\"#"),
        SourceToken::Punct(',', false),
        literal("'\"'"),
        SourceToken::Punct('&', true),
        SourceToken::Punct('\'', true),
        SourceToken::Word("a".to_string()),
        literal("b'\"'"),
        literal("c\"x\""),
        literal("1u8"),
        SourceToken::Close(')'),
    ];
    assert_eq!(
        write_outline(&tokens),
        "f ( \"\" , b\"\" , '\"' &'a b'\"' c\"\" 1u8 ) "
    );
}

#[test]
fn forms_show_what_is_kept_as_tokens() {
    assert!(!check_keeps_tokens("Item::Fn { stmts: [Stmt::Expr(Expr::Verbatim(TokenStream []))] }"));
    assert!(check_keeps_tokens("Item::Fn(Expr::Verbatim(TokenStream [Ident { sym: x }]))"));
    assert!(check_keeps_tokens("Item::Type(Type::Verbatim(TokenStream []))"));
    assert!(!check_keeps_tokens("Item::Use(Ident { sym: Verbatim })"));
    let forms = vec!["Item::Verbatim(TokenStream [Ident { sym: x }])".to_string()];
    let bare = vec![ItemParts::Bare("x".to_string())];
    let other = vec![ItemParts::Other];
    let text = |t: &str| vec![Some(t.to_string())];
    assert!(check_all_print(&bare, &vec![None], &forms));
    assert!(!check_all_print(&other, &text("x"), &forms));
    assert!(!check_all_print(&vec![], &text("x"), &forms));
    let plain = vec!["Item::Use".to_string()];
    assert!(check_all_print(&other, &text("use x;"), &plain));
    assert!(!check_all_print(&other, &vec![None], &plain));
    assert!(!check_all_print(&other, &text("macro_rules! m { x }"), &plain));
    assert!(check_all_print(&other, &text("n! { macro_rules! m { x } }"), &plain));
    assert!(check_all_print(&other, &text("#[n(macro_rules! m { x })] use x;"), &plain));
    assert!(check_all_print(&other, &text("n::macro_rules! m { x }"), &plain));
    assert!(!check_all_print(&other, &text("if !{ macro_rules! m { x } true }"), &plain));
    assert!(!check_all_print(&other, &text("break 'a !{ macro_rules! m { x } }"), &plain));
}

#[test]
fn a_shebang_is_cut_off_behind_a_byte_order_mark() {
    assert_eq!(skip_shebang("#!/bin/run\nfn f() {}", Some("#!/bin/run")), "\nfn f() {}");
    assert_eq!(skip_shebang("\u{feff}#!x\ny", Some("#!x")), "\ny");
    assert_eq!(skip_shebang("fn f() {}", None), "fn f() {}");
    assert_eq!(skip_shebang("\u{feff}fn f() {}", None), "fn f() {}");
    let stub = stub_for_repair("\u{feff}#!/bin/run é\nfn f() { g(); }\n");
    assert_eq!(stub, "fn f() {\n    todo!()\n}");
}

#[test]
fn bodies_are_those_of_functions_and_methods() {
    let body = |a: usize, b: usize| Body { range: a..b, attributes: vec![] };
    assert_eq!(collect_ranges(&ItemParts::Fn(body(3, 9))), vec![(3, 9)]);
    let members = vec![Some(body(1, 2)), None, Some(body(4, 6))];
    assert_eq!(collect_ranges(&ItemParts::Impl(members)), vec![(1, 2), (4, 6)]);
    assert!(collect_ranges(&ItemParts::Bare("x".to_string())).is_empty());
    assert!(collect_ranges(&ItemParts::Other).is_empty());
}

#[test]
fn empty_statements_and_telling_texts_split() {
    let parts = split_source("fn f() { g();; }\nfn h() -> &'static str { \"Expr::Verbatim(\" }\n");
    assert_eq!(parts.len(), 2);
    assert_eq!(parts[0], "fn f() {\n    g();\n}");
    assert_eq!(parts[1], "fn h() -> &'static str {\n    \"Expr::Verbatim(\"\n}");
    // Splitting again gives the same: nothing depends on what was read before.
    assert_eq!(split_source("fn f() { g();; }\n"), vec!["fn f() {\n    g();\n}"]);
    assert_eq!(split_source("fn f() { g();; }\n"), vec!["fn f() {\n    g();\n}"]);
}

#[test]
fn items_behind_a_shebang_split() {
    let parts = split_source("#!/usr/bin/env run\n//! Doc.\nstruct A;\nstruct B;\n");
    assert_eq!(parts, vec!["struct A;", "struct B;"]);
}

#[test]
fn syntax_kept_as_tokens_keeps_the_source_whole() {
    let source = "fn f() { let box x = 1; }\nfn g() {}\n";
    let parts = split_source(source);
    assert_eq!(parts, vec![source.trim_end()]);
}

#[test]
fn a_bare_token_list_is_printed_as_its_tokens() {
    let parts = split_source("fn f();\nfn g() {}\n");
    assert_eq!(parts, vec!["fn f () ;", "fn g() {}"]);
}

#[test]
fn macros_inside_macros_need_not_be_made_of_rules() {
    let source = "macro_rules! outer { ($n:ident) => { macro_rules! inner { $n } } }\nm! { macro_rules! inner { x } }\nfn f() {}\n";
    let parts = split_source(source);
    assert_eq!(parts.len(), 3);
    assert!(parts[0].starts_with("macro_rules! outer {"));
    assert_eq!(parts[2], "fn f() {}");
    let inside = "fn f() { macro_rules! odd { x } }\nfn g() {}\n";
    assert_eq!(split_source(inside), vec![inside.trim_end()]);
}
