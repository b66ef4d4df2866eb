use harvest_tools::build_config::ir::{
    BuildConfigIR, ConfigVarKind, ConfigVariable, SourceSelection, SourceVariant, SubdirSelection,
    SubdirVariant, TargetDecl, TargetKind,
};
use harvest_tools::c_ast::rsm::{SourcePoint, SourceSpan};
use harvest_tools::c_ast::variants::{
    build_variant_tag_map, configured_files, configured_paths, variant_tags_for, PathTable,
    VariantTagMap,
};
use harvest_tools::names::NameMap;

fn span_for(file: &str) -> SourceSpan {
    let point = SourcePoint { line: 1, column: 1, offset: 0 };
    SourceSpan { file: file.to_string(), start: point, end: point }
}

/// A source tree whose files resolve from `/tmp` into `/private/tmp`.
struct Tree {
    paths: PathTable,
}

impl Tree {
    fn new() -> Tree {
        Tree {
            paths: PathTable { src_root: "/tmp/project".to_string(), canonical: NameMap::new() },
        }
    }

    fn touch(&mut self, rel: &str) -> String {
        let path = format!("/tmp/project/{rel}");
        let canonical = format!("/private/tmp/project/{rel}");
        self.paths.canonical.insert(&path, canonical.clone());
        canonical
    }
}

fn synthetic_backend_selection() -> SourceSelection {
    SourceSelection {
        target: "backend".into(),
        driving_var: "BACKEND".into(),
        variants: vec![
            SourceVariant {
                value: "alpha".into(),
                files: vec!["src/backend_alpha.c".to_string()],
            },
            SourceVariant {
                value: "beta".into(),
                files: vec!["src/backend_beta.c".to_string()],
            },
        ],
    }
}

#[test]
fn build_variant_tag_map_returns_empty_for_none() {
    let table = Tree::new();
    let map = build_variant_tag_map(None, &table.paths);
    assert!(map.entries.is_empty());
}

#[test]
fn build_variant_tag_map_returns_empty_for_empty_ir() {
    let table = Tree::new();
    let cfg = BuildConfigIR {
        is_empty: true,
        ..Default::default()
    };
    let map = build_variant_tag_map(Some(&cfg), &table.paths);
    assert!(map.entries.is_empty());
}

#[test]
fn build_variant_tag_map_keys_each_variant_file() {
    let mut table = Tree::new();
    let alpha = table.touch("src/backend_alpha.c");
    let beta = table.touch("src/backend_beta.c");

    let cfg = BuildConfigIR {
        variables: vec![ConfigVariable {
            name: "BACKEND".into(),
            kind: ConfigVarKind::Enum {
                values: vec!["alpha".into(), "beta".into()],
                numeric: false,
            },
            default: Some("alpha".into()),
        }],
        source_selections: vec![synthetic_backend_selection()],
        ..Default::default()
    };

    let map = build_variant_tag_map(Some(&cfg), &table.paths);

    assert_eq!(
        map.get(&alpha),
        Some(&vec![("BACKEND".to_string(), "alpha".to_string())])
    );
    assert_eq!(
        map.get(&beta),
        Some(&vec![("BACKEND".to_string(), "beta".to_string())])
    );
}

#[test]
fn variant_tags_for_returns_empty_when_map_empty() {
    let table = Tree::new();
    let map = VariantTagMap::new();
    let span = span_for("/does/not/matter.c");
    assert!(variant_tags_for(&span, &map, &table.paths).is_empty());
}

#[test]
fn variant_tags_for_returns_empty_for_unselected_file() {
    let mut table = Tree::new();
    let alpha = table.touch("src/backend_alpha.c");
    let main = table.touch("src/main.c");

    let cfg = BuildConfigIR {
        source_selections: vec![synthetic_backend_selection()],
        ..Default::default()
    };
    let map = build_variant_tag_map(Some(&cfg), &table.paths);
    // Sanity: alpha is in the map, main isn't.
    assert!(map.contains_key(&alpha));
    assert!(variant_tags_for(&span_for(&main), &map, &table.paths).is_empty());
}

#[test]
fn variant_tags_for_matches_alpha_file() {
    let mut table = Tree::new();
    let alpha = table.touch("src/backend_alpha.c");

    let cfg = BuildConfigIR {
        source_selections: vec![synthetic_backend_selection()],
        ..Default::default()
    };
    let map = build_variant_tag_map(Some(&cfg), &table.paths);
    assert_eq!(
        variant_tags_for(&span_for(&alpha), &map, &table.paths),
        vec![("BACKEND".into(), "alpha".into())]
    );
}

#[test]
fn build_variant_tag_map_accumulates_two_selections_for_same_file() {
    // A file referenced by two distinct SourceSelections (e.g. the same
    // file picked under both BACKEND=alpha and a hypothetical
    // FLAVOR=plain) should receive both tags.
    let mut table = Tree::new();
    let shared = table.touch("src/shared.c");

    let cfg = BuildConfigIR {
        source_selections: vec![
            SourceSelection {
                target: "first".into(),
                driving_var: "BACKEND".into(),
                variants: vec![SourceVariant {
                    value: "alpha".into(),
                    files: vec!["src/shared.c".to_string()],
                }],
            },
            SourceSelection {
                target: "second".into(),
                driving_var: "FLAVOR".into(),
                variants: vec![SourceVariant {
                    value: "plain".into(),
                    files: vec!["src/shared.c".to_string()],
                }],
            },
        ],
        ..Default::default()
    };
    let map = build_variant_tag_map(Some(&cfg), &table.paths);
    let tags = map.get(&shared).cloned().unwrap_or_default();
    assert!(tags.contains(&("BACKEND".into(), "alpha".into())));
    assert!(tags.contains(&("FLAVOR".into(), "plain".into())));
    assert_eq!(tags.len(), 2);
}

#[test]
fn subdir_selection_inner_source_selection_stacks_outer_and_inner_tags() {
    // Sphincs-shape: top-level `add_subdirectory(${HASH_BACKEND})` with a
    // `blake` variant whose own CMakeLists has its own `${BACKEND}`-driven
    // source selection. A file picked by the inner selection gets BOTH
    // the outer `HASH_BACKEND=blake` and the inner `BACKEND=alpha` tag.
    let mut table = Tree::new();
    let inner_file = table.touch("lib/blake/src/backend_alpha.c");

    let cfg = BuildConfigIR {
        subdir_selections: vec![SubdirSelection {
            driving_var: "HASH_BACKEND".into(),
            variants: vec![SubdirVariant {
                value: "blake".into(),
                path: "lib/blake".to_string(),
                source_selections: vec![SourceSelection {
                    target: "blake_core".into(),
                    driving_var: "BACKEND".into(),
                    variants: vec![SourceVariant {
                        value: "alpha".into(),
                        files: vec!["lib/blake/src/backend_alpha.c".to_string()],
                    }],
                }],
                defines: Vec::new(),
                conditional_targets: Vec::new(),
                subdir_selections: Vec::new(),
                targets: Vec::new(),
            }],
        }],
        ..Default::default()
    };

    let map = build_variant_tag_map(Some(&cfg), &table.paths);
    let tags = map.get(&inner_file).cloned().unwrap_or_default();
    assert_eq!(tags.len(), 2, "tags = {tags:?}");
    assert_eq!(tags[0], ("HASH_BACKEND".into(), "blake".into()));
    assert_eq!(tags[1], ("BACKEND".into(), "alpha".into()));
}

#[test]
fn subdir_variant_plain_target_files_get_outer_tag_only() {
    // Files declared by a plain `add_executable` / `add_library` inside a
    // subdir variant (carried by `SubdirVariant.targets`) are exclusive
    // to that variant and so must receive the outer driving-var tag.
    let mut table = Tree::new();
    let plain = table.touch("lib/blake/src/utils.c");

    let cfg = BuildConfigIR {
        subdir_selections: vec![SubdirSelection {
            driving_var: "HASH_BACKEND".into(),
            variants: vec![SubdirVariant {
                value: "blake".into(),
                path: "lib/blake".to_string(),
                targets: vec![TargetDecl {
                    name: "blake_core".into(),
                    kind: TargetKind::Library,
                    files: vec!["lib/blake/src/utils.c".to_string()],
                }],
                defines: Vec::new(),
                source_selections: Vec::new(),
                conditional_targets: Vec::new(),
                subdir_selections: Vec::new(),
            }],
        }],
        ..Default::default()
    };

    let map = build_variant_tag_map(Some(&cfg), &table.paths);
    let tags = map.get(&plain).cloned().unwrap_or_default();
    assert_eq!(
        tags,
        vec![("HASH_BACKEND".into(), "blake".into())],
        "plain-target file should get only the outer subdir tag",
    );
}

#[test]
fn nested_subdir_selections_accumulate_outer_tags() {
    // `add_subdirectory(${OUTER})` -> outer variant has its own
    // `add_subdirectory(${INNER})`. A file in the deepest variant carries
    // BOTH outer tags.
    let mut table = Tree::new();
    let deep = table.touch("lib/a/b/src/leaf.c");

    let inner = SubdirSelection {
        driving_var: "INNER".into(),
        variants: vec![SubdirVariant {
            value: "b".into(),
            path: "lib/a/b".to_string(),
            targets: vec![TargetDecl {
                name: "leaf".into(),
                kind: TargetKind::Library,
                files: vec!["lib/a/b/src/leaf.c".to_string()],
            }],
            defines: Vec::new(),
            source_selections: Vec::new(),
            conditional_targets: Vec::new(),
            subdir_selections: Vec::new(),
        }],
    };
    let cfg = BuildConfigIR {
        subdir_selections: vec![SubdirSelection {
            driving_var: "OUTER".into(),
            variants: vec![SubdirVariant {
                value: "a".into(),
                path: "lib/a".to_string(),
                subdir_selections: vec![inner],
                defines: Vec::new(),
                source_selections: Vec::new(),
                conditional_targets: Vec::new(),
                targets: Vec::new(),
            }],
        }],
        ..Default::default()
    };

    let map = build_variant_tag_map(Some(&cfg), &table.paths);
    let tags = map.get(&deep).cloned().unwrap_or_default();
    assert_eq!(tags.len(), 2, "tags = {tags:?}");
    assert_eq!(tags[0], ("OUTER".into(), "a".into()));
    assert_eq!(tags[1], ("INNER".into(), "b".into()));
}

#[test]
fn flat_ir_unchanged_by_subdir_walker() {
    // A file referenced only by a top-level source selection gets exactly one
    // tag (its own selection's variant), nothing extra.
    let mut table = Tree::new();
    let alpha = table.touch("src/backend_alpha.c");
    let cfg = BuildConfigIR {
        source_selections: vec![synthetic_backend_selection()],
        ..Default::default()
    };
    let map = build_variant_tag_map(Some(&cfg), &table.paths);
    assert_eq!(
        map.get(&alpha),
        Some(&vec![("BACKEND".into(), "alpha".into())]),
        "flat IR must produce a single tag per file",
    );
}

#[test]
fn files_missing_from_disk_are_skipped() {
    let table = Tree::new();
    let cfg = BuildConfigIR {
        source_selections: vec![synthetic_backend_selection()],
        ..Default::default()
    };
    let map = build_variant_tag_map(Some(&cfg), &table.paths);
    assert!(map.entries.is_empty());
}

#[test]
fn configured_files_are_listed_in_order() {
    let table = Tree::new();
    let cfg = BuildConfigIR {
        source_selections: vec![synthetic_backend_selection()],
        subdir_selections: vec![SubdirSelection {
            driving_var: "OS".into(),
            variants: vec![SubdirVariant {
                value: "unix".into(),
                path: "os".to_string(),
                targets: vec![TargetDecl {
                    name: "os".into(),
                    kind: TargetKind::Library,
                    files: vec!["/abs/os.c".to_string()],
                }],
                defines: Vec::new(),
                source_selections: Vec::new(),
                conditional_targets: Vec::new(),
                subdir_selections: Vec::new(),
            }],
        }],
        ..Default::default()
    };
    let files = configured_files(&cfg);
    assert_eq!(files, vec!["src/backend_alpha.c", "src/backend_beta.c", "/abs/os.c"]);
    assert_eq!(
        configured_paths(&files, &table.paths),
        vec![
            "/tmp/project/src/backend_alpha.c",
            "/tmp/project/src/backend_beta.c",
            "/abs/os.c"
        ]
    );
}
