//! What holds of the map of a C program.
use crate::build_config::ir::{
    BuildConfigView, ConditionalTargetView, SourceSelectionView, SourceVariantView,
    SubdirSelectionView, SubdirVariantView, TargetDeclView,
};
use crate::c_ast::annotations::{annotated, declared_in_headers, function_named, static_function};
use crate::c_ast::ast::{ast_of, ClangAstView};
use crate::c_ast::extract::{entity_of, parsed_among, with_children, EntityFacts};
use crate::c_ast::rsm::{
    contains_span, first_container, kind_named, nodes_inside, nodes_outside, EntityKind,
    EntityView, SourceMapView, SpanView,
};
use crate::c_ast::utils::{
    ascii_lower, generated_dir, header_file, language_of, parse_args, same_but_case, skipped,
};
use crate::c_ast::variants::{
    conditional_files, files_of, paths_of, selection_files, subdir_files, subdir_variant_files,
    subdir_variants_files, tags_at, tags_of, target_files, variant_files, with_conditionals,
    with_files, with_selections, with_subdir_variant, with_subdir_variants, with_subdirs,
    with_targets, with_variants, PathTable, Tag, TagMap,
};
use crate::path::{entry_name, has_ext, joined_names_are_components};
use crate::seqs::{filter_has, flat_map_last};
use crate::text::joined;
use vstd::prelude::*;

verus! {

// ---------------------------------------------------------------------------
// Files
// ---------------------------------------------------------------------------

/// The files that are parsed are the `.c` and `.h` files outside generated
/// directories, all of them and in order.
pub proof fn sources_and_headers_are_parsed(paths: Seq<Seq<char>>)
    ensures
        parsed_among(paths) == paths.filter(
            |p: Seq<char>| (has_ext(p, "c"@) || has_ext(p, "h"@)) && !skipped(p),
        ),
        forall|i: int|
            0 <= i < paths.len() && (has_ext(#[trigger] paths[i], "c"@) || has_ext(
                paths[i],
                "h"@,
            )) && !skipped(paths[i]) ==> parsed_among(paths).contains(paths[i]),
    decreases paths.len(),
{
    reveal(Seq::filter);
    let p = |p: Seq<char>| (has_ext(p, "c"@) || has_ext(p, "h"@)) && !skipped(p);
    if paths.len() > 0 {
        sources_and_headers_are_parsed(paths.drop_last());
        assert(parsed_among(paths) == paths.filter(p));
    }
    filter_has(paths, p);
    assert forall|i: int|
        0 <= i < paths.len() && (has_ext(#[trigger] paths[i], "c"@) || has_ext(paths[i], "h"@))
            && !skipped(paths[i]) implies parsed_among(paths).contains(paths[i]) by {
        assert(p(paths[i]));
    }
}

/// A path is skipped if one of its directories is a generated one, wherever it
/// stands, and only then.
pub proof fn generated_directories_are_skipped(names: Seq<Seq<char>>, i: int)
    requires
        0 <= i < names.len(),
        forall|k: int| 0 <= k < names.len() ==> entry_name(#[trigger] names[k]),
    ensures
        names[i] == "build"@ || names[i] == "CMakeFiles"@ || names[i] == ".cache"@ ==> skipped(
            joined(names, "/"@),
        ) && skipped("/"@ + joined(names, "/"@)),
        (forall|k: int|
            0 <= k < names.len() ==> #[trigger] names[k] != "build"@ && names[k] != "CMakeFiles"@
                && names[k] != ".cache"@) ==> !skipped(joined(names, "/"@)),
{
    joined_names_are_components(names);
    if names[i] == "build"@ || names[i] == "CMakeFiles"@ || names[i] == ".cache"@ {
        assert(generated_dir(names[i]));
    }
}

/// A file is a header by the end of its name, `.h` in either case.
pub proof fn headers_end_in_h(stem: Seq<char>)
    ensures
        header_file(stem + ".h"@),
        header_file(stem + ".H"@),
        !header_file(stem + ".c"@),
{
    reveal_strlit(".h");
    reveal_strlit(".H");
    reveal_strlit(".c");
    let a = stem + ".h"@;
    let b = stem + ".H"@;
    let c = stem + ".c"@;
    assert(a[a.len() - 2] == '.' && a.last() == 'h');
    assert(b[b.len() - 2] == '.' && b.last() == 'H');
    assert(c.last() == 'c');
}

/// A file is parsed as GNU C11 with the include directory of the project, as a
/// header where it is one.
pub proof fn files_are_parsed_by_their_language(root: Seq<char>, path: Seq<char>)
    ensures
        has_ext(path, "h"@) ==> parse_args(root, path) == seq![
            "-std=gnu11"@,
            "-I"@ + root + "/include"@,
            "-x"@,
            "c-header"@,
        ],
        !has_ext(path, "h"@) ==> parse_args(root, path) == seq![
            "-std=gnu11"@,
            "-I"@ + root + "/include"@,
            "-x"@,
            "c"@,
        ],
        language_of(path) == "c"@ <==> !has_ext(path, "h"@),
{
    reveal_strlit("c");
    reveal_strlit("c-header");
    assert("c"@.len() == 1 && "c-header"@.len() == 8);
}

/// Texts are the same but for case if they have the same letters: the comparison
/// is an equivalence, and takes a capital for its small letter.
pub proof fn case_does_not_matter(a: Seq<char>, b: Seq<char>, c: Seq<char>)
    ensures
        same_but_case(a, a),
        same_but_case(a, b) == same_but_case(b, a),
        same_but_case(a, b) && same_but_case(b, c) ==> same_but_case(a, c),
        same_but_case(a, b) ==> a.len() == b.len(),
        forall|x: char| 'A' <= x && x <= 'Z' ==> #[trigger] ascii_lower(x) as u32 == x as u32 + 32,
        forall|x: char| !('A' <= x && x <= 'Z') ==> #[trigger] ascii_lower(x) == x,
{
    assert forall|x: char| 'A' <= x && x <= 'Z' implies #[trigger] ascii_lower(x) as u32 == x as u32
        + 32 by {
        let n = (x as u32) + 32;
        assert(97 <= n <= 122);
        let m = n as u8;
        assert(m as u32 == n);
        assert((m as char) as u32 == m as u32);
    }
    if same_but_case(a, b) {
        assert forall|i: int| 0 <= i < b.len() implies ascii_lower(#[trigger] b[i]) == ascii_lower(
            a[i],
        ) by {
            assert(ascii_lower(a[i]) == ascii_lower(b[i]));
        }
    }
    if same_but_case(b, a) {
        assert forall|i: int| 0 <= i < a.len() implies ascii_lower(#[trigger] a[i]) == ascii_lower(
            b[i],
        ) by {
            assert(ascii_lower(b[i]) == ascii_lower(a[i]));
        }
    }
    if same_but_case(a, b) && same_but_case(b, c) {
        assert forall|i: int| 0 <= i < a.len() implies ascii_lower(#[trigger] a[i]) == ascii_lower(
            c[i],
        ) by {
            assert(ascii_lower(a[i]) == ascii_lower(b[i]));
            assert(ascii_lower(b[i]) == ascii_lower(c[i]));
        }
    }
}

// ---------------------------------------------------------------------------
// Entities
// ---------------------------------------------------------------------------

/// A kind is known by its name, each under one name, and nothing else is one.
pub proof fn kinds_are_known_by_name(name: Seq<char>)
    ensures
        kind_named("TypedefDecl"@) == Some(EntityKind::TypedefDecl),
        kind_named("FunctionDecl"@) == Some(EntityKind::FunctionDecl),
        kind_named("StructDecl"@) == Some(EntityKind::RecordDecl),
        kind_named("UnionDecl"@) == Some(EntityKind::UnionDecl),
        kind_named("EnumDecl"@) == Some(EntityKind::EnumDecl),
        kind_named("VarDecl"@) == Some(EntityKind::VarDecl),
        kind_named("PreprocessingDirective"@) == Some(EntityKind::PreprocessingDirective),
        kind_named("MacroDefinition"@) == Some(EntityKind::MacroDefinition),
        kind_named("InclusionDirective"@) == Some(EntityKind::InclusionDirective),
        kind_named(name) == Some(EntityKind::FunctionDecl) ==> name == "FunctionDecl"@,
        kind_named(name) == Some(EntityKind::RecordDecl) ==> name == "StructDecl"@,
        kind_named(name) == Some(EntityKind::VarDecl) ==> name == "VarDecl"@,
{
    reveal_strlit("TypedefDecl");
    reveal_strlit("FunctionDecl");
    reveal_strlit("StructDecl");
    reveal_strlit("UnionDecl");
    reveal_strlit("EnumDecl");
    reveal_strlit("VarDecl");
    reveal_strlit("PreprocessingDirective");
    reveal_strlit("MacroDefinition");
    reveal_strlit("InclusionDirective");
    assert("TypedefDecl"@.len() == 11 && "FunctionDecl"@.len() == 12 && "StructDecl"@.len() == 10
        && "UnionDecl"@.len() == 9 && "EnumDecl"@.len() == 8 && "VarDecl"@.len() == 7
        && "PreprocessingDirective"@.len() == 22 && "MacroDefinition"@.len() == 15
        && "InclusionDirective"@.len() == 18);
}

/// The first container of a span is the first node whose span holds it.
pub proof fn first_container_is_first(nodes: Seq<EntityView>, span: SpanView)
    ensures
        match first_container(nodes, span) {
            Some(i) => 0 <= i < nodes.len() && contains_span(nodes[i].span, span) && forall|j: int|
                0 <= j < i ==> !contains_span((#[trigger] nodes[j]).span, span),
            None => forall|j: int|
                0 <= j < nodes.len() ==> !contains_span((#[trigger] nodes[j]).span, span),
        },
    decreases nodes.len(),
{
    if nodes.len() > 0 {
        let rest = nodes.drop_last();
        first_container_is_first(rest, span);
        match first_container(rest, span) {
            Some(i) => {
                assert(rest[i] == nodes[i]);
                assert forall|j: int| 0 <= j < i implies !contains_span(
                    (#[trigger] nodes[j]).span,
                    span,
                ) by {
                    assert(rest[j] == nodes[j]);
                }
            },
            None => {
                assert forall|j: int| 0 <= j < rest.len() implies !contains_span(
                    (#[trigger] nodes[j]).span,
                    span,
                ) by {
                    assert(rest[j] == nodes[j]);
                }
            },
        }
    }
}

/// A span parts the nodes into those inside it and the others, each in order.
pub proof fn nodes_are_parted_by_a_span(nodes: Seq<EntityView>, span: SpanView)
    ensures
        nodes_inside(nodes, span) == nodes.filter(|e: EntityView| contains_span(span, e.span)),
        nodes_outside(nodes, span) == nodes.filter(|e: EntityView| !contains_span(span, e.span)),
        nodes_inside(nodes, span).len() + nodes_outside(nodes, span).len() == nodes.len(),
    decreases nodes.len(),
{
    reveal(Seq::filter);
    if nodes.len() > 0 {
        nodes_are_parted_by_a_span(nodes.drop_last(), span);
    }
}

/// A span contains another of its file that starts no earlier and ends no later.
pub proof fn spans_contain_by_offset(a: SpanView, b: SpanView)
    ensures
        contains_span(a, b) <==> a.file == b.file && a.start.offset <= b.start.offset
            && b.end.offset <= a.end.offset,
        contains_span(a, a),
{
}

/// An entity goes to the end of the list of its kind, and no other list changes: a
/// function with a body is a function, one without is a signature.
pub proof fn entities_go_to_their_list(m: SourceMapView, e: EntityView, is_definition: bool)
    ensures
        ({
            let after = m.with_entity(e, is_definition);
            let function = e.kind == EntityKind::FunctionDecl;
            &&& after.app_functions == (if function && is_definition {
                m.app_functions.push(e)
            } else {
                m.app_functions
            })
            &&& after.app_func_sigs == (if function && !is_definition {
                m.app_func_sigs.push(e)
            } else {
                m.app_func_sigs
            })
            &&& after.app_globals == (if e.kind == EntityKind::VarDecl {
                m.app_globals.push(e)
            } else {
                m.app_globals
            })
            &&& after.include_paths == (if e.kind == EntityKind::InclusionDirective {
                m.include_paths.push(e)
            } else {
                m.include_paths
            })
            &&& after.defines == (if e.kind == EntityKind::MacroDefinition {
                m.defines.push(e)
            } else {
                m.defines
            })
            &&& after.compiler_args == (if e.kind == EntityKind::PreprocessingDirective {
                m.compiler_args.push(e)
            } else {
                m.compiler_args
            })
            &&& (function || e.kind == EntityKind::VarDecl || e.kind
                == EntityKind::InclusionDirective || e.kind == EntityKind::MacroDefinition
                || e.kind == EntityKind::PreprocessingDirective) ==> after.app_types == m.app_types
        }),
{
}

/// The functions of a translation unit are all the function definitions among its
/// children, in order behind those that were there; so are its signatures and its
/// globals.
pub proof fn every_function_is_extracted(
    m: SourceMapView,
    children: Seq<EntityFacts>,
    tags: TagMap,
    table: PathTable,
)
    ensures
        with_children(m, children, tags, table).app_functions == m.app_functions
            + children.filter_map(
            |c: EntityFacts|
                match entity_of(c, tags, table) {
                    Some(e) => if e.kind == EntityKind::FunctionDecl && c.is_definition {
                        Some(e)
                    } else {
                        None
                    },
                    None => None,
                },
        ),
        with_children(m, children, tags, table).app_func_sigs == m.app_func_sigs
            + children.filter_map(
            |c: EntityFacts|
                match entity_of(c, tags, table) {
                    Some(e) => if e.kind == EntityKind::FunctionDecl && !c.is_definition {
                        Some(e)
                    } else {
                        None
                    },
                    None => None,
                },
        ),
        with_children(m, children, tags, table).app_globals == m.app_globals
            + children.filter_map(
            |c: EntityFacts|
                match entity_of(c, tags, table) {
                    Some(e) => if e.kind == EntityKind::VarDecl {
                        Some(e)
                    } else {
                        None
                    },
                    None => None,
                },
        ),
    decreases children.len(),
{
    let f = |c: EntityFacts|
        match entity_of(c, tags, table) {
            Some(e) => if e.kind == EntityKind::FunctionDecl && c.is_definition {
                Some(e)
            } else {
                None
            },
            None => None,
        };
    let g = |c: EntityFacts|
        match entity_of(c, tags, table) {
            Some(e) => if e.kind == EntityKind::FunctionDecl && !c.is_definition {
                Some(e)
            } else {
                None
            },
            None => None,
        };
    let h = |c: EntityFacts|
        match entity_of(c, tags, table) {
            Some(e) => if e.kind == EntityKind::VarDecl {
                Some(e)
            } else {
                None
            },
            None => None,
        };
    let out = with_children(m, children, tags, table);
    if children.len() > 0 {
        let rest = children.drop_last();
        every_function_is_extracted(m, rest, tags, table);
        let before = with_children(m, rest, tags, table);
        assert(before.app_functions == m.app_functions + rest.filter_map(f));
        assert(before.app_func_sigs == m.app_func_sigs + rest.filter_map(g));
        assert(before.app_globals == m.app_globals + rest.filter_map(h));
    }
    assert(out.app_functions =~= m.app_functions + children.filter_map(f));
    assert(out.app_func_sigs =~= m.app_func_sigs + children.filter_map(g));
    assert(out.app_globals =~= m.app_globals + children.filter_map(h));
}

/// A child is extracted if its kind is known, it lies in a file of the project and
/// its extent fits; it then has the text and the span of its extent, is not public
/// yet, and carries the tags of its file.
pub proof fn project_entities_are_extracted(facts: EntityFacts, tags: TagMap, table: PathTable)
    ensures
        entity_of(facts, tags, table) is Some <==> kind_named(facts.kind@) is Some && (
        facts.extent matches Some(x) && x.fits()) && !facts.in_system_header && facts.has_file,
        entity_of(facts, tags, table) matches Some(e) ==> {
            let x = facts.extent->0;
            &&& Some(e.kind) == kind_named(facts.kind@)
            &&& e.source_text == x.text()
            &&& e.span == x.span()
            &&& e.span.file == x.start_path@
            &&& e.span.start == x.start
            &&& e.span.end == x.end
            &&& !e.annotations.public
            &&& e.sub_entities.len() == 0
            &&& e.variant_tags == tags_at(tags, table.resolved(x.start_path@))
            &&& e.ast == ast_of(e.kind, facts.name.deep_view())
        },
{
}

/// Declarations have the form of their kind with their name; directives have none.
pub proof fn forms_follow_the_kind(name: Seq<char>)
    ensures
        ast_of(EntityKind::FunctionDecl, Some(name)) == Some(
            ClangAstView::FunctionDecl { name, storage_class: None },
        ),
        ast_of(EntityKind::VarDecl, Some(name)) == Some(
            ClangAstView::VarDecl { name, storage_class: None },
        ),
        ast_of(EntityKind::TypedefDecl, Some(name)) == Some(ClangAstView::TypedefDecl { name }),
        ast_of(EntityKind::EnumDecl, Some(name)) == Some(
            ClangAstView::EnumDecl { name: Some(name) },
        ),
        ast_of(EntityKind::RecordDecl, Some(name)) == ast_of(EntityKind::UnionDecl, Some(name)),
        ast_of(EntityKind::RecordDecl, Some(name)) == Some(
            ClangAstView::RecordDecl { name: Some(name), tag_used: None },
        ),
        ast_of(EntityKind::MacroDefinition, Some(name)) is None,
        ast_of(EntityKind::InclusionDirective, Some(name)) is None,
        ast_of(EntityKind::PreprocessingDirective, Some(name)) is None,
        ast_of(EntityKind::FunctionDecl, None) == Some(
            ClangAstView::FunctionDecl { name: Seq::<char>::empty(), storage_class: None },
        ),
{
}

// ---------------------------------------------------------------------------
// Visibility
// ---------------------------------------------------------------------------

/// A function is declared in a header if some signature of its name stands in one.
pub proof fn header_signatures_declare(sigs: Seq<EntityView>, name: Seq<char>)
    ensures
        declared_in_headers(sigs).contains(name) <==> exists|i: int|
            0 <= i < sigs.len() && function_named(#[trigger] sigs[i]) == Some(name) && header_file(
                sigs[i].span.file,
            ),
    decreases sigs.len(),
{
    if sigs.len() > 0 {
        let rest = sigs.drop_last();
        let n = sigs.len() - 1;
        header_signatures_declare(rest, name);
        if declared_in_headers(rest).contains(name) {
            let i = choose|i: int|
                0 <= i < rest.len() && function_named(#[trigger] rest[i]) == Some(name)
                    && header_file(rest[i].span.file);
            assert(function_named(sigs[i]) == Some(name));
        }
        if function_named(sigs[n]) == Some(name) && header_file(sigs[n].span.file) {
            assert(declared_in_headers(sigs).contains(name));
        }
        if exists|i: int|
            0 <= i < sigs.len() && function_named(#[trigger] sigs[i]) == Some(name) && header_file(
                sigs[i].span.file,
            ) {
            let i = choose|i: int|
                0 <= i < sigs.len() && function_named(#[trigger] sigs[i]) == Some(name)
                    && header_file(sigs[i].span.file);
            if i < n {
                assert(function_named(rest[i]) == Some(name));
            }
        }
    }
}

/// A function becomes public if it is declared in a header and not static; nothing
/// else about it changes.
pub proof fn declared_functions_become_public(def: EntityView, declared: Set<Seq<char>>)
    ensures
        ({
            let after = annotated(def, declared);
            &&& function_named(def) is Some && declared.contains(function_named(def)->0)
                && !static_function(def) ==> after.annotations.public
            &&& function_named(def) is None || !declared.contains(function_named(def)->0)
                || static_function(def) ==> after.annotations == def.annotations
            &&& after.kind == def.kind
            &&& after.source_text == def.source_text
            &&& after.span == def.span
            &&& after.ast == def.ast
            &&& after.sub_entities == def.sub_entities
            &&& after.variant_tags == def.variant_tags
        }),
{
}

/// A function is known by its name, if it has one, and is static by its storage
/// class, whatever its case.
pub proof fn functions_are_named_by_their_form(e: EntityView, name: Seq<char>, class: Seq<char>)
    ensures
        e.ast == Some(ClangAstView::FunctionDecl { name, storage_class: Some(class) }) ==> {
            &&& name.len() > 0 ==> function_named(e) == Some(name)
            &&& name.len() == 0 ==> function_named(e) is None
            &&& static_function(e) <==> same_but_case(class, "static"@)
            &&& class == "static"@ ==> static_function(e)
        },
        e.ast == Some(ClangAstView::FunctionDecl { name, storage_class: None })
            ==> !static_function(e),
        e.ast is None ==> function_named(e) is None && !static_function(e),
{
}

// ---------------------------------------------------------------------------
// Tags
// ---------------------------------------------------------------------------

/// The files of a configuration are those of its selections and, behind them, those
/// of its subdirectories, one after the other.
pub proof fn every_configured_file_is_listed(
    variants: Seq<SourceVariantView>,
    selections: Seq<SourceSelectionView>,
    conditionals: Seq<ConditionalTargetView>,
    targets: Seq<TargetDeclView>,
)
    ensures
        variant_files(variants) == variants.flat_map(|v: SourceVariantView| v.files),
        selection_files(selections) == selections.flat_map(
            |s: SourceSelectionView| variant_files(s.variants),
        ),
        conditional_files(conditionals) == conditionals.flat_map(
            |t: ConditionalTargetView| t.files,
        ),
        target_files(targets) == targets.flat_map(|t: TargetDeclView| t.files),
{
    files_of_variants(variants);
    files_of_selections(selections);
    files_of_conditionals(conditionals);
    files_of_targets(targets);
}

proof fn files_of_variants(variants: Seq<SourceVariantView>)
    ensures
        variant_files(variants) == variants.flat_map(|v: SourceVariantView| v.files),
    decreases variants.len(),
{
    flat_map_last(variants, |v: SourceVariantView| v.files);
    if variants.len() > 0 {
        files_of_variants(variants.drop_last());
    }
}

proof fn files_of_selections(selections: Seq<SourceSelectionView>)
    ensures
        selection_files(selections) == selections.flat_map(
            |s: SourceSelectionView| variant_files(s.variants),
        ),
    decreases selections.len(),
{
    flat_map_last(selections, |s: SourceSelectionView| variant_files(s.variants));
    if selections.len() > 0 {
        files_of_selections(selections.drop_last());
    }
}

proof fn files_of_conditionals(targets: Seq<ConditionalTargetView>)
    ensures
        conditional_files(targets) == targets.flat_map(|t: ConditionalTargetView| t.files),
    decreases targets.len(),
{
    flat_map_last(targets, |t: ConditionalTargetView| t.files);
    if targets.len() > 0 {
        files_of_conditionals(targets.drop_last());
    }
}

proof fn files_of_targets(targets: Seq<TargetDeclView>)
    ensures
        target_files(targets) == targets.flat_map(|t: TargetDeclView| t.files),
    decreases targets.len(),
{
    flat_map_last(targets, |t: TargetDeclView| t.files);
    if targets.len() > 0 {
        files_of_targets(targets.drop_last());
    }
}

/// The files of subdirectories are those of their variants, and the files of a
/// variant those of its selections, its conditional targets, its targets and its own
/// subdirectories.
pub proof fn every_file_of_a_subdirectory_is_listed(
    variants: Seq<SubdirVariantView>,
    selections: Seq<SubdirSelectionView>,
    v: SubdirVariantView,
    cfg: BuildConfigView,
)
    ensures
        subdir_variants_files(variants) == variants.flat_map(
            |v: SubdirVariantView| subdir_variant_files(v),
        ),
        subdir_files(selections) == selections.flat_map(
            |s: SubdirSelectionView| subdir_variants_files(s.variants),
        ),
        subdir_variant_files(v) == selection_files(v.source_selections) + conditional_files(
            v.conditional_targets,
        ) + target_files(v.targets) + subdir_files(v.subdir_selections),
        files_of(cfg) == selection_files(cfg.source_selections) + subdir_files(
            cfg.subdir_selections,
        ),
{
    files_of_subdir_variants(variants);
    files_of_subdirs(selections);
}

proof fn files_of_subdir_variants(variants: Seq<SubdirVariantView>)
    ensures
        subdir_variants_files(variants) == variants.flat_map(
            |v: SubdirVariantView| subdir_variant_files(v),
        ),
    decreases variants.len(),
{
    flat_map_last(variants, |v: SubdirVariantView| subdir_variant_files(v));
    if variants.len() > 0 {
        files_of_subdir_variants(variants.drop_last());
    }
}

proof fn files_of_subdirs(selections: Seq<SubdirSelectionView>)
    ensures
        subdir_files(selections) == selections.flat_map(
            |s: SubdirSelectionView| subdir_variants_files(s.variants),
        ),
    decreases selections.len(),
{
    flat_map_last(selections, |s: SubdirSelectionView| subdir_variants_files(s.variants));
    if selections.len() > 0 {
        files_of_subdirs(selections.drop_last());
    }
}

/// Files, variants, selections and targets are tagged one after the other: what
/// follows a list adds to what the list left.
pub proof fn tags_are_added_in_order(
    m: TagMap,
    files: Seq<Seq<char>>,
    more_files: Seq<Seq<char>>,
    tags: Seq<Tag>,
    table: PathTable,
)
    ensures
        with_files(m, files + more_files, tags, table) == with_files(
            with_files(m, files, tags, table),
            more_files,
            tags,
            table,
        ),
    decreases more_files.len(),
{
    if more_files.len() == 0 {
        assert(files + more_files =~= files);
    } else {
        tags_are_added_in_order(m, files, more_files.drop_last(), tags, table);
        assert((files + more_files).drop_last() =~= files + more_files.drop_last());
        assert((files + more_files).last() == more_files.last());
    }
}

proof fn one_file(m: TagMap, file: Seq<char>, tags: Seq<Tag>, table: PathTable)
    requires
        table.on_disk(file),
    ensures
        with_files(m, seq![file], tags, table) == m.insert(
            table.key(file),
            tags_at(m, table.key(file)) + tags,
        ),
{
    assert(seq![file].drop_last() =~= Seq::<Seq<char>>::empty());
    assert(seq![file].last() == file);
    assert(with_files(m, Seq::<Seq<char>>::empty(), tags, table) == m);
}

proof fn one_selection(
    m: TagMap,
    target: Seq<char>,
    var: Seq<char>,
    value: Seq<char>,
    file: Seq<char>,
    outer: Seq<Tag>,
    table: PathTable,
)
    requires
        table.on_disk(file),
    ensures
        with_selections(
            m,
            seq![
                SourceSelectionView {
                    target,
                    driving_var: var,
                    variants: seq![SourceVariantView { value, files: seq![file] }],
                },
            ],
            outer,
            table,
        ) == m.insert(table.key(file), tags_at(m, table.key(file)) + outer.push((var, value))),
{
    let variant = SourceVariantView { value, files: seq![file] };
    let selection = SourceSelectionView { target, driving_var: var, variants: seq![variant] };
    assert(seq![selection].drop_last() =~= Seq::<SourceSelectionView>::empty());
    assert(seq![selection].last() == selection);
    assert(seq![variant].drop_last() =~= Seq::<SourceVariantView>::empty());
    assert(seq![variant].last() == variant);
    assert(with_selections(m, Seq::<SourceSelectionView>::empty(), outer, table) == m);
    assert(with_variants(m, Seq::<SourceVariantView>::empty(), var, outer, table) == m);
    one_file(m, file, outer.push((var, value)), table);
}

/// A file that a variable selects carries the variable with the value that selects
/// it.
pub proof fn selected_files_carry_their_value(
    target: Seq<char>,
    var: Seq<char>,
    value: Seq<char>,
    file: Seq<char>,
    cfg: BuildConfigView,
    table: PathTable,
)
    requires
        table.on_disk(file),
        !cfg.is_empty,
        cfg.source_selections == seq![
            SourceSelectionView {
                target,
                driving_var: var,
                variants: seq![SourceVariantView { value, files: seq![file] }],
            },
        ],
        cfg.subdir_selections.len() == 0,
    ensures
        tags_at(tags_of(Some(cfg), table), table.key(file)) == seq![(var, value)],
{
    one_selection(Map::empty(), target, var, value, file, seq![], table);
    assert(Seq::<Tag>::empty() + Seq::<Tag>::empty().push((var, value)) =~= seq![(var, value)]);
}

/// A file that is selected inside a selected subdirectory carries both variables,
/// the outer one first; one that is only built there carries the outer one.
pub proof fn files_in_subdirectories_carry_the_outer_value(
    m: TagMap,
    outer_var: Seq<char>,
    v: SubdirVariantView,
    target: Seq<char>,
    var: Seq<char>,
    value: Seq<char>,
    file: Seq<char>,
    table: PathTable,
)
    requires
        table.on_disk(file),
        v.source_selections == seq![
            SourceSelectionView {
                target,
                driving_var: var,
                variants: seq![SourceVariantView { value, files: seq![file] }],
            },
        ],
        v.conditional_targets.len() == 0,
        v.targets.len() == 0,
        v.subdir_selections.len() == 0,
    ensures
        with_subdirs(
            m,
            seq![SubdirSelectionView { driving_var: outer_var, variants: seq![v] }],
            seq![],
            table,
        ) == m.insert(
            table.key(file),
            tags_at(m, table.key(file)) + seq![(outer_var, v.value), (var, value)],
        ),
{
    let selection = SubdirSelectionView { driving_var: outer_var, variants: seq![v] };
    let none = Seq::<Tag>::empty();
    let outer = none.push((outer_var, v.value));
    assert(seq![selection].drop_last() =~= Seq::<SubdirSelectionView>::empty());
    assert(seq![selection].last() == selection);
    assert(seq![v].drop_last() =~= Seq::<SubdirVariantView>::empty());
    assert(seq![v].last() == v);
    assert(with_subdirs(m, Seq::<SubdirSelectionView>::empty(), none, table) == m);
    assert(with_subdir_variants(m, Seq::<SubdirVariantView>::empty(), outer_var, none, table)
        == m);
    one_selection(m, target, var, value, file, outer, table);
    let one = with_selections(m, v.source_selections, outer, table);
    assert(with_conditionals(one, v.conditional_targets, outer, table) == one);
    assert(with_targets(one, v.targets, outer, table) == one);
    assert(with_subdirs(one, v.subdir_selections, outer, table) == one);
    assert(with_subdir_variant(m, v, outer, table) == one);
    assert(with_subdir_variants(m, seq![v], outer_var, none, table) == with_subdir_variant(
        m,
        v,
        outer,
        table,
    ));
    assert(outer.push((var, value)) =~= seq![(outer_var, v.value), (var, value)]);
}

/// The conditional targets and the targets of a selected subdirectory carry its
/// value.
pub proof fn targets_in_subdirectories_carry_the_outer_value(
    m: TagMap,
    conditional: ConditionalTargetView,
    target: TargetDeclView,
    outer: Seq<Tag>,
    table: PathTable,
)
    ensures
        with_conditionals(m, seq![conditional], outer, table) == with_files(
            m,
            conditional.files,
            outer,
            table,
        ),
        with_targets(m, seq![target], outer, table) == with_files(m, target.files, outer, table),
{
    assert(seq![conditional].drop_last() =~= Seq::<ConditionalTargetView>::empty());
    assert(seq![conditional].last() == conditional);
    assert(seq![target].drop_last() =~= Seq::<TargetDeclView>::empty());
    assert(seq![target].last() == target);
    assert(with_conditionals(m, Seq::<ConditionalTargetView>::empty(), outer, table) == m);
    assert(with_targets(m, Seq::<TargetDeclView>::empty(), outer, table) == m);
}

/// Paths are looked up below the root of the sources, absolute ones as they are, and
/// stand for their canonical form where they have one.
pub proof fn paths_are_looked_up_below_the_root(
    files: Seq<Seq<char>>,
    table: PathTable,
    i: int,
)
    requires
        0 <= i < files.len(),
    ensures
        paths_of(files, table).len() == files.len(),
        crate::path::absolute(files[i]) ==> paths_of(files, table)[i] == files[i],
        !crate::path::absolute(files[i]) ==> paths_of(files, table)[i] == crate::path::child_path(
            table.src_root@,
            files[i],
        ),
        table.on_disk(files[i]) ==> table.key(files[i]) == table.canonical@[paths_of(
            files,
            table,
        )[i]],
{
}

// ---------------------------------------------------------------------------
// The map as a whole
// ---------------------------------------------------------------------------

/// Every entity of the map is among all of them, the definitions first, then the
/// signatures, then the directives.
pub proof fn every_entity_is_walked(m: SourceMapView, e: EntityView)
    ensures
        m.definitions().contains(e) <==> m.app_types.contains(e) || m.app_globals.contains(e)
            || m.app_functions.contains(e),
        m.directives().contains(e) <==> m.include_paths.contains(e) || m.defines.contains(e)
            || m.compiler_args.contains(e),
        m.all_entities().contains(e) <==> m.definitions().contains(e) || m.app_func_sigs.contains(
            e,
        ) || m.directives().contains(e),
        m.all_entities().len() == m.app_types.len() + m.app_globals.len() + m.app_functions.len()
            + m.app_func_sigs.len() + m.include_paths.len() + m.defines.len()
            + m.compiler_args.len(),
        m.definitions().is_prefix_of(m.all_entities()),
{
    sum_has(m.app_types, m.app_globals, e);
    sum_has(m.app_types + m.app_globals, m.app_functions, e);
    sum_has(m.include_paths, m.defines, e);
    sum_has(m.include_paths + m.defines, m.compiler_args, e);
    sum_has(m.definitions(), m.app_func_sigs, e);
    sum_has(m.definitions() + m.app_func_sigs, m.directives(), e);
    assert(m.all_entities().subrange(0, m.definitions().len() as int) =~= m.definitions());
}

proof fn sum_has(a: Seq<EntityView>, b: Seq<EntityView>, e: EntityView)
    ensures
        (a + b).contains(e) <==> a.contains(e) || b.contains(e),
{
    if a.contains(e) {
        let k = choose|k: int| 0 <= k < a.len() && a[k] == e;
        assert((a + b)[k] == e);
    }
    if b.contains(e) {
        let k = choose|k: int| 0 <= k < b.len() && b[k] == e;
        assert((a + b)[a.len() + k] == e);
    }
    if (a + b).contains(e) {
        let k = choose|k: int| 0 <= k < (a + b).len() && (a + b)[k] == e;
        if k < a.len() {
            assert(a[k] == e);
        } else {
            assert(b[k - a.len()] == e);
        }
    }
}

/// A map is well formed if every span ends no earlier than it starts, and no two of
/// one file overlap.
pub proof fn spans_of_a_file_do_not_overlap(m: SourceMapView, i: int, j: int)
    requires
        m.spans_fit(),
        0 <= i < j < m.all_entities().len(),
    ensures
        ({
            let a = m.all_entities()[i].span;
            let b = m.all_entities()[j].span;
            &&& a.start.offset <= a.end.offset
            &&& b.start.offset <= b.end.offset
            &&& a.file == b.file ==> a.end.offset <= b.start.offset || b.end.offset
                <= a.start.offset
        }),
{
    assert(crate::c_ast::rsm::apart(m.all_entities()[i].span, m.all_entities()[j].span));
}

/// Entities of different files, and entities one behind the other, are no reason to
/// call a map ill formed.
pub proof fn separate_spans_fit(m: SourceMapView)
    requires
        forall|i: int|
            0 <= i < m.all_entities().len() ==> (#[trigger] m.all_entities()[i]).span.start.offset
                <= m.all_entities()[i].span.end.offset,
        forall|i: int, j: int|
            0 <= i < j < m.all_entities().len() ==> (#[trigger] m.all_entities()[i]).span.file != (
            #[trigger] m.all_entities()[j]).span.file || m.all_entities()[i].span.end.offset
                <= m.all_entities()[j].span.start.offset || m.all_entities()[j].span.end.offset
                <= m.all_entities()[i].span.start.offset,
    ensures
        m.spans_fit(),
{
}

} // verus!
