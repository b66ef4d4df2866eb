//! Collects the entities that libclang finds in the files of a project.
use crate::c_ast::annotations::EntityAnnotations;
use crate::c_ast::ast::{ast_from_entity, ast_of};
use crate::c_ast::rsm::{
    adding_keeps_nesting, adding_keeps_types_apart, adding_loses_nothing, all_nested, alone,
    entities_in, entities_pushed, kind_named, map_top_level_decl_kind, nested, none_inside_another, EntityView, RichSourceMap,
    SourceMapView, TopLevelEntity,
};
use crate::c_ast::utils::{is_c_or_header, should_skip_path, skipped, Extent};
use crate::c_ast::variants::{tags_at, variant_tags_for, PathTable, TagMap, VariantTagMap};
use crate::fs::RawDir;
use crate::order::{is_listing, list_names, listing};
use crate::path::has_ext;
use vstd::multiset::Multiset;
use vstd::prelude::*;

verus! {

/// The parsing tool.
pub struct ParseToAst;

/// What libclang says of one child of a translation unit.
#[derive(Debug)]
pub struct EntityFacts {
    /// The name of its kind.
    pub kind: String,
    pub name: Option<String>,
    pub is_definition: bool,
    pub in_system_header: bool,
    /// Whether its location lies in a file.
    pub has_file: bool,
    /// Where it lies, if it has a range in files that can be read.
    pub extent: Option<Extent>,
}

/// The entity that a child stands for: none for a kind that is not extracted,
/// for an import, and for a child without a text in one file.
pub open spec fn entity_of(facts: EntityFacts, tags: TagMap, table: PathTable) -> Option<EntityView> {
    match (kind_named(facts.kind@), facts.extent) {
        (Some(kind), Some(extent)) => if facts.in_system_header || !facts.has_file
            || !extent.fits() {
            None
        } else {
            Some(
                EntityView {
                    kind,
                    source_text: extent.text(),
                    span: extent.span(),
                    ast: ast_of(kind, facts.name.deep_view()),
                    annotations: EntityAnnotations { public: false },
                    sub_entities: seq![],
                    variant_tags: tags_at(tags, table.resolved(extent.start_path@)),
                },
            )
        },
        _ => None,
    }
}

/// The map with the entities of the children, in order.
pub open spec fn with_children(
    m: SourceMapView,
    children: Seq<EntityFacts>,
    tags: TagMap,
    table: PathTable,
) -> SourceMapView
    decreases children.len(),
{
    if children.len() == 0 {
        m
    } else {
        let rest = with_children(m, children.drop_last(), tags, table);
        match entity_of(children.last(), tags, table) {
            Some(e) => rest.with_entity(e, children.last().is_definition),
            None => rest,
        }
    }
}

fn make_entity(facts: &EntityFacts, tags: &VariantTagMap, table: &PathTable) -> (r: Option<
    TopLevelEntity,
>)
    ensures
        r.deep_view() == entity_of(*facts, tags@, *table),
{
    let kind = match map_top_level_decl_kind(facts.kind.as_str()) {
        Some(k) => k,
        None => {
            return None;
        },
    };
    if facts.in_system_header || !facts.has_file {
        return None;
    }
    let extent = match &facts.extent {
        Some(e) => e,
        None => {
            return None;
        },
    };
    let (span, source_text) = match extent.get_span_and_text() {
        Some(st) => st,
        None => {
            return None;
        },
    };
    let ast = ast_from_entity(kind, &facts.name);
    let variant_tags = variant_tags_for(&span, tags, table);
    let e = TopLevelEntity {
        kind,
        source_text,
        span,
        ast,
        annotations: EntityAnnotations { public: false },
        sub_entities: Vec::new(),
        variant_tags,
    };
    proof {
        assert(e.model().sub_entities =~= seq![]);
        assert(Some(e.model()) == entity_of(*facts, tags@, *table));
    }
    Some(e)
}

/// Adds the entities among the children of a translation unit: those that
/// survive preprocessing (types, functions, globals) and preprocessor
/// directives (includes, defines, compiler arguments).
pub fn extract_entities(
    children: &Vec<EntityFacts>,
    tags: &VariantTagMap,
    table: &PathTable,
    out: &mut RichSourceMap,
)
    ensures
        final(out).deep_view() == with_children(
            old(out).deep_view(),
            children@,
            tags@,
            *table,
        ),
{
    let ghost start = out.deep_view();
    let ghost all = children@;
    let mut i: usize = 0;
    while i < children.len()
        invariant
            all == children@,
            i <= all.len(),
            out.deep_view() == with_children(start, all.take(i as int), tags@, *table),
        decreases all.len() - i,
    {
        proof {
            assert(all.take(i + 1).drop_last() =~= all.take(i as int));
            assert(all.take(i + 1).last() == children@[i as int]);
        }
        match make_entity(&children[i], tags, table) {
            Some(e) => {
                out.push_entity(e, children[i].is_definition);
            },
            None => {},
        }
        i += 1;
    }
    proof {
        assert(all.take(i as int) =~= all);
    }
}

/// The paths among `paths` of the files that are parsed.
pub open spec fn parsed_among(paths: Seq<Seq<char>>) -> Seq<Seq<char>>
    decreases paths.len(),
{
    if paths.len() == 0 {
        seq![]
    } else {
        let rest = parsed_among(paths.drop_last());
        let p = paths.last();
        if !skipped(p) && (has_ext(p, "c"@) || has_ext(p, "h"@)) {
            rest.push(p)
        } else {
            rest
        }
    }
}

impl ParseToAst {
    /// The files of a project that are parsed, in the order of their paths:
    /// those with the extension `c` or `h` outside the directories of generated
    /// files. A configuration only labels entities, it leaves out no file.
    pub fn files_to_parse(&self, source: &RawDir) -> (r: Vec<String>)
        ensures
            r.deep_view() == parsed_among(listing(source@.dom())),
            is_listing(source@.dom(), listing(source@.dom())),
    {
        let paths = list_names(&source.file_paths());
        let ghost all = paths.deep_view();
        let mut out: Vec<String> = Vec::new();
        let mut i: usize = 0;
        proof {
            assert(out.deep_view() =~= parsed_among(all.take(0)));
        }
        while i < paths.len()
            invariant
                all == paths.deep_view(),
                i <= paths@.len(),
                out.deep_view() == parsed_among(all.take(i as int)),
            decreases paths@.len() - i,
        {
            let ghost before = out.deep_view();
            let path = paths[i].as_str();
            proof {
                assert(all.take(i + 1).drop_last() =~= all.take(i as int));
                assert(all.take(i + 1).last() == path@);
            }
            if !should_skip_path(path) && is_c_or_header(path) {
                out.push(path.to_owned());
                proof {
                    assert(out.deep_view() =~= before.push(path@));
                }
            }
            i += 1;
        }
        proof {
            assert(all.take(i as int) =~= all);
        }
        out
    }
}

/// Extracting keeps the types nested as their spans are: what is stored below a
/// type lies in it, and no top-level type lies in another.
pub proof fn extracting_keeps_types_nested(
    m: SourceMapView,
    children: Seq<EntityFacts>,
    tags: TagMap,
    table: PathTable,
)
    requires
        all_nested(m.app_types),
        none_inside_another(m.app_types),
    ensures
        all_nested(with_children(m, children, tags, table).app_types),
        none_inside_another(with_children(m, children, tags, table).app_types),
    decreases children.len(),
{
    if children.len() > 0 {
        let rest = with_children(m, children.drop_last(), tags, table);
        extracting_keeps_types_nested(m, children.drop_last(), tags, table);
        match entity_of(children.last(), tags, table) {
            Some(e) => {
                assert(nested(e));
                adding_keeps_nesting(rest.app_types, e);
                adding_keeps_types_apart(rest.app_types, e);
            },
            None => {},
        }
    }
}

/// The entities in a map, with those below others, each without those below it.
pub open spec fn map_entities(m: SourceMapView) -> Multiset<EntityView> {
    entities_in(m.app_types).add(entities_in(m.app_globals)).add(entities_in(m.app_functions)).add(
        entities_in(m.app_func_sigs),
    ).add(entities_in(m.include_paths)).add(entities_in(m.defines)).add(
        entities_in(m.compiler_args),
    )
}

/// The entities that the children stand for.
pub open spec fn extracted(
    children: Seq<EntityFacts>,
    tags: TagMap,
    table: PathTable,
) -> Multiset<EntityView>
    decreases children.len(),
{
    if children.len() == 0 {
        Multiset::empty()
    } else {
        let rest = extracted(children.drop_last(), tags, table);
        match entity_of(children.last(), tags, table) {
            Some(e) => rest.insert(e),
            None => rest,
        }
    }
}

/// Every child that stands for an entity is in the map once, and nothing that
/// was there is lost or changed.
pub proof fn extracting_loses_nothing(
    m: SourceMapView,
    children: Seq<EntityFacts>,
    tags: TagMap,
    table: PathTable,
)
    ensures
        map_entities(with_children(m, children, tags, table)) == map_entities(m).add(
            extracted(children, tags, table),
        ),
    decreases children.len(),
{
    let all = with_children(m, children, tags, table);
    if children.len() > 0 {
        let rest = with_children(m, children.drop_last(), tags, table);
        extracting_loses_nothing(m, children.drop_last(), tags, table);
        match entity_of(children.last(), tags, table) {
            Some(e) => {
                assert(entities_in(e.sub_entities) =~= Multiset::empty());
                assert(alone(e) =~= e);
                adding_loses_nothing(rest.app_types, e);
                entities_pushed(rest.app_globals, e);
                entities_pushed(rest.app_functions, e);
                entities_pushed(rest.app_func_sigs, e);
                entities_pushed(rest.include_paths, e);
                entities_pushed(rest.defines, e);
                entities_pushed(rest.compiler_args, e);
                assert(map_entities(all) =~= map_entities(rest).insert(e));
            },
            None => {},
        }
    }
    assert(map_entities(all) =~= map_entities(m).add(extracted(children, tags, table)));
}

} // verus!
