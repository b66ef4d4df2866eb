//! The map from the text of a C project to its top-level entities.
use crate::c_ast::annotations::EntityAnnotations;
use crate::c_ast::ast::{ClangAST, ClangAstView};
use crate::text::{decimal, decimal_of, same};
use vstd::multiset::Multiset;
use vstd::prelude::*;

verus! {

/// Representation of a single point in a source file. `column` and `offset` are
/// UTF8 byte offsets, to match Clang's source location representation.
#[derive(Debug, Clone, Copy, PartialEq, Eq, Structural)]
pub struct SourcePoint {
    pub line: u32,
    pub column: u32,
    pub offset: u32,
}

/// A simplified representation of a span. Corresponds to clang's spelling
/// location.
#[derive(Debug, PartialEq, Eq)]
pub struct SourceSpan {
    pub file: String,
    pub start: SourcePoint,
    pub end: SourcePoint,
}

#[verifier::ext_equal]
pub ghost struct SpanView {
    pub file: Seq<char>,
    pub start: SourcePoint,
    pub end: SourcePoint,
}

impl DeepView for SourceSpan {
    type V = SpanView;

    open spec fn deep_view(&self) -> SpanView {
        SpanView { file: self.file@, start: self.start, end: self.end }
    }
}

/// The complete set of clang entities (AST kinds and preprocessor directives)
/// that are extracted from the source.
#[derive(Debug, Clone, Copy, PartialEq, Eq, Hash, Structural)]
pub enum EntityKind {
    TypedefDecl,
    FunctionDecl,
    RecordDecl,
    UnionDecl,
    EnumDecl,
    VarDecl,
    PreprocessingDirective,
    MacroDefinition,
    InclusionDirective,
}

/// The kind of an entity by the name that libclang has for it; other entities
/// are not extracted.
pub open spec fn kind_named(name: Seq<char>) -> Option<EntityKind> {
    if name == "TypedefDecl"@ {
        Some(EntityKind::TypedefDecl)
    } else if name == "FunctionDecl"@ {
        Some(EntityKind::FunctionDecl)
    } else if name == "StructDecl"@ {
        Some(EntityKind::RecordDecl)
    } else if name == "UnionDecl"@ {
        Some(EntityKind::UnionDecl)
    } else if name == "EnumDecl"@ {
        Some(EntityKind::EnumDecl)
    } else if name == "VarDecl"@ {
        Some(EntityKind::VarDecl)
    } else if name == "PreprocessingDirective"@ {
        Some(EntityKind::PreprocessingDirective)
    } else if name == "MacroDefinition"@ {
        Some(EntityKind::MacroDefinition)
    } else if name == "InclusionDirective"@ {
        Some(EntityKind::InclusionDirective)
    } else {
        None
    }
}

/// Coerces the name of libclang's entity kind into an [`EntityKind`].
pub fn map_top_level_decl_kind(name: &str) -> (r: Option<EntityKind>)
    ensures
        r == kind_named(name@),
{
    if same(name, "TypedefDecl") {
        Some(EntityKind::TypedefDecl)
    } else if same(name, "FunctionDecl") {
        Some(EntityKind::FunctionDecl)
    } else if same(name, "StructDecl") {
        Some(EntityKind::RecordDecl)
    } else if same(name, "UnionDecl") {
        Some(EntityKind::UnionDecl)
    } else if same(name, "EnumDecl") {
        Some(EntityKind::EnumDecl)
    } else if same(name, "VarDecl") {
        Some(EntityKind::VarDecl)
    } else if same(name, "PreprocessingDirective") {
        Some(EntityKind::PreprocessingDirective)
    } else if same(name, "MacroDefinition") {
        Some(EntityKind::MacroDefinition)
    } else if same(name, "InclusionDirective") {
        Some(EntityKind::InclusionDirective)
    } else {
        None
    }
}

/// A top-level entity extracted from the source code, along with its source
/// span and original source text.
#[derive(Debug)]
pub struct TopLevelEntity {
    pub kind: EntityKind,
    pub source_text: String,
    pub span: SourceSpan,
    pub ast: Option<ClangAST>,
    pub annotations: EntityAnnotations,
    /// If this entity encloses another (the span of the child is fully
    /// contained within that of the parent), it is stored here.
    pub sub_entities: Vec<TopLevelEntity>,
    /// The variants that the file of the entity belongs to, as pairs of a
    /// driving variable and its value.
    pub variant_tags: Vec<(String, String)>,
}

#[verifier::ext_equal]
pub ghost struct EntityView {
    pub kind: EntityKind,
    pub source_text: Seq<char>,
    pub span: SpanView,
    pub ast: Option<ClangAstView>,
    pub annotations: EntityAnnotations,
    pub sub_entities: Seq<EntityView>,
    pub variant_tags: Seq<(Seq<char>, Seq<char>)>,
}

impl TopLevelEntity {
    pub open spec fn model(self) -> EntityView
        decreases self,
    {
        EntityView {
            kind: self.kind,
            source_text: self.source_text@,
            span: self.span.deep_view(),
            ast: self.ast.deep_view(),
            annotations: self.annotations,
            sub_entities: Seq::new(
                self.sub_entities@.len(),
                |i: int|
                    if 0 <= i < self.sub_entities@.len() {
                        self.sub_entities@[i].model()
                    } else {
                        arbitrary()
                    },
            ),
            variant_tags: self.variant_tags.deep_view(),
        }
    }
}

impl DeepView for TopLevelEntity {
    type V = EntityView;

    open spec fn deep_view(&self) -> EntityView {
        self.model()
    }
}

proof fn model_subs(e: TopLevelEntity)
    ensures
        e.model().sub_entities == e.sub_entities.deep_view(),
{
    assert(e.model().sub_entities =~= e.sub_entities.deep_view());
}

/// `child` lies in `parent`, in the same file.
pub open spec fn contains_span(parent: SpanView, child: SpanView) -> bool {
    parent.file == child.file && parent.start.offset <= child.start.offset && parent.end.offset
        >= child.end.offset
}

pub fn span_contains(parent: &SourceSpan, child: &SourceSpan) -> (r: bool)
    ensures
        r == contains_span(parent.deep_view(), child.deep_view()),
{
    same(parent.file.as_str(), child.file.as_str()) && parent.start.offset <= child.start.offset
        && parent.end.offset >= child.end.offset
}

/// The position of the first node that contains the span.
pub open spec fn first_container(nodes: Seq<EntityView>, span: SpanView) -> Option<int>
    decreases nodes.len(),
{
    if nodes.len() == 0 {
        None
    } else {
        match first_container(nodes.drop_last(), span) {
            Some(i) => Some(i),
            None => if contains_span(nodes.last().span, span) {
                Some(nodes.len() - 1)
            } else {
                None
            },
        }
    }
}

/// The nodes that lie in the span.
pub open spec fn nodes_inside(nodes: Seq<EntityView>, span: SpanView) -> Seq<EntityView>
    decreases nodes.len(),
{
    if nodes.len() == 0 {
        seq![]
    } else {
        let rest = nodes_inside(nodes.drop_last(), span);
        if contains_span(span, nodes.last().span) {
            rest.push(nodes.last())
        } else {
            rest
        }
    }
}

/// The nodes that do not lie in the span.
pub open spec fn nodes_outside(nodes: Seq<EntityView>, span: SpanView) -> Seq<EntityView>
    decreases nodes.len(),
{
    if nodes.len() == 0 {
        seq![]
    } else {
        let rest = nodes_outside(nodes.drop_last(), span);
        if contains_span(span, nodes.last().span) {
            rest
        } else {
            rest.push(nodes.last())
        }
    }
}

/// The entity with more entities below it.
pub open spec fn with_subs(e: EntityView, more: Seq<EntityView>) -> EntityView {
    EntityView { sub_entities: e.sub_entities + more, ..e }
}

/// The types with one more: below the first that contains it, else at the end
/// with those below it that it contains.
pub open spec fn with_type(nodes: Seq<EntityView>, item: EntityView) -> Seq<EntityView> {
    match first_container(nodes, item.span) {
        Some(i) => nodes.update(i, with_subs(nodes[i], seq![item])),
        None => nodes_outside(nodes, item.span).push(
            with_subs(item, nodes_inside(nodes, item.span)),
        ),
    }
}

proof fn first_container_is(nodes: Seq<EntityView>, span: SpanView)
    ensures
        match first_container(nodes, span) {
            Some(i) => 0 <= i < nodes.len() && contains_span(nodes[i].span, span) && forall|j: int|
                0 <= j < i ==> !contains_span((#[trigger] nodes[j]).span, span),
            None => forall|j: int|
                0 <= j < nodes.len() ==> !contains_span((#[trigger] nodes[j]).span, span),
        },
    decreases nodes.len(),
{
    if nodes.len() > 0 {
        let rest = nodes.drop_last();
        first_container_is(rest, span);
        match first_container(rest, span) {
            Some(i) => {
                assert(nodes[i] == rest[i]);
                assert forall|j: int| 0 <= j < i implies !contains_span(
                    (#[trigger] nodes[j]).span,
                    span,
                ) by {
                    assert(nodes[j] == rest[j]);
                }
            },
            None => {
                assert forall|j: int| 0 <= j < nodes.len() - 1 implies !contains_span(
                    (#[trigger] nodes[j]).span,
                    span,
                ) by {
                    assert(nodes[j] == rest[j]);
                }
            },
        }
    }
}

fn place_type(nodes: &mut Vec<TopLevelEntity>, item: TopLevelEntity)
    ensures
        final(nodes).deep_view() == with_type(old(nodes).deep_view(), item.deep_view()),
{
    let ghost start = nodes.deep_view();
    let ghost span = item.span.deep_view();
    let mut k: usize = 0;
    while k < nodes.len()
        invariant
            start == nodes.deep_view(),
            span == item.span.deep_view(),
            k <= nodes@.len(),
            forall|j: int| 0 <= j < k ==> !contains_span((#[trigger] start[j]).span, span),
        ensures
            start == nodes.deep_view(),
            k <= nodes@.len(),
            forall|j: int| 0 <= j < k ==> !contains_span((#[trigger] start[j]).span, span),
            k < nodes@.len() ==> contains_span(start[k as int].span, span),
        decreases nodes@.len() - k,
    {
        proof {
            assert(start[k as int] == nodes@[k as int].model());
        }
        if span_contains(&nodes[k].span, &item.span) {
            break;
        }
        k += 1;
    }
    proof {
        first_container_is(start, span);
    }
    if k < nodes.len() {
        let mut node = nodes.remove(k);
        let ghost before = node.model();
        proof {
            model_subs(node);
            assert(before == start[k as int]);
        }
        let ghost subs = node.sub_entities.deep_view();
        node.sub_entities.push(item);
        proof {
            model_subs(node);
            assert(node.sub_entities.deep_view() =~= subs + seq![item.model()]);
            assert(node.model() =~= with_subs(before, seq![item.model()]));
        }
        nodes.insert(k, node);
        proof {
            assert(first_container(start, span) == Some(k as int));
            assert(nodes.deep_view() =~= start.update(k as int, node.model()));
        }
        return;
    }
    let mut item = item;
    let ghost whole = item.model();
    proof {
        model_subs(item);
    }
    let mut old_nodes: Vec<TopLevelEntity> = Vec::new();
    std::mem::swap(nodes, &mut old_nodes);
    let ghost all = old_nodes@;
    proof {
        assert(nodes.deep_view() =~= nodes_outside(start.take(0), span));
        assert(with_subs(whole, nodes_inside(start.take(0), span)) =~= item.model());
    }
    for node in it: old_nodes.into_iter()
        invariant
            it.seq() == all,
            start.len() == all.len(),
            forall|i: int| 0 <= i < all.len() ==> #[trigger] start[i] == all[i].model(),
            item.span.deep_view() == span,
            nodes.deep_view() == nodes_outside(start.take(it.index()), span),
            item.model() == with_subs(whole, nodes_inside(start.take(it.index()), span)),
    {
        let ghost k = it.index();
        let ghost kept = nodes.deep_view();
        let ghost had = item.model();
        proof {
            assert(start.take(k + 1).drop_last() =~= start.take(k));
            assert(start.take(k + 1).last() == start[k]);
            assert(start[k] == node.model());
            model_subs(item);
        }
        let ghost subs = item.sub_entities.deep_view();
        if span_contains(&item.span, &node.span) {
            item.sub_entities.push(node);
            proof {
                model_subs(item);
                assert(item.sub_entities.deep_view() =~= subs.push(node.model()));
                assert(item.model() =~= with_subs(
                    whole,
                    nodes_inside(start.take(k + 1), span),
                ));
            }
        } else {
            nodes.push(node);
            proof {
                assert(nodes.deep_view() =~= kept.push(node.model()));
            }
        }
    }
    proof {
        assert(start.take(start.len() as int) =~= start);
    }
    let ghost kept = nodes.deep_view();
    nodes.push(item);
    proof {
        assert(nodes.deep_view() =~= kept.push(item.model()));
    }
}

/// Every type that is stored below another lies in it.
pub open spec fn subs_inside(subs: Seq<EntityView>, span: SpanView) -> bool
    decreases subs,
{
    subs.len() > 0 ==> subs_inside(subs.drop_last(), span) && contains_span(
        span,
        subs.last().span,
    ) && nested(subs.last())
}

/// What is stored below the entity lies in it, at every depth.
pub open spec fn nested(e: EntityView) -> bool
    decreases e,
{
    subs_inside(e.sub_entities, e.span)
}

/// All entities are nested.
pub open spec fn all_nested(nodes: Seq<EntityView>) -> bool {
    forall|i: int| 0 <= i < nodes.len() ==> nested(#[trigger] nodes[i])
}

/// No entity lies in another.
pub open spec fn none_inside_another(nodes: Seq<EntityView>) -> bool {
    forall|i: int, j: int|
        0 <= i < nodes.len() && 0 <= j < nodes.len() && i != j ==> !contains_span(
            (#[trigger] nodes[i]).span,
            (#[trigger] nodes[j]).span,
        )
}

/// An entity without those below it.
pub open spec fn alone(e: EntityView) -> EntityView {
    EntityView { sub_entities: seq![], ..e }
}

/// The entities, with those below others, each without those below it.
pub open spec fn entities_in(nodes: Seq<EntityView>) -> Multiset<EntityView>
    decreases nodes,
{
    if nodes.len() == 0 {
        Multiset::empty()
    } else {
        entities_in(nodes.drop_last()).insert(alone(nodes.last())).add(
            entities_in(nodes.last().sub_entities),
        )
    }
}

proof fn subs_inside_joined(a: Seq<EntityView>, b: Seq<EntityView>, span: SpanView)
    requires
        subs_inside(a, span),
        subs_inside(b, span),
    ensures
        subs_inside(a + b, span),
    decreases b.len(),
{
    if b.len() == 0 {
        assert(a + b =~= a);
    } else {
        subs_inside_joined(a, b.drop_last(), span);
        assert((a + b).drop_last() =~= a + b.drop_last());
    }
}

proof fn inside_is_inside(nodes: Seq<EntityView>, span: SpanView)
    requires
        all_nested(nodes),
    ensures
        subs_inside(nodes_inside(nodes, span), span),
        all_nested(nodes_outside(nodes, span)),
    decreases nodes.len(),
{
    if nodes.len() > 0 {
        let rest = nodes.drop_last();
        assert forall|i: int| 0 <= i < rest.len() implies nested(#[trigger] rest[i]) by {
            assert(nested(nodes[i]));
        }
        inside_is_inside(rest, span);
        assert(nested(nodes[nodes.len() - 1]));
        if contains_span(span, nodes.last().span) {
            let inner = nodes_inside(rest, span);
            assert(inner.push(nodes.last()).drop_last() =~= inner);
        }
    }
}

/// A type that is added goes below another only if it lies in it, and takes
/// below it only what lies in it.
pub proof fn adding_keeps_nesting(nodes: Seq<EntityView>, item: EntityView)
    requires
        all_nested(nodes),
        nested(item),
    ensures
        all_nested(with_type(nodes, item)),
{
    first_container_is(nodes, item.span);
    match first_container(nodes, item.span) {
        Some(i) => {
            let node = nodes[i];
            assert(nested(node));
            assert(seq![item].drop_last() =~= Seq::<EntityView>::empty());
            assert(subs_inside(seq![item].drop_last(), node.span));
            assert(subs_inside(seq![item], node.span));
            subs_inside_joined(node.sub_entities, seq![item], node.span);
        },
        None => {
            inside_is_inside(nodes, item.span);
            subs_inside_joined(item.sub_entities, nodes_inside(nodes, item.span), item.span);
        },
    }
}

proof fn outside_is_outside(nodes: Seq<EntityView>, span: SpanView)
    ensures
        forall|i: int|
            0 <= i < nodes_outside(nodes, span).len() ==> !contains_span(
                span,
                (#[trigger] nodes_outside(nodes, span)[i]).span,
            ) && nodes.contains(nodes_outside(nodes, span)[i]),
        none_inside_another(nodes) ==> none_inside_another(nodes_outside(nodes, span)),
    decreases nodes.len(),
{
    if nodes.len() > 0 {
        let rest = nodes.drop_last();
        let kept = nodes_outside(rest, span);
        let out = nodes_outside(nodes, span);
        outside_is_outside(rest, span);
        assert forall|i: int| 0 <= i < out.len() implies !contains_span(
            span,
            (#[trigger] out[i]).span,
        ) && nodes.contains(out[i]) by {
            if i < kept.len() {
                assert(out[i] == kept[i]);
                let k = choose|k: int| 0 <= k < rest.len() && rest[k] == kept[i];
                assert(nodes[k] == out[i]);
            } else {
                assert(nodes[nodes.len() - 1] == out[i]);
            }
        }
        if none_inside_another(nodes) {
            assert(none_inside_another(rest)) by {
                assert forall|i: int, j: int|
                    0 <= i < rest.len() && 0 <= j < rest.len() && i != j implies !contains_span(
                    (#[trigger] rest[i]).span,
                    (#[trigger] rest[j]).span,
                ) by {
                    assert(!contains_span(nodes[i].span, nodes[j].span));
                }
            }
            let last = nodes.last();
            assert forall|i: int, j: int|
                0 <= i < out.len() && 0 <= j < out.len() && i != j implies !contains_span(
                (#[trigger] out[i]).span,
                (#[trigger] out[j]).span,
            ) by {
                if i < kept.len() && j < kept.len() {
                    assert(!contains_span(kept[i].span, kept[j].span));
                } else if i < kept.len() {
                    let k = choose|k: int| 0 <= k < rest.len() && rest[k] == kept[i];
                    assert(!contains_span(nodes[k].span, nodes[nodes.len() - 1].span));
                } else {
                    let k = choose|k: int| 0 <= k < rest.len() && rest[k] == kept[j];
                    assert(!contains_span(nodes[nodes.len() - 1].span, nodes[k].span));
                }
            }
        }
    }
}

/// After a type is added, still no top-level type lies in another.
pub proof fn adding_keeps_types_apart(nodes: Seq<EntityView>, item: EntityView)
    requires
        none_inside_another(nodes),
    ensures
        none_inside_another(with_type(nodes, item)),
{
    first_container_is(nodes, item.span);
    let out = with_type(nodes, item);
    match first_container(nodes, item.span) {
        Some(i) => {
            assert forall|a: int, b: int|
                0 <= a < out.len() && 0 <= b < out.len() && a != b implies !contains_span(
                (#[trigger] out[a]).span,
                (#[trigger] out[b]).span,
            ) by {
                assert(!contains_span(nodes[a].span, nodes[b].span));
            }
        },
        None => {
            let kept = nodes_outside(nodes, item.span);
            outside_is_outside(nodes, item.span);
            assert forall|a: int, b: int|
                0 <= a < out.len() && 0 <= b < out.len() && a != b implies !contains_span(
                (#[trigger] out[a]).span,
                (#[trigger] out[b]).span,
            ) by {
                if a < kept.len() && b < kept.len() {
                    assert(!contains_span(kept[a].span, kept[b].span));
                } else if a < kept.len() {
                    assert(nodes.contains(kept[a]));
                    let k = choose|k: int| 0 <= k < nodes.len() && nodes[k] == kept[a];
                    assert(!contains_span(nodes[k].span, item.span));
                } else {
                    assert(!contains_span(item.span, kept[b].span));
                }
            }
        },
    }
}

proof fn entities_joined(a: Seq<EntityView>, b: Seq<EntityView>)
    ensures
        entities_in(a + b) == entities_in(a).add(entities_in(b)),
    decreases b.len(),
{
    if b.len() == 0 {
        assert(a + b =~= a);
        assert(entities_in(a) =~= entities_in(a).add(entities_in(b)));
    } else {
        entities_joined(a, b.drop_last());
        assert((a + b).drop_last() =~= a + b.drop_last());
        assert((a + b).last() == b.last());
        assert(entities_in(a + b) =~= entities_in(a).add(entities_in(b)));
    }
}

/// An entity at the end adds itself and what is below it.
pub proof fn entities_pushed(nodes: Seq<EntityView>, e: EntityView)
    ensures
        entities_in(nodes.push(e)) == entities_in(nodes).insert(alone(e)).add(
            entities_in(e.sub_entities),
        ),
{
    assert(nodes.push(e).drop_last() =~= nodes);
}

proof fn entities_parted(nodes: Seq<EntityView>, span: SpanView)
    ensures
        entities_in(nodes) == entities_in(nodes_inside(nodes, span)).add(
            entities_in(nodes_outside(nodes, span)),
        ),
    decreases nodes.len(),
{
    let inside = entities_in(nodes_inside(nodes, span));
    let outside = entities_in(nodes_outside(nodes, span));
    if nodes.len() > 0 {
        let rest = nodes.drop_last();
        entities_parted(rest, span);
        entities_pushed(nodes_inside(rest, span), nodes.last());
        entities_pushed(nodes_outside(rest, span), nodes.last());
    }
    assert(entities_in(nodes) =~= inside.add(outside));
}

proof fn entities_below(nodes: Seq<EntityView>, i: int, more: Seq<EntityView>)
    requires
        0 <= i < nodes.len(),
    ensures
        entities_in(nodes.update(i, with_subs(nodes[i], more))) == entities_in(nodes).add(
            entities_in(more),
        ),
    decreases nodes.len(),
{
    let e = with_subs(nodes[i], more);
    let out = nodes.update(i, e);
    if i == nodes.len() - 1 {
        assert(out.drop_last() =~= nodes.drop_last());
        assert(alone(e) =~= alone(nodes[i]));
        entities_joined(nodes[i].sub_entities, more);
    } else {
        assert(out.drop_last() =~= nodes.drop_last().update(i, e));
        assert(out.last() == nodes.last());
        entities_below(nodes.drop_last(), i, more);
    }
    assert(entities_in(out) =~= entities_in(nodes).add(entities_in(more)));
}

/// No entity is lost, changed or doubled when a type is added: afterwards there
/// are those that were there, the type and what is below it.
pub proof fn adding_loses_nothing(nodes: Seq<EntityView>, item: EntityView)
    ensures
        entities_in(with_type(nodes, item)) == entities_in(nodes).insert(alone(item)).add(
            entities_in(item.sub_entities),
        ),
{
    first_container_is(nodes, item.span);
    let want = entities_in(nodes).insert(alone(item)).add(entities_in(item.sub_entities));
    match first_container(nodes, item.span) {
        Some(i) => {
            let none = Seq::<EntityView>::empty();
            entities_below(nodes, i, seq![item]);
            entities_pushed(none, item);
            assert(none.push(item) =~= seq![item]);
            assert(entities_in(none) =~= Multiset::empty());
        },
        None => {
            let inner = nodes_inside(nodes, item.span);
            let outer = nodes_outside(nodes, item.span);
            entities_parted(nodes, item.span);
            entities_joined(item.sub_entities, inner);
            entities_pushed(outer, with_subs(item, inner));
            assert(alone(with_subs(item, inner)) =~= alone(item));
        },
    }
    assert(entities_in(with_type(nodes, item)) =~= want);
}

/// A type that lies in a top-level type, or covers the same span, becomes the
/// last below the first such type and changes nothing else at the top level. Any
/// other type becomes the last of the top level.
pub proof fn added_type_has_its_place(nodes: Seq<EntityView>, item: EntityView, i: int)
    requires
        0 <= i < nodes.len() ==> contains_span(nodes[i].span, item.span),
        forall|j: int|
            0 <= j < nodes.len() && j < i ==> !contains_span((#[trigger] nodes[j]).span, item.span),
        0 <= i,
    ensures
        i < nodes.len() ==> with_type(nodes, item) == nodes.update(
            i,
            EntityView { sub_entities: nodes[i].sub_entities.push(item), ..nodes[i] },
        ),
        i >= nodes.len() ==> with_type(nodes, item).len() > 0 && alone(
            with_type(nodes, item).last(),
        ) == alone(item) && item.sub_entities.is_prefix_of(
            with_type(nodes, item).last().sub_entities,
        ),
{
    first_container_is(nodes, item.span);
    if i < nodes.len() {
        assert(first_container(nodes, item.span) == Some(i));
        assert(nodes[i].sub_entities + seq![item] =~= nodes[i].sub_entities.push(item));
    } else {
        let inner = nodes_inside(nodes, item.span);
        let last = with_subs(item, inner);
        assert(alone(last) =~= alone(item));
        assert(item.sub_entities =~= last.sub_entities.subrange(
            0,
            item.sub_entities.len() as int,
        ));
    }
}

// ---------------------------------------------------------------------------
// The map
// ---------------------------------------------------------------------------

/// The source text and the tree of each top-level entity, and the preprocessor
/// directives. All text in the source code has exactly one representation in
/// the map, either as a top-level entity or as a preprocessor directive.
#[derive(Debug)]
pub struct RichSourceMap {
    pub app_types: Vec<TopLevelEntity>,
    pub app_globals: Vec<TopLevelEntity>,
    pub app_functions: Vec<TopLevelEntity>,
    pub app_func_sigs: Vec<TopLevelEntity>,
    pub include_paths: Vec<TopLevelEntity>,
    pub defines: Vec<TopLevelEntity>,
    pub compiler_args: Vec<TopLevelEntity>,
}

#[verifier::ext_equal]
pub ghost struct SourceMapView {
    pub app_types: Seq<EntityView>,
    pub app_globals: Seq<EntityView>,
    pub app_functions: Seq<EntityView>,
    pub app_func_sigs: Seq<EntityView>,
    pub include_paths: Seq<EntityView>,
    pub defines: Seq<EntityView>,
    pub compiler_args: Seq<EntityView>,
}

impl DeepView for RichSourceMap {
    type V = SourceMapView;

    open spec fn deep_view(&self) -> SourceMapView {
        SourceMapView {
            app_types: self.app_types.deep_view(),
            app_globals: self.app_globals.deep_view(),
            app_functions: self.app_functions.deep_view(),
            app_func_sigs: self.app_func_sigs.deep_view(),
            include_paths: self.include_paths.deep_view(),
            defines: self.defines.deep_view(),
            compiler_args: self.compiler_args.deep_view(),
        }
    }
}

impl SourceMapView {
    /// The map without entities.
    pub open spec fn empty() -> SourceMapView {
        SourceMapView {
            app_types: seq![],
            app_globals: seq![],
            app_functions: seq![],
            app_func_sigs: seq![],
            include_paths: seq![],
            defines: seq![],
            compiler_args: seq![],
        }
    }

    /// The map with one more entity, sorted by its kind.
    pub open spec fn with_entity(self, item: EntityView, is_definition: bool) -> SourceMapView {
        match item.kind {
            EntityKind::TypedefDecl
            | EntityKind::RecordDecl
            | EntityKind::UnionDecl
            | EntityKind::EnumDecl => SourceMapView {
                app_types: with_type(self.app_types, item),
                ..self
            },
            EntityKind::VarDecl => SourceMapView {
                app_globals: self.app_globals.push(item),
                ..self
            },
            EntityKind::FunctionDecl => if is_definition {
                SourceMapView { app_functions: self.app_functions.push(item), ..self }
            } else {
                SourceMapView { app_func_sigs: self.app_func_sigs.push(item), ..self }
            },
            EntityKind::InclusionDirective => SourceMapView {
                include_paths: self.include_paths.push(item),
                ..self
            },
            EntityKind::MacroDefinition => SourceMapView {
                defines: self.defines.push(item),
                ..self
            },
            EntityKind::PreprocessingDirective => SourceMapView {
                compiler_args: self.compiler_args.push(item),
                ..self
            },
        }
    }

    /// The entities that survive preprocessing.
    pub open spec fn definitions(self) -> Seq<EntityView> {
        self.app_types + self.app_globals + self.app_functions
    }

    /// The preprocessor directives.
    pub open spec fn directives(self) -> Seq<EntityView> {
        self.include_paths + self.defines + self.compiler_args
    }

    /// Every top-level entity.
    pub open spec fn all_entities(self) -> Seq<EntityView> {
        self.definitions() + self.app_func_sigs + self.directives()
    }

    /// Every span starts before it ends, and no two top-level entities overlap
    /// within the same file.
    pub open spec fn spans_fit(self) -> bool {
        spans_valid(self.all_entities()) && spans_apart(self.all_entities())
    }
}

/// Every span starts no later than it ends.
pub open spec fn spans_valid(all: Seq<EntityView>) -> bool {
    forall|i: int|
        0 <= i < all.len() ==> (#[trigger] all[i]).span.start.offset <= all[i].span.end.offset
}

/// The spans do not overlap: they lie in different files, or one ends before
/// the other starts.
pub open spec fn apart(a: SpanView, b: SpanView) -> bool {
    a.file != b.file || a.end.offset <= b.start.offset || b.end.offset <= a.start.offset
}

/// No two spans overlap.
pub open spec fn spans_apart(all: Seq<EntityView>) -> bool {
    forall|i: int, j: int|
        0 <= i < j < all.len() ==> apart((#[trigger] all[i]).span, (#[trigger] all[j]).span)
}

/// The views of borrowed entities.
pub open spec fn views_of(refs: Seq<&TopLevelEntity>) -> Seq<EntityView> {
    Seq::new(refs.len(), |i: int| refs[i].model())
}

fn push_all<'a>(out: &mut Vec<&'a TopLevelEntity>, more: &'a Vec<TopLevelEntity>)
    ensures
        views_of(final(out)@) == views_of(old(out)@) + more.deep_view(),
{
    let ghost start = views_of(out@);
    let ghost all = more.deep_view();
    let mut i: usize = 0;
    proof {
        assert(views_of(out@) =~= start + all.take(0));
    }
    while i < more.len()
        invariant
            all == more.deep_view(),
            i <= more@.len(),
            views_of(out@) == start + all.take(i as int),
        decreases more@.len() - i,
    {
        let ghost before = views_of(out@);
        let ghost had = out@;
        out.push(&more[i]);
        proof {
            assert(out@ =~= had.push(&more@[i as int]));
            assert(views_of(out@) =~= before.push(more@[i as int].model()));
            assert(all.take(i + 1) =~= all.take(i as int).push(all[i as int]));
            assert(views_of(out@) =~= start + all.take(i + 1));
        }
        i += 1;
    }
    proof {
        assert(all.take(i as int) =~= all);
    }
}

impl RichSourceMap {
    /// Adds a type: below the first that contains it, else at the end with those
    /// below it that it contains. No entity is lost, and no top-level type comes
    /// to lie in another.
    pub fn insert_type_into(nodes: &mut Vec<TopLevelEntity>, item: TopLevelEntity)
        ensures
            final(nodes).deep_view() == with_type(old(nodes).deep_view(), item.deep_view()),
            none_inside_another(old(nodes).deep_view()) ==> none_inside_another(
                final(nodes).deep_view(),
            ),
            entities_in(final(nodes).deep_view()) == entities_in(old(nodes).deep_view()).insert(
                alone(item.deep_view()),
            ).add(entities_in(item.deep_view().sub_entities)),
            match first_container(old(nodes).deep_view(), item.deep_view().span) {
                Some(i) => final(nodes).deep_view() == old(nodes).deep_view().update(
                    i,
                    EntityView {
                        sub_entities: old(nodes).deep_view()[i].sub_entities.push(
                            item.deep_view(),
                        ),
                        ..old(nodes).deep_view()[i]
                    },
                ),
                None => final(nodes)@.len() > 0 && alone(final(nodes).deep_view().last())
                    == alone(item.deep_view()),
            },
    {
        let ghost start = nodes.deep_view();
        let ghost added = item.deep_view();
        place_type(nodes, item);
        proof {
            first_container_is(start, added.span);
            if none_inside_another(start) {
                adding_keeps_types_apart(start, added);
            }
            adding_loses_nothing(start, added);
            match first_container(start, added.span) {
                Some(i) => {
                    added_type_has_its_place(start, added, i);
                },
                None => {
                    added_type_has_its_place(start, added, start.len() as int);
                },
            }
        }
    }

    /// The map without entities.
    pub fn new() -> (r: RichSourceMap)
        ensures
            r.deep_view() == SourceMapView::empty(),
    {
        let r = RichSourceMap {
            app_types: Vec::new(),
            app_globals: Vec::new(),
            app_functions: Vec::new(),
            app_func_sigs: Vec::new(),
            include_paths: Vec::new(),
            defines: Vec::new(),
            compiler_args: Vec::new(),
        };
        proof {
            assert(r.deep_view() =~= SourceMapView::empty());
        }
        r
    }

    /// Sort and store entities in the map based on their kind. A function goes
    /// by whether it is a definition.
    pub fn push_entity(&mut self, item: TopLevelEntity, is_definition: bool)
        ensures
            final(self).deep_view() == old(self).deep_view().with_entity(
                item.deep_view(),
                is_definition,
            ),
    {
        let ghost before = self.deep_view();
        let ghost one = item.deep_view();
        match item.kind {
            EntityKind::TypedefDecl
            | EntityKind::RecordDecl
            | EntityKind::UnionDecl
            | EntityKind::EnumDecl => {
                RichSourceMap::insert_type_into(&mut self.app_types, item);
            },
            EntityKind::VarDecl => {
                self.app_globals.push(item);
                proof {
                    assert(self.app_globals.deep_view() =~= before.app_globals.push(one));
                }
            },
            EntityKind::FunctionDecl => {
                if is_definition {
                    self.app_functions.push(item);
                    proof {
                        assert(self.app_functions.deep_view() =~= before.app_functions.push(one));
                    }
                } else {
                    self.app_func_sigs.push(item);
                    proof {
                        assert(self.app_func_sigs.deep_view() =~= before.app_func_sigs.push(one));
                    }
                }
            },
            EntityKind::InclusionDirective => {
                self.include_paths.push(item);
                proof {
                    assert(self.include_paths.deep_view() =~= before.include_paths.push(one));
                }
            },
            EntityKind::MacroDefinition => {
                self.defines.push(item);
                proof {
                    assert(self.defines.deep_view() =~= before.defines.push(one));
                }
            },
            EntityKind::PreprocessingDirective => {
                self.compiler_args.push(item);
                proof {
                    assert(self.compiler_args.deep_view() =~= before.compiler_args.push(one));
                }
            },
        }
        proof {
            assert(self.deep_view() =~= before.with_entity(one, is_definition));
        }
    }

    /// The entities that survive preprocessing: types, then globals, then
    /// functions.
    pub fn iter_definitions(&self) -> (r: Vec<&TopLevelEntity>)
        ensures
            views_of(r@) == self.deep_view().definitions(),
    {
        let mut out: Vec<&TopLevelEntity> = Vec::new();
        proof {
            assert(views_of(out@) =~= Seq::<EntityView>::empty());
        }
        push_all(&mut out, &self.app_types);
        push_all(&mut out, &self.app_globals);
        push_all(&mut out, &self.app_functions);
        proof {
            assert(views_of(out@) =~= self.deep_view().definitions());
        }
        out
    }

    /// All preprocessor directives: includes, then defines, then compiler
    /// arguments.
    pub fn iter_directives(&self) -> (r: Vec<&TopLevelEntity>)
        ensures
            views_of(r@) == self.deep_view().directives(),
    {
        let mut out: Vec<&TopLevelEntity> = Vec::new();
        proof {
            assert(views_of(out@) =~= Seq::<EntityView>::empty());
        }
        push_all(&mut out, &self.include_paths);
        push_all(&mut out, &self.defines);
        push_all(&mut out, &self.compiler_args);
        proof {
            assert(views_of(out@) =~= self.deep_view().directives());
        }
        out
    }

    /// Every top-level entity.
    pub fn iter_all_entities(&self) -> (r: Vec<&TopLevelEntity>)
        ensures
            views_of(r@) == self.deep_view().all_entities(),
    {
        let mut out = self.iter_definitions();
        push_all(&mut out, &self.app_func_sigs);
        push_all(&mut out, &self.include_paths);
        push_all(&mut out, &self.defines);
        push_all(&mut out, &self.compiler_args);
        proof {
            assert(views_of(out@) =~= self.deep_view().all_entities());
        }
        out
    }

    /// Returns true when the map satisfies its span invariants:
    /// - every span is internally valid (`start.offset <= end.offset`)
    /// - no two top-level entities overlap within the same file
    pub fn well_formed(&self) -> (r: bool)
        ensures
            r == self.deep_view().spans_fit(),
    {
        let refs = self.iter_all_entities();
        let ghost all = views_of(refs@);
        let mut i: usize = 0;
        while i < refs.len()
            invariant
                all == views_of(refs@),
                all == self.deep_view().all_entities(),
                i <= refs@.len(),
                forall|a: int|
                    0 <= a < i ==> (#[trigger] all[a]).span.start.offset
                        <= all[a].span.end.offset,
                forall|a: int, b: int|
                    0 <= a < b < i ==> apart(
                        (#[trigger] all[a]).span,
                        (#[trigger] all[b]).span,
                    ),
            decreases refs@.len() - i,
        {
            let span = &refs[i].span;
            proof {
                assert(all[i as int].span == span.deep_view());
            }
            if span.start.offset > span.end.offset {
                return false;
            }
            let mut k: usize = 0;
            while k < i
                invariant
                    all == views_of(refs@),
                    all == self.deep_view().all_entities(),
                    i < refs@.len(),
                    k <= i,
                    span.deep_view() == all[i as int].span,
                    forall|a: int|
                        0 <= a < k ==> apart((#[trigger] all[a]).span, all[i as int].span),
                decreases i - k,
            {
                let other = &refs[k].span;
                proof {
                    assert(all[k as int].span == other.deep_view());
                }
                if same(other.file.as_str(), span.file.as_str()) && other.end.offset
                    > span.start.offset && span.end.offset > other.start.offset {
                    return false;
                }
                k += 1;
            }
            i += 1;
        }
        true
    }

    /// The map as text: the number of its entities other than directives.
    pub fn describe(&self) -> (r: String)
        requires
            self.app_types@.len() + self.app_globals@.len() + self.app_functions@.len()
                + self.app_func_sigs@.len() <= usize::MAX,
        ensures
            r@ == "C top-level items ("@ + decimal_of(
                self.app_types@.len() + self.app_globals@.len() + self.app_functions@.len()
                    + self.app_func_sigs@.len(),
            ) + " entries)"@,
    {
        let total: usize = self.app_types.len() + self.app_globals.len() + self.app_functions.len()
            + self.app_func_sigs.len();
        let mut out = "C top-level items (".to_owned();
        out.push_str(decimal(total).as_str());
        out.push_str(" entries)");
        out
    }
}

impl Default for RichSourceMap {
    fn default() -> (r: RichSourceMap)
        ensures
            r.deep_view() == SourceMapView::empty(),
    {
        RichSourceMap::new()
    }
}

} // verus!
