//! Types and utilities for working with top-level C declarations.
use crate::c_ast::rsm::{views_of, EntityKind, EntityView, SpanView, TopLevelEntity};
use crate::order::{lex_antisymmetric, lex_le, lex_total, lex_transitive, text_le};
use crate::text::same;
use vstd::prelude::*;

verus! {

/// A declaration, with what is known of its visibility.
#[derive(Debug)]
pub struct ClangNode<'a> {
    pub node: &'a TopLevelEntity,
    pub visibility: Option<bool>,
}

impl<'a> ClangNode<'a> {
    /// A declaration of which nothing is known yet.
    pub fn new(node: &'a TopLevelEntity) -> (r: ClangNode<'a>)
        ensures
            *r.node == *node,
            r.visibility is None,
    {
        ClangNode { node, visibility: None }
    }

    /// The declaration itself.
    pub fn as_node(&self) -> (r: &TopLevelEntity)
        ensures
            *r == *self.node,
    {
        self.node
    }

    /// What is kept of the declaration.
    pub open spec fn view(self) -> (EntityView, Option<bool>) {
        (self.node.model(), self.visibility)
    }

    /// The same declaration again.
    pub fn copied(&self) -> (r: ClangNode<'a>)
        ensures
            r.view() == self.view(),
    {
        ClangNode { node: self.node, visibility: self.visibility }
    }
}

/// The views of declarations.
pub open spec fn node_views(nodes: Seq<ClangNode>) -> Seq<(EntityView, Option<bool>)> {
    Seq::new(nodes.len(), |i: int| nodes[i].view())
}

/// Container for categorizing declarations by their source.
#[derive(Debug)]
pub struct ClangDeclarations<'a> {
    /// Declarations imported from external sources.
    pub imported: Vec<ClangNode<'a>>,
    /// Type declarations from project source files.
    pub app_types: Vec<ClangNode<'a>>,
    /// Global variable declarations from project source files.
    pub app_globals: Vec<ClangNode<'a>>,
    /// Function declarations from project source files.
    pub app_functions: Vec<ClangNode<'a>>,
}

fn push_copies<'a>(out: &mut Vec<ClangNode<'a>>, more: &Vec<ClangNode<'a>>)
    ensures
        node_views(final(out)@) == node_views(old(out)@) + node_views(more@),
{
    let ghost start = node_views(out@);
    let ghost all = node_views(more@);
    let mut i: usize = 0;
    proof {
        assert(node_views(out@) =~= start + all.take(0));
    }
    while i < more.len()
        invariant
            all == node_views(more@),
            i <= more@.len(),
            node_views(out@) == start + all.take(i as int),
        decreases more@.len() - i,
    {
        let ghost before = node_views(out@);
        let ghost had = out@;
        let one = more[i].copied();
        out.push(one);
        proof {
            assert(out@ =~= had.push(one));
            assert(node_views(out@) =~= before.push(one.view()));
            assert(all.take(i + 1) =~= all.take(i as int).push(all[i as int]));
            assert(node_views(out@) =~= start + all.take(i + 1));
        }
        i += 1;
    }
    proof {
        assert(all.take(i as int) =~= all);
    }
}

impl<'a> ClangDeclarations<'a> {
    /// The global definitions, then the function definitions.
    pub fn app_functions_and_globals(&self) -> (r: Vec<ClangNode<'a>>)
        ensures
            node_views(r@) == node_views(self.app_globals@) + node_views(self.app_functions@),
    {
        let mut out: Vec<ClangNode<'a>> = Vec::new();
        proof {
            assert(node_views(out@) =~= Seq::empty());
        }
        push_copies(&mut out, &self.app_globals);
        push_copies(&mut out, &self.app_functions);
        proof {
            assert(node_views(out@) =~= node_views(self.app_globals@) + node_views(
                self.app_functions@,
            ));
        }
        out
    }
}

/// `a` comes before `b`, or at the same place: by file, then by start, then by
/// end.
pub open spec fn span_le(a: SpanView, b: SpanView) -> bool {
    if a.file != b.file {
        lex_le(a.file, b.file)
    } else if a.start.offset != b.start.offset {
        a.start.offset < b.start.offset
    } else {
        a.end.offset <= b.end.offset
    }
}

/// With `e` behind all that come before it or at its place.
pub open spec fn inserted(sorted: Seq<EntityView>, e: EntityView) -> Seq<EntityView>
    decreases sorted.len(),
{
    if sorted.len() == 0 || span_le(sorted.last().span, e.span) {
        sorted.push(e)
    } else {
        inserted(sorted.drop_last(), e).push(sorted.last())
    }
}

/// The entities in the order of their spans; those at one place stay in order.
pub open spec fn in_source_order(items: Seq<EntityView>) -> Seq<EntityView>
    decreases items.len(),
{
    if items.len() == 0 {
        seq![]
    } else {
        inserted(in_source_order(items.drop_last()), items.last())
    }
}

/// The spans ascend.
pub open spec fn ascending(items: Seq<EntityView>) -> bool {
    forall|i: int, j: int|
        0 <= i < j < items.len() ==> span_le((#[trigger] items[i]).span, (#[trigger] items[j]).span)
}

proof fn span_le_total(a: SpanView, b: SpanView)
    ensures
        span_le(a, b) || span_le(b, a),
{
    lex_total(a.file, b.file);
}

proof fn span_le_transitive(a: SpanView, b: SpanView, c: SpanView)
    requires
        span_le(a, b),
        span_le(b, c),
    ensures
        span_le(a, c),
{
    if a.file != b.file && b.file != c.file {
        lex_transitive(a.file, b.file, c.file);
        if a.file == c.file {
            lex_antisymmetric(a.file, b.file);
        }
    }
}

proof fn inserting_keeps_order(sorted: Seq<EntityView>, e: EntityView)
    requires
        ascending(sorted),
    ensures
        ascending(inserted(sorted, e)),
        inserted(sorted, e).to_multiset() == sorted.to_multiset().insert(e),
        inserted(sorted, e).len() == sorted.len() + 1,
        inserted(sorted, e).last() == e || (sorted.len() > 0 && inserted(sorted, e).last()
            == sorted.last()),
        forall|i: int|
            0 <= i < inserted(sorted, e).len() ==> (#[trigger] inserted(sorted, e)[i]) == e
                || sorted.contains(inserted(sorted, e)[i]),
    decreases sorted.len(),
{
    broadcast use vstd::seq_lib::group_to_multiset_ensures;

    let out = inserted(sorted, e);
    if sorted.len() == 0 || span_le(sorted.last().span, e.span) {
        assert forall|i: int, j: int| 0 <= i < j < out.len() implies span_le(
            (#[trigger] out[i]).span,
            (#[trigger] out[j]).span,
        ) by {
            if j == sorted.len() {
                if i < sorted.len() - 1 {
                    span_le_transitive(sorted[i].span, sorted.last().span, e.span);
                }
            } else {
                assert(span_le(sorted[i].span, sorted[j].span));
            }
        }
        assert forall|i: int| 0 <= i < out.len() implies (#[trigger] out[i]) == e
            || sorted.contains(out[i]) by {
            if i < sorted.len() {
                assert(sorted[i] == out[i]);
            }
        }
    } else {
        let rest = sorted.drop_last();
        assert forall|i: int, j: int| 0 <= i < j < rest.len() implies span_le(
            (#[trigger] rest[i]).span,
            (#[trigger] rest[j]).span,
        ) by {
            assert(span_le(sorted[i].span, sorted[j].span));
        }
        inserting_keeps_order(rest, e);
        let inner = inserted(rest, e);
        span_le_total(sorted.last().span, e.span);
        assert forall|i: int| 0 <= i < inner.len() implies span_le(
            (#[trigger] inner[i]).span,
            sorted.last().span,
        ) by {
            if inner[i] != e {
                let k = choose|k: int| 0 <= k < rest.len() && rest[k] == inner[i];
                assert(span_le(sorted[k].span, sorted[sorted.len() - 1].span));
            }
        }
        assert forall|i: int, j: int| 0 <= i < j < out.len() implies span_le(
            (#[trigger] out[i]).span,
            (#[trigger] out[j]).span,
        ) by {
            if j < inner.len() {
                assert(span_le(inner[i].span, inner[j].span));
            } else {
                assert(span_le(inner[i].span, sorted.last().span));
            }
        }
        assert forall|i: int| 0 <= i < out.len() implies (#[trigger] out[i]) == e
            || sorted.contains(out[i]) by {
            if i < inner.len() {
                assert(out[i] == inner[i]);
                if inner[i] != e {
                    let k = choose|k: int| 0 <= k < rest.len() && rest[k] == inner[i];
                    assert(sorted[k] == out[i]);
                }
            } else {
                assert(sorted[sorted.len() - 1] == out[i]);
            }
        }
        assert(rest.push(sorted.last()) =~= sorted);
        assert(out.to_multiset() =~= sorted.to_multiset().insert(e));
    }
}

/// Sorting orders the entities by their spans and neither loses nor doubles any.
pub proof fn sorting_orders_and_keeps(items: Seq<EntityView>)
    ensures
        ascending(in_source_order(items)),
        in_source_order(items).to_multiset() == items.to_multiset(),
    decreases items.len(),
{
    broadcast use vstd::seq_lib::group_to_multiset_ensures;

    if items.len() > 0 {
        sorting_orders_and_keeps(items.drop_last());
        inserting_keeps_order(in_source_order(items.drop_last()), items.last());
        assert(items.drop_last().push(items.last()) =~= items);
    }
}

fn comes_before(a: &TopLevelEntity, b: &TopLevelEntity) -> (r: bool)
    ensures
        r == span_le(a.model().span, b.model().span),
{
    if !same(a.span.file.as_str(), b.span.file.as_str()) {
        text_le(a.span.file.as_str(), b.span.file.as_str())
    } else if a.span.start.offset != b.span.start.offset {
        a.span.start.offset < b.span.start.offset
    } else {
        a.span.end.offset <= b.span.end.offset
    }
}

proof fn inserted_at(sorted: Seq<EntityView>, e: EntityView, at: int)
    requires
        0 <= at <= sorted.len(),
        at > 0 ==> span_le(sorted[at - 1].span, e.span),
        forall|j: int| at <= j < sorted.len() ==> !span_le((#[trigger] sorted[j]).span, e.span),
    ensures
        inserted(sorted, e) == sorted.insert(at, e),
    decreases sorted.len(),
{
    if at == sorted.len() {
        assert(sorted.insert(at, e) =~= sorted.push(e));
    } else {
        let rest = sorted.drop_last();
        assert(!span_le(sorted[sorted.len() - 1].span, e.span));
        assert forall|j: int| at <= j < rest.len() implies !span_le(
            (#[trigger] rest[j]).span,
            e.span,
        ) by {
            assert(!span_le(sorted[j].span, e.span));
        }
        inserted_at(rest, e, at);
        assert(rest.insert(at, e).push(sorted.last()) =~= sorted.insert(at, e));
    }
}

/// The entities in the order of their spans.
pub fn sort_by_span<'a>(items: &'a Vec<TopLevelEntity>) -> (r: Vec<&'a TopLevelEntity>)
    ensures
        views_of(r@) == in_source_order(items.deep_view()),
{
    let ghost all = items.deep_view();
    let mut out: Vec<&'a TopLevelEntity> = Vec::new();
    let mut i: usize = 0;
    proof {
        assert(views_of(out@) =~= in_source_order(all.take(0)));
    }
    while i < items.len()
        invariant
            all == items.deep_view(),
            i <= items@.len(),
            views_of(out@) == in_source_order(all.take(i as int)),
        decreases items@.len() - i,
    {
        let item = &items[i];
        let ghost sorted = views_of(out@);
        proof {
            assert(all.take(i + 1).drop_last() =~= all.take(i as int));
            assert(all.take(i + 1).last() == item.model());
        }
        let mut at: usize = out.len();
        while at > 0
            invariant
                sorted == views_of(out@),
                at <= out@.len(),
                forall|j: int|
                    at <= j < sorted.len() ==> !span_le(
                        (#[trigger] sorted[j]).span,
                        item.model().span,
                    ),
            ensures
                sorted == views_of(out@),
                at <= out@.len(),
                at > 0 ==> span_le(sorted[at - 1].span, item.model().span),
                forall|j: int|
                    at <= j < sorted.len() ==> !span_le(
                        (#[trigger] sorted[j]).span,
                        item.model().span,
                    ),
            decreases at,
        {
            proof {
                assert(sorted[at - 1] == out@[at - 1].model());
            }
            if comes_before(out[at - 1], item) {
                break;
            }
            at -= 1;
        }
        let ghost had = out@;
        out.insert(at, item);
        proof {
            inserted_at(sorted, item.model(), at as int);
            assert(out@ =~= had.insert(at as int, item));
            assert(views_of(out@) =~= sorted.insert(at as int, item.model()));
        }
        i += 1;
    }
    proof {
        assert(all.take(i as int) =~= all);
    }
    out
}

/// The entity declares a type.
pub open spec fn is_type(e: EntityView) -> bool {
    e.kind == EntityKind::TypedefDecl || e.kind == EntityKind::RecordDecl || e.kind
        == EntityKind::UnionDecl || e.kind == EntityKind::EnumDecl
}

/// The entities among `items` that declare types.
pub open spec fn types_among(items: Seq<EntityView>) -> Seq<(EntityView, Option<bool>)>
    decreases items.len(),
{
    if items.len() == 0 {
        seq![]
    } else {
        let rest = types_among(items.drop_last());
        if is_type(items.last()) {
            rest.push((items.last(), None))
        } else {
            rest
        }
    }
}

/// The entities of one kind among `items`.
pub open spec fn kind_among(items: Seq<EntityView>, kind: EntityKind) -> Seq<
    (EntityView, Option<bool>),
>
    decreases items.len(),
{
    if items.len() == 0 {
        seq![]
    } else {
        let rest = kind_among(items.drop_last(), kind);
        if items.last().kind == kind {
            rest.push((items.last(), None))
        } else {
            rest
        }
    }
}

/// Sorts and categorizes top-level items. Preprocessor directives are ignored.
pub fn extract_top_level_decls<'a>(items: &'a Vec<TopLevelEntity>) -> (r: ClangDeclarations<'a>)
    ensures
        r.imported@.len() == 0,
        node_views(r.app_types@) == types_among(in_source_order(items.deep_view())),
        node_views(r.app_globals@) == kind_among(
            in_source_order(items.deep_view()),
            EntityKind::VarDecl,
        ),
        node_views(r.app_functions@) == kind_among(
            in_source_order(items.deep_view()),
            EntityKind::FunctionDecl,
        ),
{
    let sorted = sort_by_span(items);
    let ghost all = views_of(sorted@);
    let mut app_types: Vec<ClangNode<'a>> = Vec::new();
    let mut app_globals: Vec<ClangNode<'a>> = Vec::new();
    let mut app_functions: Vec<ClangNode<'a>> = Vec::new();
    let mut i: usize = 0;
    proof {
        assert(node_views(app_types@) =~= types_among(all.take(0)));
        assert(node_views(app_globals@) =~= kind_among(all.take(0), EntityKind::VarDecl));
        assert(node_views(app_functions@) =~= kind_among(all.take(0), EntityKind::FunctionDecl));
    }
    while i < sorted.len()
        invariant
            all == views_of(sorted@),
            i <= sorted@.len(),
            node_views(app_types@) == types_among(all.take(i as int)),
            node_views(app_globals@) == kind_among(all.take(i as int), EntityKind::VarDecl),
            node_views(app_functions@) == kind_among(
                all.take(i as int),
                EntityKind::FunctionDecl,
            ),
        decreases sorted@.len() - i,
    {
        let item: &'a TopLevelEntity = sorted[i];
        let ghost types = node_views(app_types@);
        let ghost globals = node_views(app_globals@);
        let ghost functions = node_views(app_functions@);
        proof {
            assert(all.take(i + 1).drop_last() =~= all.take(i as int));
            assert(all.take(i + 1).last() == item.model());
        }
        match item.kind {
            EntityKind::TypedefDecl
            | EntityKind::RecordDecl
            | EntityKind::UnionDecl
            | EntityKind::EnumDecl => {
                app_types.push(ClangNode::new(item));
                proof {
                    assert(node_views(app_types@) =~= types.push((item.model(), None)));
                }
            },
            EntityKind::VarDecl => {
                app_globals.push(ClangNode::new(item));
                proof {
                    assert(node_views(app_globals@) =~= globals.push((item.model(), None)));
                }
            },
            EntityKind::FunctionDecl => {
                app_functions.push(ClangNode::new(item));
                proof {
                    assert(node_views(app_functions@) =~= functions.push((item.model(), None)));
                }
            },
            _ => {},
        }
        i += 1;
    }
    proof {
        assert(all.take(i as int) =~= all);
    }
    ClangDeclarations { imported: Vec::new(), app_types, app_globals, app_functions }
}

} // verus!
