//! What is kept of the syntax tree of an entity.
use crate::c_ast::rsm::EntityKind;
use vstd::prelude::*;

verus! {

/// The part of the syntax tree of an entity that later tools read.
#[derive(Debug, PartialEq, Eq)]
#[allow(inconsistent_fields)]
pub enum ClangAST {
    TypedefDecl { name: String },
    FunctionDecl { name: String, storage_class: Option<String> },
    RecordDecl { name: Option<String>, tag_used: Option<String> },
    EnumDecl { name: Option<String> },
    VarDecl { name: String, storage_class: Option<String> },
    Other { kind: Option<String> },
}

#[verifier::ext_equal]
#[allow(inconsistent_fields)]
pub ghost enum ClangAstView {
    TypedefDecl { name: Seq<char> },
    FunctionDecl { name: Seq<char>, storage_class: Option<Seq<char>> },
    RecordDecl { name: Option<Seq<char>>, tag_used: Option<Seq<char>> },
    EnumDecl { name: Option<Seq<char>> },
    VarDecl { name: Seq<char>, storage_class: Option<Seq<char>> },
    Other { kind: Option<Seq<char>> },
}

impl DeepView for ClangAST {
    type V = ClangAstView;

    open spec fn deep_view(&self) -> ClangAstView {
        match self {
            ClangAST::TypedefDecl { name } => ClangAstView::TypedefDecl { name: name@ },
            ClangAST::FunctionDecl { name, storage_class } => ClangAstView::FunctionDecl {
                name: name@,
                storage_class: storage_class.deep_view(),
            },
            ClangAST::RecordDecl { name, tag_used } => ClangAstView::RecordDecl {
                name: name.deep_view(),
                tag_used: tag_used.deep_view(),
            },
            ClangAST::EnumDecl { name } => ClangAstView::EnumDecl { name: name.deep_view() },
            ClangAST::VarDecl { name, storage_class } => ClangAstView::VarDecl {
                name: name@,
                storage_class: storage_class.deep_view(),
            },
            ClangAST::Other { kind } => ClangAstView::Other { kind: kind.deep_view() },
        }
    }
}

/// The name, or the empty text for an entity without one.
pub open spec fn name_or_empty(name: Option<Seq<char>>) -> Seq<char> {
    match name {
        Some(n) => n,
        None => seq![],
    }
}

/// The tree of an entity of this kind and name; preprocessor directives have
/// none.
pub open spec fn ast_of(kind: EntityKind, name: Option<Seq<char>>) -> Option<ClangAstView> {
    match kind {
        EntityKind::TypedefDecl => Some(ClangAstView::TypedefDecl { name: name_or_empty(name) }),
        EntityKind::FunctionDecl => Some(
            ClangAstView::FunctionDecl { name: name_or_empty(name), storage_class: None },
        ),
        EntityKind::RecordDecl | EntityKind::UnionDecl => Some(
            ClangAstView::RecordDecl { name, tag_used: None },
        ),
        EntityKind::EnumDecl => Some(ClangAstView::EnumDecl { name }),
        EntityKind::VarDecl => Some(
            ClangAstView::VarDecl { name: name_or_empty(name), storage_class: None },
        ),
        EntityKind::PreprocessingDirective => None,
        EntityKind::MacroDefinition => None,
        EntityKind::InclusionDirective => None,
    }
}

fn owned_or_empty(name: &Option<String>) -> (r: String)
    ensures
        r@ == name_or_empty(name.deep_view()),
{
    match name {
        Some(n) => n.as_str().to_owned(),
        None => {
            let empty = String::new();
            proof {
                assert(empty@ =~= seq![]);
            }
            empty
        },
    }
}

fn copy_name(name: &Option<String>) -> (r: Option<String>)
    ensures
        r.deep_view() == name.deep_view(),
{
    match name {
        Some(n) => Some(n.as_str().to_owned()),
        None => None,
    }
}

/// The tree of an entity of this kind and name.
pub fn ast_from_entity(kind: EntityKind, name: &Option<String>) -> (r: Option<ClangAST>)
    ensures
        r.deep_view() == ast_of(kind, name.deep_view()),
{
    match kind {
        EntityKind::TypedefDecl => Some(ClangAST::TypedefDecl { name: owned_or_empty(name) }),
        EntityKind::FunctionDecl => Some(
            ClangAST::FunctionDecl { name: owned_or_empty(name), storage_class: None },
        ),
        EntityKind::RecordDecl | EntityKind::UnionDecl => Some(
            ClangAST::RecordDecl { name: copy_name(name), tag_used: None },
        ),
        EntityKind::EnumDecl => Some(ClangAST::EnumDecl { name: copy_name(name) }),
        EntityKind::VarDecl => Some(
            ClangAST::VarDecl { name: owned_or_empty(name), storage_class: None },
        ),
        EntityKind::PreprocessingDirective => None,
        EntityKind::MacroDefinition => None,
        EntityKind::InclusionDirective => None,
    }
}

} // verus!
