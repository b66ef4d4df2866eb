//! Annotation metadata of the entities.
use crate::c_ast::ast::{ClangAST, ClangAstView};
use crate::c_ast::rsm::{EntityView, TopLevelEntity};
use crate::c_ast::utils::{eq_ignore_ascii_case, header_file, is_header_file, same_but_case};
use crate::names::NameSet;
use crate::text::opt_view;
use vstd::prelude::*;

verus! {

/// Annotation metadata attached to extracted top-level entities.
#[derive(Debug, Clone, Copy, PartialEq, Eq, Structural)]
pub struct EntityAnnotations {
    pub public: bool,
}

impl Default for EntityAnnotations {
    fn default() -> (r: EntityAnnotations)
        ensures
            !r.public,
    {
        EntityAnnotations { public: false }
    }
}

/// The name of a function.
pub open spec fn function_named(e: EntityView) -> Option<Seq<char>> {
    match e.ast {
        Some(ClangAstView::FunctionDecl { name, .. }) => if name.len() > 0 {
            Some(name)
        } else {
            None
        },
        _ => None,
    }
}

/// The function is declared with the storage class `static`.
pub open spec fn static_function(e: EntityView) -> bool {
    match e.ast {
        Some(ClangAstView::FunctionDecl { storage_class: Some(class), .. }) => same_but_case(
            class,
            "static"@,
        ),
        _ => false,
    }
}

/// The names of the functions that are declared in headers.
pub open spec fn declared_in_headers(sigs: Seq<EntityView>) -> Set<Seq<char>>
    decreases sigs.len(),
{
    if sigs.len() == 0 {
        Set::empty()
    } else {
        let rest = declared_in_headers(sigs.drop_last());
        match function_named(sigs.last()) {
            Some(name) => if header_file(sigs.last().span.file) {
                rest.insert(name)
            } else {
                rest
            },
            None => rest,
        }
    }
}

/// A function definition as it is annotated: public if it is not static and a
/// header declares its name.
pub open spec fn annotated(def: EntityView, declared: Set<Seq<char>>) -> EntityView {
    match function_named(def) {
        Some(name) => if !static_function(def) && declared.contains(name) {
            EntityView { annotations: EntityAnnotations { public: true }, ..def }
        } else {
            def
        },
        None => def,
    }
}

fn function_name<'a>(entity: &'a TopLevelEntity) -> (r: Option<&'a str>)
    ensures
        opt_view(r) == function_named(entity.deep_view()),
{
    match &entity.ast {
        Some(ClangAST::FunctionDecl { name, .. }) => if name.as_str().is_empty() {
            None
        } else {
            Some(name.as_str())
        },
        _ => None,
    }
}

fn is_static_function(entity: &TopLevelEntity) -> (r: bool)
    ensures
        r == static_function(entity.deep_view()),
{
    match &entity.ast {
        Some(ClangAST::FunctionDecl { storage_class, .. }) => match storage_class {
            Some(class) => eq_ignore_ascii_case(class.as_str(), "static"),
            None => false,
        },
        _ => false,
    }
}

/// Marks function definitions as public when:
/// - Their name matches a declaration in a header
/// - They are not static
pub fn annotate_visibility(
    app_functions: &mut Vec<TopLevelEntity>,
    app_func_sigs: &Vec<TopLevelEntity>,
)
    ensures
        final(app_functions).deep_view() == old(app_functions).deep_view().map_values(
            |def: EntityView|
                annotated(def, declared_in_headers(app_func_sigs.deep_view())),
        ),
{
    let ghost sigs = app_func_sigs.deep_view();
    let mut declared = NameSet::new();
    let mut i: usize = 0;
    while i < app_func_sigs.len()
        invariant
            sigs == app_func_sigs.deep_view(),
            i <= app_func_sigs@.len(),
            declared@ == declared_in_headers(sigs.take(i as int)),
        decreases app_func_sigs@.len() - i,
    {
        proof {
            assert(sigs.take(i + 1).drop_last() =~= sigs.take(i as int));
            assert(sigs.take(i + 1).last() == app_func_sigs@[i as int].model());
        }
        if is_header_file(app_func_sigs[i].span.file.as_str()) {
            match function_name(&app_func_sigs[i]) {
                Some(name) => {
                    let _ = declared.insert(name);
                },
                None => {},
            }
        }
        i += 1;
    }
    proof {
        assert(sigs.take(i as int) =~= sigs);
    }
    let ghost start = app_functions.deep_view();
    let ghost names = declared_in_headers(sigs);
    let mut k: usize = 0;
    while k < app_functions.len()
        invariant
            declared@ == names,
            start.len() == app_functions@.len(),
            k <= app_functions@.len(),
            forall|j: int|
                0 <= j < app_functions@.len() ==> (#[trigger] app_functions@[j]).model() == if j
                    < k {
                    annotated(start[j], names)
                } else {
                    start[j]
                },
        decreases app_functions@.len() - k,
    {
        let public = if is_static_function(&app_functions[k]) {
            false
        } else {
            match function_name(&app_functions[k]) {
                Some(name) => declared.contains(name),
                None => false,
            }
        };
        proof {
            assert(app_functions@[k as int].model() == start[k as int]);
        }
        if public {
            let ghost before = app_functions@;
            app_functions[k].annotations.public = true;
            proof {
                assert(app_functions@[k as int].model() =~= annotated(start[k as int], names));
                assert forall|j: int| 0 <= j < app_functions@.len() implies (
                #[trigger] app_functions@[j]).model() == if j < k + 1 {
                    annotated(start[j], names)
                } else {
                    start[j]
                } by {
                    if j != k {
                        assert(app_functions@[j] == before[j]);
                    }
                }
            }
        }
        k += 1;
    }
    proof {
        assert(app_functions.deep_view() =~= start.map_values(
            |def: EntityView| annotated(def, names),
        ));
    }
}

/// Annotating twice is annotating once.
pub proof fn annotating_settles(def: EntityView, declared: Set<Seq<char>>)
    ensures
        annotated(annotated(def, declared), declared) == annotated(def, declared),
{
}

/// A static function never becomes public.
pub proof fn static_functions_stay_private(def: EntityView, declared: Set<Seq<char>>)
    requires
        static_function(def),
    ensures
        annotated(def, declared) == def,
{
}

} // verus!
