//! What holds of the translation of a program, declaration by declaration.
use crate::build_project_spec::ProjectKind;
use crate::c_ast::rsm::{EntityKind, EntityView};
use crate::modular_translation_llm::clang::{
    ascending, in_source_order, inserted, kind_among, span_le, types_among,
};
use crate::modular_translation_llm::translation::{
    declaration_texts, dependencies_of, interface_inputs, kind_name, DeclarationRange,
    RustDeclarationView,
};
use crate::modular_translation_llm::utils::{text_at_range, RangeError, SourceRange};
use crate::text::utf8_text;
use vstd::prelude::*;

verus! {

/// The types are the typedefs, structs, unions and enums, all of them and in
/// order.
pub proof fn types_are_picked_out(items: Seq<EntityView>)
    ensures
        types_among(items) == items.filter(
            |e: EntityView|
                e.kind == EntityKind::TypedefDecl || e.kind == EntityKind::RecordDecl || e.kind
                    == EntityKind::UnionDecl || e.kind == EntityKind::EnumDecl,
        ).map_values(|e: EntityView| (e, None::<bool>)),
    decreases items.len(),
{
    reveal(Seq::filter);
    let p = |e: EntityView|
        e.kind == EntityKind::TypedefDecl || e.kind == EntityKind::RecordDecl || e.kind
            == EntityKind::UnionDecl || e.kind == EntityKind::EnumDecl;
    let g = |e: EntityView| (e, None::<bool>);
    if items.len() > 0 {
        types_are_picked_out(items.drop_last());
        let kept = items.drop_last().filter(p);
        let e = items.last();
        if p(e) {
            assert(kept.push(e).map_values(g) =~= kept.map_values(g).push(g(e)));
        }
    } else {
        assert(types_among(items) =~= items.filter(p).map_values(g));
    }
}

/// The entities of a kind are all those of that kind, in order.
pub proof fn kinds_are_picked_out(items: Seq<EntityView>, kind: EntityKind)
    ensures
        kind_among(items, kind) == items.filter(|e: EntityView| e.kind == kind).map_values(
            |e: EntityView| (e, None::<bool>),
        ),
        forall|i: int|
            0 <= i < items.len() && (#[trigger] items[i]).kind == kind ==> kind_among(
                items,
                kind,
            ).contains((items[i], None::<bool>)),
    decreases items.len(),
{
    reveal(Seq::filter);
    let p = |e: EntityView| e.kind == kind;
    let g = |e: EntityView| (e, None::<bool>);
    let out = kind_among(items, kind);
    if items.len() > 0 {
        let rest = items.drop_last();
        kinds_are_picked_out(rest, kind);
        let kept = rest.filter(p);
        let before = kind_among(rest, kind);
        let e = items.last();
        if p(e) {
            assert(kept.push(e).map_values(g) =~= kept.map_values(g).push(g(e)));
        }
        assert forall|i: int| 0 <= i < items.len() && (
        #[trigger] items[i]).kind == kind implies out.contains((items[i], None::<bool>)) by {
            if i < rest.len() {
                assert(rest[i] == items[i]);
                let k = choose|k: int|
                    0 <= k < before.len() && before[k] == (items[i], None::<bool>);
                assert(out[k] == (items[i], None::<bool>));
            } else {
                assert(out[out.len() - 1] == (items[i], None::<bool>));
            }
        }
    } else {
        assert(out =~= items.filter(p).map_values(g));
    }
}

/// Entities that already stand in the order of the source stay where they are.
pub proof fn source_order_is_kept(items: Seq<EntityView>)
    requires
        ascending(items),
    ensures
        in_source_order(items) == items,
    decreases items.len(),
{
    if items.len() > 0 {
        let rest = items.drop_last();
        let n = items.len() - 1;
        assert forall|i: int, j: int| 0 <= i < j < rest.len() implies span_le(
            (#[trigger] rest[i]).span,
            (#[trigger] rest[j]).span,
        ) by {
            assert(span_le(items[i].span, items[j].span));
        }
        source_order_is_kept(rest);
        if rest.len() > 0 {
            assert(span_le(items[n - 1].span, items[n].span));
        }
        assert(inserted(rest, items.last()) == rest.push(items.last()));
        assert(rest.push(items.last()) =~= items);
    }
}

/// An entity comes before another of the same file that starts behind it.
pub proof fn earlier_starts_come_first(a: EntityView, b: EntityView)
    requires
        a.span.file == b.span.file,
        a.span.start.offset < b.span.start.offset,
    ensures
        span_le(a.span, b.span),
        !span_le(b.span, a.span),
{
}

/// The texts of declarations are read one by one: they can be read if each can,
/// and are then those of the declarations, in order.
pub proof fn declarations_are_read_one_by_one(
    decls: Seq<DeclarationRange>,
    dir: Map<Seq<char>, Seq<u8>>,
)
    ensures
        declaration_texts(decls, dir) is Ok <==> forall|i: int|
            0 <= i < decls.len() ==> text_at_range((#[trigger] decls[i]).range, dir) is Ok,
        declaration_texts(decls, dir) matches Ok(texts) ==> texts.len() == decls.len() && forall|
            i: int,
        |
            0 <= i < decls.len() ==> text_at_range(decls[i].range, dir) == Ok::<
                Seq<char>,
                RangeError,
            >(#[trigger] texts[i]),
    decreases decls.len(),
{
    if decls.len() > 0 {
        let rest = decls.drop_last();
        let n = decls.len() - 1;
        declarations_are_read_one_by_one(rest, dir);
        if declaration_texts(decls, dir) is Ok {
            let texts = declaration_texts(decls, dir)->Ok_0;
            let before = declaration_texts(rest, dir)->Ok_0;
            assert forall|i: int| 0 <= i < decls.len() implies text_at_range(
                (#[trigger] decls[i]).range,
                dir,
            ) is Ok by {
                if i < n {
                    assert(text_at_range(rest[i].range, dir) is Ok);
                }
            }
            assert forall|i: int| 0 <= i < decls.len() implies text_at_range(
                decls[i].range,
                dir,
            ) == Ok::<Seq<char>, RangeError>(#[trigger] texts[i]) by {
                if i < n {
                    assert(texts[i] == before[i]);
                    assert(rest[i] == decls[i]);
                }
            }
        }
        if forall|i: int|
            0 <= i < decls.len() ==> text_at_range((#[trigger] decls[i]).range, dir) is Ok {
            assert forall|i: int| 0 <= i < rest.len() implies text_at_range(
                (#[trigger] rest[i]).range,
                dir,
            ) is Ok by {
                assert(text_at_range(decls[i].range, dir) is Ok);
            }
            assert(text_at_range(decls[n].range, dir) is Ok);
        }
    }
}

/// The text of a range goes from its first byte to the end of its last token.
pub proof fn ranges_include_their_last_token(
    range: SourceRange,
    dir: Map<Seq<char>, Seq<u8>>,
    head: Seq<u8>,
    text: Seq<u8>,
    tail: Seq<u8>,
)
    requires
        range.begin.spelling_loc is Some,
        range.end.spelling_loc is Some,
        range.begin.spelling_loc->0.file@ == range.end.spelling_loc->0.file@,
        dir.dom().contains(range.begin.spelling_loc->0.file@),
        dir[range.begin.spelling_loc->0.file@] == head + text + tail,
        range.begin.spelling_loc->0.offset == head.len(),
        range.end.spelling_loc->0.offset + range.end.spelling_loc->0.tok_len == head.len()
            + text.len(),
    ensures
        text_at_range(range, dir) == (match utf8_text(text) {
            Some(t) => Ok(t),
            None => Err(RangeError::NotUtf8),
        }),
{
    let bytes = head + text + tail;
    assert(bytes.subrange(head.len() as int, head.len() as int + text.len()) =~= text);
}

/// A range without a begin or an end, over two files, in a file that is not there or
/// past its end has no text.
pub proof fn misplaced_ranges_have_no_text(range: SourceRange, dir: Map<Seq<char>, Seq<u8>>)
    ensures
        range.begin.spelling_loc is None ==> text_at_range(range, dir) == Err::<
            Seq<char>,
            RangeError,
        >(RangeError::NoBegin),
        range.begin.spelling_loc is Some && range.end.spelling_loc is None ==> text_at_range(
            range,
            dir,
        ) == Err::<Seq<char>, RangeError>(RangeError::NoEnd),
        range.begin.spelling_loc matches Some(b) ==> (range.end.spelling_loc matches Some(e) ==> {
            &&& b.file@ != e.file@ ==> text_at_range(range, dir) == Err::<Seq<char>, RangeError>(
                RangeError::ManyFiles,
            )
            &&& b.file@ == e.file@ && !dir.dom().contains(b.file@) ==> text_at_range(range, dir)
                == Err::<Seq<char>, RangeError>(RangeError::NoFile)
            &&& b.file@ == e.file@ && dir.dom().contains(b.file@) && e.offset + e.tok_len
                > dir[b.file@].len() ==> text_at_range(range, dir) == Err::<
                Seq<char>,
                RangeError,
            >(RangeError::TooLong)
        }),
{
}

/// The interface is asked for with every function and then every global. A foreign
/// interface is enforced for the public functions of a library and for nothing else.
pub proof fn public_functions_keep_their_interface(
    function_texts: Seq<Seq<char>>,
    functions: Seq<DeclarationRange>,
    global_texts: Seq<Seq<char>>,
    kind: ProjectKind,
)
    ensures
        ({
            let inputs = interface_inputs(function_texts, functions, global_texts, kind);
            &&& inputs.len() == function_texts.len() + global_texts.len()
            &&& forall|i: int|
                0 <= i < function_texts.len() ==> (#[trigger] inputs[i]).source
                    == function_texts[i] && (inputs[i].enforce_ffi_interface <==> kind
                    == ProjectKind::Library && functions[i].visibility == Some(true))
            &&& forall|i: int|
                0 <= i < global_texts.len() ==> (#[trigger] inputs[function_texts.len()
                    + i]).source == global_texts[i] && !inputs[function_texts.len()
                    + i].enforce_ffi_interface
        }),
{
}

/// A package depends on what some declaration depends on, and on nothing else.
pub proof fn dependencies_are_those_of_the_declarations(
    translations: Seq<RustDeclarationView>,
    dep: Seq<char>,
)
    ensures
        dependencies_of(translations).contains(dep) <==> exists|i: int|
            0 <= i < translations.len() && (#[trigger] translations[i]).dependencies.contains(dep),
    decreases translations.len(),
{
    if translations.len() > 0 {
        let rest = translations.drop_last();
        let n = translations.len() - 1;
        dependencies_are_those_of_the_declarations(rest, dep);
        if dependencies_of(rest).contains(dep) {
            let i = choose|i: int|
                0 <= i < rest.len() && (#[trigger] rest[i]).dependencies.contains(dep);
            assert(translations[i].dependencies.contains(dep));
        }
        if translations[n].dependencies.contains(dep) {
            assert(translations.last().dependencies.to_set().contains(dep));
        }
        if exists|i: int|
            0 <= i < translations.len() && (#[trigger] translations[i]).dependencies.contains(
                dep,
            ) {
            let i = choose|i: int|
                0 <= i < translations.len() && (#[trigger] translations[i]).dependencies.contains(
                    dep,
                );
            if i < n {
                assert(rest[i].dependencies.contains(dep));
            }
        }
    }
}

/// Programs and libraries are named so.
pub proof fn kinds_are_named()
    ensures
        kind_name(ProjectKind::Executable) == "executable"@,
        kind_name(ProjectKind::Library) == "library"@,
{
}

} // verus!
