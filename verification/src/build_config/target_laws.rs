//! What the scanner records of targets.
use crate::build_config::handlers::{
    driving_variable, existing, expansion, first_mention, last_known, mentions, placeholder,
    source_variants, target_effect, target_files, target_keyword, variant_values, ScannedView,
};
use crate::build_config::lexer::{arg_text_of, known_refs_of, single_ref};
use crate::order::listing;
use crate::path::prefixed;
use crate::seqs::{filter_has, flat_map_has, flat_map_last};
use crate::text::{all_ident, find_from, find_from_facts, occurs_at};
use vstd::prelude::*;

verus! {

/// The files that one argument of a target stands for: a word of the command
/// stands for none, a reference to a source list for the files of the list, and
/// any other argument for the file of that name in the directory.
pub open spec fn argument_files(
    t: Seq<char>,
    lists: Map<Seq<char>, Seq<Seq<char>>>,
    rel_dir: Seq<char>,
) -> Seq<Seq<char>> {
    if t == "STATIC"@ || t == "SHARED"@ || t == "MODULE"@ || t == "INTERFACE"@ || t == "OBJECT"@
        || t == "EXCLUDE_FROM_ALL"@ {
        seq![]
    } else if single_ref(t) is Some && lists.dom().contains(single_ref(t)->0) {
        lists[single_ref(t)->0]
    } else {
        seq![prefixed(rel_dir, t)]
    }
}

/// The known variables that the files of the source lists of one argument refer
/// to, in order.
pub open spec fn argument_variables(
    t: Seq<char>,
    lists: Map<Seq<char>, Seq<Seq<char>>>,
    known: Set<Seq<char>>,
) -> Seq<Seq<char>> {
    if t == "STATIC"@ || t == "SHARED"@ || t == "MODULE"@ || t == "INTERFACE"@ || t == "OBJECT"@
        || t == "EXCLUDE_FROM_ALL"@ {
        seq![]
    } else if single_ref(t) is Some && lists.dom().contains(single_ref(t)->0) {
        lists[single_ref(t)->0].flat_map(|file: Seq<char>| known_refs_of(file, known))
    } else {
        seq![]
    }
}

/// Of the names of a target, those of files that exist are kept, all of them, in
/// order.
pub proof fn existing_files_are_kept(names: Seq<Seq<char>>, files: Set<Seq<char>>)
    ensures
        existing(names, files) == names.filter(|n: Seq<char>| files.contains(n)),
        forall|n: Seq<char>| #[trigger]
            existing(names, files).contains(n) <==> names.contains(n) && files.contains(n),
        forall|i: int|
            0 <= i < names.len() && files.contains(#[trigger] names[i]) ==> existing(
                names,
                files,
            ).contains(names[i]),
        (forall|i: int| 0 <= i < names.len() ==> files.contains(#[trigger] names[i])) ==> existing(
            names,
            files,
        ) == names,
    decreases names.len(),
{
    reveal(Seq::filter);
    let p = |n: Seq<char>| files.contains(n);
    if names.len() > 0 {
        let rest = names.drop_last();
        existing_files_are_kept(rest, files);
        assert(existing(rest, files) == rest.filter(p));
        assert(existing(names, files) == names.filter(p));
        if forall|i: int| 0 <= i < names.len() ==> files.contains(#[trigger] names[i]) {
            assert forall|i: int| 0 <= i < rest.len() implies files.contains(
                #[trigger] rest[i],
            ) by {
                assert(files.contains(names[i]));
            }
            assert(files.contains(names[names.len() - 1]));
            assert(rest.push(names.last()) =~= names);
        }
    } else {
        assert(existing(names, files) =~= names);
    }
    filter_has(names, p);
}

/// The files of a target are those that its arguments stand for, one argument
/// after the other.
pub proof fn target_files_are_those_of_the_arguments(
    args: Seq<Seq<char>>,
    lists: Map<Seq<char>, Seq<Seq<char>>>,
    rel_dir: Seq<char>,
)
    ensures
        target_files(args, lists, rel_dir) == args.flat_map(
            |a: Seq<char>| argument_files(arg_text_of(a), lists, rel_dir),
        ),
        forall|f: Seq<char>| #[trigger]
            target_files(args, lists, rel_dir).contains(f) <==> exists|i: int|
                0 <= i < args.len() && argument_files(
                    arg_text_of(#[trigger] args[i]),
                    lists,
                    rel_dir,
                ).contains(f),
    decreases args.len(),
{
    let on = |a: Seq<char>| argument_files(arg_text_of(a), lists, rel_dir);
    flat_map_last(args, on);
    if args.len() > 0 {
        let rest = args.drop_last();
        target_files_are_those_of_the_arguments(rest, lists, rel_dir);
        assert(target_files(rest, lists, rel_dir) == rest.flat_map(on));
        assert(target_files(args, lists, rel_dir) =~= rest.flat_map(on) + on(args.last()));
    } else {
        assert(target_files(args, lists, rel_dir) =~= args.flat_map(on));
    }
    flat_map_has(args, on);
    assert(target_files(args, lists, rel_dir) == args.flat_map(on));
    assert forall|f: Seq<char>| #[trigger]
        target_files(args, lists, rel_dir).contains(f) <==> exists|i: int|
            0 <= i < args.len() && argument_files(
                arg_text_of(#[trigger] args[i]),
                lists,
                rel_dir,
            ).contains(f) by {
        if exists|i: int| 0 <= i < args.len() && on(#[trigger] args[i]).contains(f) {
            let i = choose|i: int| 0 <= i < args.len() && on(#[trigger] args[i]).contains(f);
            assert(argument_files(arg_text_of(args[i]), lists, rel_dir).contains(f));
        }
        if exists|i: int|
            0 <= i < args.len() && argument_files(
                arg_text_of(#[trigger] args[i]),
                lists,
                rel_dir,
            ).contains(f) {
            let i = choose|i: int|
                0 <= i < args.len() && argument_files(
                    arg_text_of(#[trigger] args[i]),
                    lists,
                    rel_dir,
                ).contains(f);
            assert(on(args[i]).contains(f));
        }
    }
}

proof fn last_known_is_last(
    sources: Seq<Seq<char>>,
    known: Set<Seq<char>>,
    before: Seq<Seq<char>>,
)
    ensures
        ({
            let all = before + sources.flat_map(|file: Seq<char>| known_refs_of(file, known));
            last_known(
                sources,
                known,
                if before.len() > 0 {
                    Some(before.last())
                } else {
                    None
                },
            ) == (if all.len() > 0 {
                Some(all.last())
            } else {
                None
            })
        }),
    decreases sources.len(),
{
    let on = |file: Seq<char>| known_refs_of(file, known);
    flat_map_last(sources, on);
    if sources.len() > 0 {
        last_known_is_last(sources.drop_last(), known, before);
        let names = known_refs_of(sources.last(), known);
        assert(on(sources.last()) == names);
        let rest = sources.drop_last().flat_map(on);
        if names.len() > 0 {
            assert((before + (rest + names)).last() == names.last());
        } else {
            assert(rest + names =~= rest);
        }
    } else {
        assert(before + sources.flat_map(on) =~= before);
    }
}

/// The variable that drives a target is the last known one that the files of its
/// source lists refer to.
pub proof fn last_reference_drives(
    args: Seq<Seq<char>>,
    lists: Map<Seq<char>, Seq<Seq<char>>>,
    known: Set<Seq<char>>,
)
    ensures
        ({
            let all = args.flat_map(
                |a: Seq<char>| argument_variables(arg_text_of(a), lists, known),
            );
            driving_variable(args, lists, known) == (if all.len() > 0 {
                Some(all.last())
            } else {
                None
            })
        }),
    decreases args.len(),
{
    let on = |a: Seq<char>| argument_variables(arg_text_of(a), lists, known);
    flat_map_last(args, on);
    if args.len() > 0 {
        let rest = args.drop_last();
        last_reference_drives(rest, lists, known);
        let before = rest.flat_map(on);
        let t = arg_text_of(args.last());
        assert(on(args.last()) == argument_variables(t, lists, known));
        if !target_keyword(t) && expansion(t, lists) is Some {
            last_known_is_last(expansion(t, lists)->0, known, before);
        } else {
            assert(before + on(args.last()) =~= before);
        }
    }
}

/// The file that is varied is the first that refers to the variable.
pub proof fn first_reference_is_varied(files: Seq<Seq<char>>, name: Seq<char>)
    ensures
        ({
            let all = files.filter(|f: Seq<char>| mentions(f, name));
            first_mention(files, name) == (if all.len() > 0 {
                all[0]
            } else {
                seq![]
            })
        }),
    decreases files.len(),
{
    let p = |f: Seq<char>| mentions(f, name);
    if files.len() > 0 {
        first_reference_is_varied(files.skip(1), name);
        let head = seq![files[0]];
        assert(head + files.skip(1) =~= files);
        Seq::filter_distributes_over_add(head, files.skip(1), p);
        assert(head.filter(p) == (if p(files[0]) {
            head
        } else {
            seq![]
        })) by {
            reveal(Seq::filter);
            assert(head.drop_last() =~= seq![]);
            assert(head.drop_last().filter(p) =~= seq![]);
        }
        if !p(files[0]) {
            assert(Seq::<Seq<char>>::empty() + files.skip(1).filter(p) =~= files.skip(1).filter(
                p,
            ));
        }
    } else {
        reveal(Seq::filter);
    }
}

/// A pattern with the variable in it has one variant for each value that makes it
/// the name of a file: the value is an identifier, and the variant holds that one
/// file. The variants stand in the order of their values, each once.
pub proof fn variants_name_existing_files(
    before: Seq<char>,
    var: Seq<char>,
    after: Seq<char>,
    files: Set<Seq<char>>,
)
    requires
        files.finite(),
        forall|i: int|
            0 <= i < before.len() ==> !#[trigger] occurs_at(
                before + ("${"@ + var + "}"@) + after,
                "${"@ + var + "}"@,
                i,
            ),
    ensures
        ({
            let pattern = before + ("${"@ + var + "}"@) + after;
            let variants = source_variants(pattern, var, files);
            &&& forall|v: Seq<char>|
                v.len() > 0 && all_ident(v) && files.contains(#[trigger] (before + v + after))
                    ==> exists|i: int|
                    0 <= i < variants.len() && (#[trigger] variants[i]).value == v
            &&& forall|i: int|
                0 <= i < variants.len() ==> (#[trigger] variants[i]).value.len() > 0 && all_ident(
                    variants[i].value,
                ) && variants[i].files == seq![before + variants[i].value + after]
                    && files.contains(before + variants[i].value + after)
            &&& forall|i: int, j: int|
                0 <= i < j < variants.len() ==> crate::order::lex_lt(
                    (#[trigger] variants[i]).value,
                    (#[trigger] variants[j]).value,
                )
        }),
{
    let mark = "${"@ + var + "}"@;
    let pattern = before + mark + after;
    let values = variant_values(pattern, var, files);
    let k = before.len() as int;
    find_from_facts(pattern, mark, 0);
    assert(pattern.subrange(k, k + mark.len()) =~= mark);
    assert(occurs_at(pattern, mark, k));
    assert(find_from(pattern, placeholder(var), 0) == Some(k)) by {
        match find_from(pattern, mark, 0) {
            Some(j) => {
                if j < k {
                    assert(!occurs_at(before + mark + after, mark, j));
                }
            },
            None => {},
        }
    }
    assert(pattern.take(k) =~= before);
    assert(pattern.skip(k + mark.len()) =~= after);
    values_are_finite(before, after, files, values);
    crate::order::finite_sets_have_a_listing(values);
    let list = listing(values);
    let variants = source_variants(pattern, var, files);
    assert forall|v: Seq<char>|
        v.len() > 0 && all_ident(v) && files.contains(#[trigger] (before + v + after)) implies
        exists|i: int| 0 <= i < variants.len() && (#[trigger] variants[i]).value == v by {
        assert(values.contains(v));
        assert(list.contains(v));
        let i = choose|i: int| 0 <= i < list.len() && list[i] == v;
        assert(variants[i].value == v);
    }
    assert forall|i: int| 0 <= i < variants.len() implies (#[trigger] variants[i]).value.len() > 0
        && all_ident(variants[i].value) && variants[i].files == seq![
        before + variants[i].value + after,
    ] && files.contains(before + variants[i].value + after) by {
        assert(list.contains(list[i]));
        assert(values.contains(list[i]));
    }
}

proof fn values_are_finite(
    before: Seq<char>,
    after: Seq<char>,
    files: Set<Seq<char>>,
    values: Set<Seq<char>>,
)
    requires
        files.finite(),
        forall|v: Seq<char>| #[trigger] values.contains(v) ==> files.contains(before + v + after),
    ensures
        values.finite(),
{
    let cut = |f: Seq<char>| f.subrange(before.len() as int, f.len() - after.len());
    let all = files.map(cut);
    files.lemma_map_finite(cut);
    assert forall|v: Seq<char>| #[trigger] values.contains(v) implies all.contains(v) by {
        let f = before + v + after;
        assert(cut(f) =~= v);
        assert(files.contains(f) && cut(f) == v);
    }
    assert(values.subset_of(all));
    vstd::set_lib::lemma_set_subset_finite(all, values);
}

/// A gated target that no source list varies is recorded with its name, the gating
/// variable, and every file of it that exists, in order; without a gating variable,
/// or with no file that exists, it is not recorded. A target that a source list
/// varies is recorded as a selection instead. Nothing else changes.
pub proof fn targets_keep_their_existing_files(
    args: Seq<Seq<char>>,
    known: Set<Seq<char>>,
    lists: Map<Seq<char>, Seq<Seq<char>>>,
    rel_dir: Seq<char>,
    files: Set<Seq<char>>,
    gate: Option<Seq<char>>,
    out: ScannedView,
)
    requires
        args.len() > 0,
    ensures
        ({
            let after = target_effect(args, known, lists, rel_dir, files, gate, out);
            let named = args.skip(1).flat_map(
                |a: Seq<char>| argument_files(arg_text_of(a), lists, rel_dir),
            );
            let there = named.filter(|n: Seq<char>| files.contains(n));
            let drivers = args.skip(1).flat_map(
                |a: Seq<char>| argument_variables(arg_text_of(a), lists, known),
            );
            let referring = named.filter(|n: Seq<char>| mentions(n, drivers.last()));
            let pattern = if referring.len() > 0 {
                referring[0]
            } else {
                seq![]
            };
            let variants = source_variants(pattern, drivers.last(), files);
            let varied = drivers.len() > 0 && variants.len() > 0;
            let old_targets = out.conditional_targets;
            let new_targets = after.conditional_targets;
            let old_selections = out.source_selections;
            let new_selections = after.source_selections;
            &&& after.defines == out.defines
            &&& after.subdir_selections == out.subdir_selections
            &&& after.var_defaults == out.var_defaults
            &&& varied ==> {
                &&& new_targets == old_targets
                &&& new_selections.len() == old_selections.len() + 1
                &&& new_selections.drop_last() == old_selections
                &&& new_selections.last().target == arg_text_of(args[0])
                &&& new_selections.last().driving_var == drivers.last()
                &&& new_selections.last().variants == variants
            }
            &&& !varied ==> new_selections == old_selections
            &&& !varied && gate is Some && there.len() > 0 ==> {
                &&& new_targets.len() == old_targets.len() + 1
                &&& new_targets.drop_last() == old_targets
                &&& new_targets.last().target == arg_text_of(args[0])
                &&& new_targets.last().gate_var == gate->0
                &&& new_targets.last().files == there
                &&& forall|i: int|
                    0 <= i < named.len() && files.contains(#[trigger] named[i])
                        ==> new_targets.last().files.contains(named[i])
            }
            &&& !varied && (gate is None || there.len() == 0) ==> new_targets == old_targets
        }),
{
    let rest = args.skip(1);
    let named = target_files(rest, lists, rel_dir);
    target_files_are_those_of_the_arguments(rest, lists, rel_dir);
    last_reference_drives(rest, lists, known);
    existing_files_are_kept(named, files);
    let drivers = rest.flat_map(|a: Seq<char>| argument_variables(arg_text_of(a), lists, known));
    first_reference_is_varied(named, drivers.last());
    let after = target_effect(args, known, lists, rel_dir, files, gate, out);
    assert(after.source_selections.len() > out.source_selections.len()
        ==> after.source_selections.drop_last() =~= out.source_selections);
    assert(after.conditional_targets.len() > out.conditional_targets.len()
        ==> after.conditional_targets.drop_last() =~= out.conditional_targets);
}

} // verus!
