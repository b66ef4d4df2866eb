//! What the scanner records of defines, options and variables.
use crate::build_config::handlers::{
    all_rewritten, compile_definition, compile_definitions, composed_define, flag_definition,
    flag_definitions, has_gated_flag, if_gate, in_quotes, mentions, option_default, option_effect,
    plain_definition, plain_definitions, set_effect, with_target_flag, with_target_flags,
    ScannedView, Scope,
};
use crate::build_config::ir::{DefineKindView, DefineMappingView};
use crate::build_config::lexer::{
    arg_text_of, byte_chars_of_ascii, known_names, known_refs_of, ref_at, ref_end, ref_name,
    refs_from, single_ref, template_from, template_of, var_refs,
};
use crate::path::prefixed;
use crate::text::{all_ident, ident_char, ident_end, ident_end_bound, trimmed, words_from};
use crate::text_laws::{
    blank, cutting_finds_the_first, prefix_is_taken_off, suffix_is_taken_off, tight,
    tight_is_trimmed, trimming_takes_blanks_off,
};
use vstd::prelude::*;

verus! {

/// A reference to the variable.
pub open spec fn reference(var: Seq<char>) -> Seq<char> {
    "${"@ + var + "}"@
}

/// The name of a variable.
pub open spec fn variable_name(var: Seq<char>) -> bool {
    var.len() > 0 && all_ident(var)
}

/// The name of a define as it can stand in an argument: no quote in front, no
/// `-D`, no `=` and no blank around it.
pub open spec fn define_name(name: Seq<char>) -> bool {
    name.len() > 0 && name[0] != '"' && name[0] != '-' && !name.contains('=') && tight(name)
}

// ---------------------------------------------------------------------------
// References
// ---------------------------------------------------------------------------

/// A text is a single reference if it is `${NAME}` with blanks around it or not.
pub proof fn single_references_are_seen(before: Seq<char>, var: Seq<char>, after: Seq<char>)
    requires
        blank(before),
        blank(after),
        variable_name(var),
    ensures
        single_ref(before + reference(var) + after) == Some(var),
        single_ref(reference(var)) == Some(var),
        forall|s: Seq<char>| #[trigger]
            single_ref(s) matches Some(n) ==> trimmed(s) == reference(n) && variable_name(n),
{
    reveal_strlit("${");
    reveal_strlit("}");
    let t = reference(var);
    assert(t[0] == '$' && t[1] == '{' && t.last() == '}');
    trimming_takes_blanks_off(before, t, after);
    tight_is_trimmed(t);
    assert(t.subrange(2, t.len() - 1) =~= var);
    assert forall|s: Seq<char>| #[trigger] single_ref(s) is Some implies trimmed(s) == reference(
        single_ref(s)->0,
    ) && variable_name(single_ref(s)->0) by {
        assert(trimmed(s) =~= reference(single_ref(s)->0));
    }
}

proof fn ident_end_same(s: Seq<char>, t: Seq<char>, i: int, j: int)
    requires
        0 <= i <= s.len(),
        0 <= j <= t.len(),
        s.skip(i) == t.skip(j),
    ensures
        ident_end(s, i) - i == ident_end(t, j) - j,
    decreases s.len() - i,
{
    assert(s.skip(i).len() == s.len() - i && t.skip(j).len() == t.len() - j);
    if i < s.len() {
        assert(s[i] == s.skip(i)[0] && t[j] == t.skip(j)[0]);
        assert(s.skip(i + 1) =~= s.skip(i).skip(1));
        assert(t.skip(j + 1) =~= t.skip(j).skip(1));
        ident_end_same(s, t, i + 1, j + 1);
    }
}

proof fn ref_same(s: Seq<char>, t: Seq<char>, i: int, j: int)
    requires
        0 <= i <= s.len(),
        0 <= j <= t.len(),
        s.skip(i) == t.skip(j),
    ensures
        ref_at(s, i) == ref_at(t, j),
        ref_at(s, i) ==> {
            &&& ref_end(s, i) - i == ref_end(t, j) - j
            &&& ref_name(s, i) == ref_name(t, j)
            &&& i < ref_end(s, i) <= s.len()
            &&& j < ref_end(t, j) <= t.len()
            &&& s.skip(ref_end(s, i)) == t.skip(ref_end(t, j))
            &&& s.subrange(i, ref_end(s, i)) == t.subrange(j, ref_end(t, j))
        },
{
    let u = s.skip(i);
    assert(u == t.skip(j));
    if u.len() >= 2 {
        assert(s[i] == u[0] && t[j] == u[0] && s[i + 1] == u[1] && t[j + 1] == u[1]);
        assert(s.skip(i + 2) =~= u.skip(2));
        assert(t.skip(j + 2) =~= u.skip(2));
        ident_end_same(s, t, i + 2, j + 2);
        ident_end_bound(s, i + 2);
        ident_end_bound(t, j + 2);
        let e = ident_end(s, i + 2);
        let f = ident_end(t, j + 2);
        if e < s.len() {
            assert(s[e] == u[e - i] && t[f] == u[f - j]);
            assert(s.subrange(i + 2, e) =~= u.subrange(2, e - i));
            assert(t.subrange(j + 2, f) =~= u.subrange(2, e - i));
            assert(s.skip(e + 1) =~= u.skip(e + 1 - i));
            assert(t.skip(f + 1) =~= u.skip(e + 1 - i));
            assert(s.subrange(i, e + 1) =~= u.subrange(0, e + 1 - i));
            assert(t.subrange(j, f + 1) =~= u.subrange(0, e + 1 - i));
        }
    }
}

spec fn names_of(refs: Seq<(usize, usize, Seq<char>)>) -> Seq<Seq<char>> {
    refs.map_values(|r: (usize, usize, Seq<char>)| r.2)
}

proof fn names_of_sum(r: (usize, usize, Seq<char>), rest: Seq<(usize, usize, Seq<char>)>)
    ensures
        names_of(seq![r] + rest) == seq![r.2] + names_of(rest),
        names_of(seq![]) == Seq::<Seq<char>>::empty(),
{
    assert(names_of(seq![r] + rest) =~= seq![r.2] + names_of(rest));
    assert(names_of(seq![]) =~= seq![]);
}

proof fn refs_same(s: Seq<char>, t: Seq<char>, i: int, j: int)
    requires
        0 <= i <= s.len(),
        0 <= j <= t.len(),
        s.skip(i) == t.skip(j),
    ensures
        names_of(refs_from(s, i)) == names_of(refs_from(t, j)),
    decreases s.len() - i,
{
    assert(s.skip(i).len() == s.len() - i && t.skip(j).len() == t.len() - j);
    if i + 1 < s.len() {
        ref_same(s, t, i, j);
        if ref_at(s, i) {
            let e = ref_end(s, i);
            let f = ref_end(t, j);
            refs_same(s, t, e, f);
            names_of_sum((i as usize, e as usize, ref_name(s, i)), refs_from(s, e));
            names_of_sum((j as usize, f as usize, ref_name(t, j)), refs_from(t, f));
        } else {
            assert(s.skip(i + 1) =~= s.skip(i).skip(1));
            assert(t.skip(j + 1) =~= t.skip(j).skip(1));
            refs_same(s, t, i + 1, j + 1);
        }
    }
}

proof fn known_names_by_name(
    a: Seq<(usize, usize, Seq<char>)>,
    known: Set<Seq<char>>,
)
    ensures
        known_names(a, known) == names_of(a).filter(|n: Seq<char>| known.contains(n)),
    decreases a.len(),
{
    reveal(Seq::filter);
    let p = |n: Seq<char>| known.contains(n);
    if a.len() > 0 {
        known_names_by_name(a.drop_last(), known);
        assert(names_of(a).drop_last() =~= names_of(a.drop_last()));
    } else {
        assert(names_of(a) =~= seq![]);
    }
}

proof fn plain_start(s: Seq<char>, i: int, k: int)
    requires
        0 <= i <= k <= s.len(),
        forall|j: int| i <= j < k ==> #[trigger] s[j] != '$',
    ensures
        refs_from(s, i) == refs_from(s, k),
        forall|known: Set<Seq<char>>| #[trigger]
            template_from(s, i, known) == s.subrange(i, k) + template_from(s, k, known),
    decreases k - i,
{
    if i < k {
        plain_start(s, i + 1, k);
        assert(s[i] != '$');
        assert forall|known: Set<Seq<char>>| #[trigger] template_from(s, i, known) == s.subrange(
            i,
            k,
        ) + template_from(s, k, known) by {
            assert(template_from(s, i + 1, known) == s.subrange(i + 1, k) + template_from(
                s,
                k,
                known,
            ));
            assert(seq![s[i]] + s.subrange(i + 1, k) =~= s.subrange(i, k));
            assert(template_from(s, i, known) =~= s.subrange(i, k) + template_from(s, k, known));
        }
    } else {
        assert forall|known: Set<Seq<char>>| #[trigger] template_from(s, i, known) == s.subrange(
            i,
            k,
        ) + template_from(s, k, known) by {
            assert(s.subrange(i, k) + template_from(s, k, known) =~= template_from(s, k, known));
        }
    }
}

proof fn template_same(s: Seq<char>, t: Seq<char>, i: int, j: int, known: Set<Seq<char>>)
    requires
        0 <= i <= s.len(),
        0 <= j <= t.len(),
        s.skip(i) == t.skip(j),
    ensures
        template_from(s, i, known) == template_from(t, j, known),
    decreases s.len() - i,
{
    assert(s.skip(i).len() == s.len() - i && t.skip(j).len() == t.len() - j);
    if i < s.len() {
        ref_same(s, t, i, j);
        if ref_at(s, i) {
            template_same(s, t, ref_end(s, i), ref_end(t, j), known);
        } else {
            assert(s[i] == s.skip(i)[0] && t[j] == t.skip(j)[0]);
            assert(s.skip(i + 1) =~= s.skip(i).skip(1));
            assert(t.skip(j + 1) =~= t.skip(j).skip(1));
            template_same(s, t, i + 1, j + 1, known);
        }
    }
}

proof fn ident_end_is(s: Seq<char>, i: int, k: int)
    requires
        0 <= i <= k < s.len(),
        forall|j: int| i <= j < k ==> ident_char(#[trigger] s[j]),
        !ident_char(s[k]),
    ensures
        ident_end(s, i) == k,
    decreases k - i,
{
    if i < k {
        assert(ident_char(s[i]));
        ident_end_is(s, i + 1, k);
    }
}

proof fn reference_stands(before: Seq<char>, var: Seq<char>, after: Seq<char>)
    requires
        variable_name(var),
    ensures
        ({
            let s = before + reference(var) + after;
            let k = before.len() as int;
            &&& ref_at(s, k)
            &&& ref_end(s, k) == k + reference(var).len()
            &&& ref_name(s, k) == var
            &&& s.skip(ref_end(s, k)) == after
            &&& s.subrange(k, ref_end(s, k)) == reference(var)
            &&& s.take(k) == before
        }),
{
    reveal_strlit("${");
    reveal_strlit("}");
    let s = before + reference(var) + after;
    let k = before.len() as int;
    let e = k + 2 + var.len();
    assert(s[k] == '$' && s[k + 1] == '{' && s[e] == '}');
    assert forall|j: int| k + 2 <= j < e implies ident_char(#[trigger] s[j]) by {
        assert(s[j] == var[j - k - 2]);
    }
    ident_end_is(s, k + 2, e);
    assert(s.subrange(k + 2, e) =~= var);
    assert(s.skip(e + 1) =~= after);
    assert(s.subrange(k, e + 1) =~= reference(var));
    assert(s.take(k) =~= before);
}

/// The known variables that a text refers to stand in the order of the
/// references, one for each; a text without a dollar sign refers to none.
pub proof fn references_are_found_in_order(
    before: Seq<char>,
    var: Seq<char>,
    after: Seq<char>,
    known: Set<Seq<char>>,
)
    requires
        !before.contains('$'),
        variable_name(var),
        vstd::utf8::is_ascii_chars(before),
        vstd::utf8::is_ascii_chars(after),
    ensures
        known_refs_of(before + reference(var) + after, known) == (if known.contains(var) {
            seq![var]
        } else {
            seq![]
        }) + known_refs_of(after, known),
        known_refs_of(before, known) == Seq::<Seq<char>>::empty(),
{
    reveal_strlit("${");
    reveal_strlit("}");
    let s = before + reference(var) + after;
    let k = before.len() as int;
    let e = k + reference(var).len();
    assert(vstd::utf8::is_ascii_chars(s)) by {
        assert forall|i: int| 0 <= i < s.len() implies 0 <= #[trigger] s[i] as nat && (s[i] as nat)
            < 128 by {
            if i < k {
                assert(s[i] == before[i]);
            } else if i < e {
                let j = i - k;
                if 2 <= j < 2 + var.len() {
                    assert(s[i] == var[j - 2]);
                    assert(ident_char(var[j - 2]));
                }
            } else {
                assert(s[i] == after[i - e]);
            }
        }
    }
    byte_chars_of_ascii(s);
    byte_chars_of_ascii(after);
    byte_chars_of_ascii(before);
    assert forall|j: int| 0 <= j < k implies #[trigger] s[j] != '$' by {
        assert(before.contains(before[j]));
    }
    assert forall|j: int| 0 <= j < k implies #[trigger] before[j] != '$' by {
        assert(before.contains(before[j]));
    }
    plain_start(s, 0, k);
    plain_start(before, 0, k);
    assert(refs_from(before, k) =~= seq![]);
    reference_stands(before, var, after);
    assert(after.skip(0) =~= after);
    refs_same(s, after, e, 0);
    names_of_sum((k as usize, e as usize, var), refs_from(s, e));
    let p = |n: Seq<char>| known.contains(n);
    known_names_by_name(var_refs(s), known);
    known_names_by_name(var_refs(after), known);
    known_names_by_name(var_refs(before), known);
    Seq::filter_distributes_over_add(seq![var], names_of(refs_from(after, 0)), p);
    assert(seq![var].filter(p) == (if known.contains(var) {
        seq![var]
    } else {
        seq![]
    })) by {
        reveal(Seq::filter);
        assert(seq![var].drop_last() =~= seq![]);
        assert(seq![var].drop_last().filter(p) =~= seq![]);
    }
    assert(names_of(seq![]) =~= seq![]);
    assert(Seq::<Seq<char>>::empty().filter(p) =~= seq![]) by {
        reveal(Seq::filter);
    }
}

/// A template holds `{NAME}` for each reference to a known variable and the rest
/// of the text as it stands.
pub proof fn templates_mark_known_references(
    before: Seq<char>,
    var: Seq<char>,
    after: Seq<char>,
    known: Set<Seq<char>>,
)
    requires
        !before.contains('$'),
        variable_name(var),
    ensures
        template_of(before + reference(var) + after, known) == before + (if known.contains(var) {
            "{"@ + var + "}"@
        } else {
            reference(var)
        }) + template_of(after, known),
        template_of(before, known) == before,
{
    reveal_strlit("{");
    reveal_strlit("}");
    let s = before + reference(var) + after;
    let k = before.len() as int;
    assert forall|j: int| 0 <= j < k implies #[trigger] s[j] != '$' by {
        assert(before.contains(before[j]));
    }
    assert forall|j: int| 0 <= j < k implies #[trigger] before[j] != '$' by {
        assert(before.contains(before[j]));
    }
    plain_start(s, 0, k);
    plain_start(before, 0, k);
    reference_stands(before, var, after);
    assert(after.skip(0) =~= after);
    template_same(s, after, ref_end(s, k), 0, known);
    assert(template_from(s, 0, known) == s.subrange(0, k) + template_from(s, k, known));
    assert(template_from(before, 0, known) == before.subrange(0, k) + template_from(
        before,
        k,
        known,
    ));
    assert(s.subrange(0, k) =~= before);
    assert(before.subrange(0, k) =~= before);
    assert(template_from(before, k, known) =~= seq![]);
    assert(template_of(before, known) =~= before);
    assert("{"@ =~= seq!['{']);
    assert("}"@ =~= seq!['}']);
    assert(template_of(s, known) =~= before + (if known.contains(var) {
        "{"@ + var + "}"@
    } else {
        reference(var)
    }) + template_of(after, known));
}

// ---------------------------------------------------------------------------
// Defines
// ---------------------------------------------------------------------------

/// The defines of a command are those of its arguments, in order; an argument
/// that defines nothing is passed over.
pub proof fn defines_are_read_one_by_one(
    args: Seq<Seq<char>>,
    known: Set<Seq<char>>,
    gate: Option<Seq<char>>,
    composed: Map<Seq<char>, Seq<char>>,
)
    ensures
        compile_definitions(args, known) == args.filter_map(
            |a: Seq<char>| compile_definition(a, known),
        ),
        plain_definitions(args, known, gate) == args.filter_map(
            |a: Seq<char>| plain_definition(a, known, gate),
        ),
        flag_definitions(args, known, composed) == args.filter_map(
            |a: Seq<char>| flag_definition(a, known, composed),
        ),
        forall|i: int|
            0 <= i < args.len() ==> {
                &&& compile_definition(#[trigger] args[i], known) matches Some(d)
                    ==> compile_definitions(args, known).contains(d)
                &&& plain_definition(args[i], known, gate) matches Some(d) ==> plain_definitions(
                    args,
                    known,
                    gate,
                ).contains(d)
                &&& flag_definition(args[i], known, composed) matches Some(d) ==> flag_definitions(
                    args,
                    known,
                    composed,
                ).contains(d)
            },
    decreases args.len(),
{
    let f = |a: Seq<char>| compile_definition(a, known);
    let g = |a: Seq<char>| plain_definition(a, known, gate);
    let h = |a: Seq<char>| flag_definition(a, known, composed);
    if args.len() > 0 {
        defines_are_read_one_by_one(args.drop_last(), known, gate, composed);
        assert(compile_definitions(args, known) =~= args.filter_map(f));
        assert(plain_definitions(args, known, gate) =~= args.filter_map(g));
        assert(flag_definitions(args, known, composed) =~= args.filter_map(h));
    }
    crate::seqs::filter_map_has(args, f);
    crate::seqs::filter_map_has(args, g);
    crate::seqs::filter_map_has(args, h);
    assert forall|i: int| 0 <= i < args.len() implies {
        &&& compile_definition(#[trigger] args[i], known) matches Some(d) ==> compile_definitions(
            args,
            known,
        ).contains(d)
        &&& plain_definition(args[i], known, gate) matches Some(d) ==> plain_definitions(
            args,
            known,
            gate,
        ).contains(d)
        &&& flag_definition(args[i], known, composed) matches Some(d) ==> flag_definitions(
            args,
            known,
            composed,
        ).contains(d)
    } by {
        assert(f(args[i]) == compile_definition(args[i], known));
        assert(g(args[i]) == plain_definition(args[i], known, gate));
        assert(h(args[i]) == flag_definition(args[i], known, composed));
    }
}

proof fn define_parts(name: Seq<char>, value: Seq<char>)
    requires
        define_name(name),
    ensures
        ({
            let s = name + "="@ + value;
            &&& arg_text_of(s) == s
            &&& arg_text_of("-D"@ + s) == "-D"@ + s
            &&& arg_text_of(name) == name
            &&& arg_text_of("-D"@ + name) == "-D"@ + name
            &&& crate::text::after_prefix(s, "-D"@) is None
            &&& crate::text::after_prefix("-D"@ + s, "-D"@) == Some(s)
            &&& crate::text::after_prefix(name, "-D"@) is None
            &&& crate::text::after_prefix("-D"@ + name, "-D"@) == Some(name)
            &&& crate::text::cut_at(s, '=') == Some((name, value))
            &&& crate::text::cut_at(name, '=') is None
            &&& trimmed(name) == name
        }),
{
    reveal_strlit("-D");
    reveal_strlit("=");
    let s = name + "="@ + value;
    assert("="@ =~= seq!['=']);
    assert(s[0] == name[0]);
    prefix_is_taken_off("-D"@, s);
    prefix_is_taken_off("-D"@, name);
    assert(("-D"@ + s)[0] == '-');
    assert(("-D"@ + name)[0] == '-');
    assert(!"-D"@.is_prefix_of(s)) by {
        if "-D"@.is_prefix_of(s) {
            assert(s.subrange(0, 2)[0] == s[0]);
        }
    }
    assert(!"-D"@.is_prefix_of(name)) by {
        if "-D"@.is_prefix_of(name) {
            assert(name.subrange(0, 2)[0] == name[0]);
        }
    }
    cutting_finds_the_first(name, '=', value);
    tight_is_trimmed(name);
}

/// `NAME=${VAR}` with a known variable is a bare define of that variable, in each
/// of the three commands, with `-D` in front or not.
pub proof fn bare_defines_name_their_variable(
    name: Seq<char>,
    var: Seq<char>,
    known: Set<Seq<char>>,
    gate: Option<Seq<char>>,
    composed: Map<Seq<char>, Seq<char>>,
)
    requires
        define_name(name),
        variable_name(var),
        known.contains(var),
    ensures
        ({
            let arg = name + "="@ + reference(var);
            let define = Some(
                DefineMappingView {
                    c_name: name,
                    kind: DefineKindView::Bare { var },
                    source_vars: seq![var],
                },
            );
            &&& compile_definition(arg, known) == define
            &&& compile_definition("-D"@ + arg, known) == define
            &&& plain_definition(arg, known, gate) == define
            &&& plain_definition("-D"@ + arg, known, gate) == define
            &&& flag_definition("-D"@ + arg, known, composed) == define
            &&& flag_definition(arg, known, composed) is None
        }),
{
    reveal_strlit("${");
    reveal_strlit("}");
    reveal_strlit("\"");
    let value = reference(var);
    define_parts(name, value);
    single_references_are_seen(seq![], var, seq![]);
    tight_is_trimmed(value);
    assert(in_quotes(value) is None) by {
        if "\""@.is_prefix_of(value) {
            assert(value.subrange(0, 1)[0] == value[0]);
        }
    }
}

/// `NAME="${VAR}"` with a known variable is a define of that variable as a string.
pub proof fn quoted_defines_are_strings(
    name: Seq<char>,
    var: Seq<char>,
    known: Set<Seq<char>>,
)
    requires
        define_name(name),
        variable_name(var),
        known.contains(var),
    ensures
        ({
            let arg = name + "="@ + ("\""@ + reference(var) + "\""@);
            let define = Some(
                DefineMappingView {
                    c_name: name,
                    kind: DefineKindView::QuotedString { var },
                    source_vars: seq![var],
                },
            );
            &&& compile_definition(arg, known) == define
            &&& compile_definition("-D"@ + arg, known) == define
        }),
{
    reveal_strlit("${");
    reveal_strlit("}");
    reveal_strlit("\"");
    let value = "\""@ + reference(var) + "\""@;
    define_parts(name, value);
    single_references_are_seen(seq![], var, seq![]);
    tight_is_trimmed(value);
    assert(value =~= "\""@ + (reference(var) + "\""@));
    prefix_is_taken_off("\""@, reference(var) + "\""@);
    suffix_is_taken_off(reference(var), "\""@);
}

/// A name without a value is a flag of the variable that gates it, and nothing
/// where no variable does.
pub proof fn names_are_gated_flags(
    name: Seq<char>,
    known: Set<Seq<char>>,
    gate: Option<Seq<char>>,
)
    requires
        define_name(name),
    ensures
        ({
            let define = match gate {
                Some(g) => Some(
                    DefineMappingView {
                        c_name: name,
                        kind: DefineKindView::GatedFlag { gate_var: g },
                        source_vars: seq![g],
                    },
                ),
                None => None,
            };
            &&& plain_definition(name, known, gate) == define
            &&& plain_definition("-D"@ + name, known, gate) == define
            &&& compile_definition(name, known) is None
            &&& compile_definition("-D"@ + name, known) is None
        }),
{
    define_parts(name, seq![]);
}

/// A value with references to two known variables is composed: it keeps its text
/// as a template and both variables as its sources.
pub proof fn two_references_are_composed(
    name: Seq<char>,
    first: Seq<char>,
    mid: Seq<char>,
    second: Seq<char>,
    end: Seq<char>,
    known: Set<Seq<char>>,
)
    requires
        variable_name(first),
        variable_name(second),
        known.contains(first),
        known.contains(second),
        !mid.contains('$'),
        !end.contains('$'),
        vstd::utf8::is_ascii_chars(mid),
        vstd::utf8::is_ascii_chars(end),
    ensures
        composed_define(name, reference(first) + mid + reference(second) + end, known) == Some(
            DefineMappingView {
                c_name: name,
                kind: DefineKindView::Composed {
                    template: "{"@ + first + "}"@ + mid + "{"@ + second + "}"@ + end,
                },
                source_vars: seq![first, second],
            },
        ),
        composed_define(name, reference(first) + mid, known) is None,
        composed_define(name, mid, known) is None,
{
    reveal_strlit("${");
    reveal_strlit("}");
    let none = Seq::<char>::empty();
    let rest = mid + reference(second) + end;
    assert(vstd::utf8::is_ascii_chars(rest)) by {
        assert forall|i: int| 0 <= i < rest.len() implies 0 <= #[trigger] rest[i] as nat && (rest[i]
            as nat) < 128 by {
            let k = mid.len() as int;
            let e = k + reference(second).len();
            if i < k {
                assert(rest[i] == mid[i]);
            } else if i < e {
                let j = i - k;
                if 2 <= j < 2 + second.len() {
                    assert(rest[i] == second[j - 2]);
                    assert(ident_char(second[j - 2]));
                }
            } else {
                assert(rest[i] == end[i - e]);
            }
        }
    }
    references_are_found_in_order(none, first, rest, known);
    references_are_found_in_order(none, first, mid, known);
    references_are_found_in_order(mid, second, end, known);
    references_are_found_in_order(end, second, none, known);
    templates_mark_known_references(none, first, rest, known);
    templates_mark_known_references(mid, second, end, known);
    templates_mark_known_references(end, second, none, known);
    let value = reference(first) + mid + reference(second) + end;
    assert(none + reference(first) + rest =~= value);
    assert(none + reference(first) + mid =~= reference(first) + mid);
    assert(known_refs_of(value, known) =~= seq![first, second]);
    assert(template_of(value, known) =~= "{"@ + first + "}"@ + mid + "{"@ + second + "}"@ + end);
    assert(seq![first] + Seq::<Seq<char>>::empty() =~= seq![first]);
}

/// The second pass keeps every define in its place and under its name. A bare
/// define of a composed variable becomes the composed define of its value; what
/// is no bare define stays.
pub proof fn composed_variables_are_inlined(
    defines: Seq<DefineMappingView>,
    composed: Map<Seq<char>, Seq<char>>,
    known: Set<Seq<char>>,
)
    ensures
        ({
            let after = all_rewritten(defines, composed, known);
            &&& after.len() == defines.len()
            &&& forall|i: int|
                0 <= i < defines.len() ==> {
                    &&& (#[trigger] after[i]).c_name == defines[i].c_name
                    &&& !(defines[i].kind is Bare) ==> after[i] == defines[i]
                    &&& defines[i].kind matches DefineKindView::Bare { var } ==> {
                        let value = composed[var];
                        if composed.dom().contains(var) && known_refs_of(value, known).len() >= 2 {
                            after[i].kind == (DefineKindView::Composed {
                                template: template_of(value, known),
                            }) && after[i].source_vars == known_refs_of(value, known)
                        } else {
                            after[i] == defines[i]
                        }
                    }
                }
        }),
{
}

/// What a gated target defines is recorded behind what was there: a flag of the
/// gating variable for each argument that is no scope and has no value.
pub proof fn target_flags_are_recorded(
    defines: Seq<DefineMappingView>,
    args: Seq<Seq<char>>,
    gate: Seq<char>,
)
    ensures
        ({
            let after = with_target_flags(defines, args, gate);
            &&& defines.is_prefix_of(after)
            &&& forall|i: int|
                0 <= i < args.len() && arg_text_of(#[trigger] args[i]) != "PRIVATE"@ && arg_text_of(
                    args[i],
                ) != "PUBLIC"@ && arg_text_of(args[i]) != "INTERFACE"@ && !arg_text_of(
                    args[i],
                ).contains('=') ==> has_gated_flag(after, arg_text_of(args[i]), gate)
            &&& forall|k: int|
                defines.len() <= k < after.len() ==> (#[trigger] after[k]).kind == (
                DefineKindView::GatedFlag { gate_var: gate }) && after[k].source_vars == seq![gate]
                    && exists|i: int|
                    0 <= i < args.len() && arg_text_of(#[trigger] args[i]) == after[k].c_name
                        && arg_text_of(args[i]) != "PRIVATE"@ && arg_text_of(args[i])
                        != "PUBLIC"@ && arg_text_of(args[i]) != "INTERFACE"@ && !arg_text_of(
                        args[i],
                    ).contains('=')
        }),
    decreases args.len(),
{
    let after = with_target_flags(defines, args, gate);
    if args.len() > 0 {
        let rest = args.drop_last();
        let n = args.len() - 1;
        target_flags_are_recorded(defines, rest, gate);
        let before = with_target_flags(defines, rest, gate);
        assert(after == with_target_flag(before, args[n], gate));
        assert(before.is_prefix_of(after)) by {
            assert(after.subrange(0, before.len() as int) =~= before);
        }
        assert(after.subrange(0, defines.len() as int) =~= before.subrange(
            0,
            defines.len() as int,
        ));
        assert forall|i: int|
            0 <= i < args.len() && arg_text_of(#[trigger] args[i]) != "PRIVATE"@ && arg_text_of(
                args[i],
            ) != "PUBLIC"@ && arg_text_of(args[i]) != "INTERFACE"@ && !arg_text_of(
                args[i],
            ).contains('=') implies has_gated_flag(after, arg_text_of(args[i]), gate) by {
            let text = arg_text_of(args[i]);
            if i < n {
                assert(rest[i] == args[i]);
                assert(has_gated_flag(before, text, gate));
            }
            if has_gated_flag(before, text, gate) {
                let k = choose|k: int|
                    0 <= k < before.len() && (#[trigger] before[k]).c_name == text && before[k].kind
                        == (DefineKindView::GatedFlag { gate_var: gate });
                assert(after[k] == before[k]);
            } else {
                assert(after[before.len() as int].c_name == text);
            }
        }
        assert forall|k: int| defines.len() <= k < after.len() implies (#[trigger] after[k]).kind
            == (DefineKindView::GatedFlag { gate_var: gate }) && after[k].source_vars == seq![gate]
            && exists|i: int|
            0 <= i < args.len() && arg_text_of(#[trigger] args[i]) == after[k].c_name
                && arg_text_of(args[i]) != "PRIVATE"@ && arg_text_of(args[i]) != "PUBLIC"@
                && arg_text_of(args[i]) != "INTERFACE"@ && !arg_text_of(args[i]).contains('=') by {
            if k < before.len() {
                assert(after[k] == before[k]);
                let i = choose|i: int|
                    0 <= i < rest.len() && arg_text_of(#[trigger] rest[i]) == before[k].c_name
                        && arg_text_of(rest[i]) != "PRIVATE"@ && arg_text_of(rest[i]) != "PUBLIC"@
                        && arg_text_of(rest[i]) != "INTERFACE"@ && !arg_text_of(rest[i]).contains(
                        '=',
                    );
                assert(args[i] == rest[i]);
            } else {
                assert(arg_text_of(args[n]) == after[k].c_name);
            }
        }
    } else {
        assert(after.subrange(0, defines.len() as int) =~= defines);
    }
}

// ---------------------------------------------------------------------------
// Options and variables
// ---------------------------------------------------------------------------

/// `option(VAR "..." value)` gives a known variable its default: `true` for `ON`,
/// `TRUE`, `YES` and `1`, `false` for `OFF`, `FALSE`, `NO` and `0`. An unknown
/// variable is passed over.
pub proof fn options_have_defaults(
    args: Seq<Seq<char>>,
    known: Set<Seq<char>>,
    out: ScannedView,
)
    requires
        args.len() > 2,
    ensures
        ({
            let after = option_effect(args, known, out);
            let var = arg_text_of(args[0]);
            let value = arg_text_of(args[2]);
            &&& after.defines == out.defines
            &&& after.source_selections == out.source_selections
            &&& after.conditional_targets == out.conditional_targets
            &&& after.subdir_selections == out.subdir_selections
            &&& !known.contains(var) ==> after.var_defaults == out.var_defaults
            &&& known.contains(var) ==> {
                &&& (value == "ON"@ || value == "TRUE"@ || value == "YES"@ || value == "1"@)
                    ==> after.var_defaults == out.var_defaults.insert(var, Some("true"@))
                &&& (value == "OFF"@ || value == "FALSE"@ || value == "NO"@ || value == "0"@)
                    ==> after.var_defaults == out.var_defaults.insert(var, Some("false"@))
            }
        }),
{
    reveal_strlit("ON");
    reveal_strlit("TRUE");
    reveal_strlit("YES");
    reveal_strlit("1");
    reveal_strlit("OFF");
    reveal_strlit("FALSE");
    reveal_strlit("NO");
    reveal_strlit("0");
    let value = arg_text_of(args[2]);
    if value == "OFF"@ || value == "FALSE"@ || value == "NO"@ || value == "0"@ {
        assert(value[0] == 'O' || value[0] == 'F' || value[0] == 'N' || value[0] == '0');
        assert(value != "ON"@) by {
            if value[0] == 'O' {
                assert(value[1] == 'F');
            }
        }
        assert(value != "TRUE"@ && value != "YES"@ && value != "1"@);
    }
}

/// `set(NAME value ... CACHE ...)` gives a known variable the value as its
/// default.
pub proof fn cache_entries_have_defaults(
    args: Seq<Seq<char>>,
    known: Set<Seq<char>>,
    rel_dir: Seq<char>,
    sc: Scope,
    i: int,
)
    requires
        1 < args.len(),
        known.contains(arg_text_of(args[0])),
        0 <= i < args.len(),
        arg_text_of(args[i]) == "CACHE"@,
        arg_text_of(args[1]).len() > 0,
    ensures
        ({
            let after = set_effect(args, known, rel_dir, sc);
            &&& after.out.var_defaults == sc.out.var_defaults.insert(
                arg_text_of(args[0]),
                Some(arg_text_of(args[1])),
            )
            &&& after.out.defines == sc.out.defines
            &&& after.out.source_selections == sc.out.source_selections
            &&& after.out.conditional_targets == sc.out.conditional_targets
            &&& after.out.subdir_selections == sc.out.subdir_selections
            &&& after.source_lists == sc.source_lists
            &&& after.composed == sc.composed
        }),
{
}

/// `set(..._SOURCES a b c)` makes a list of all the files named, each seen from the
/// project.
pub proof fn source_lists_hold_every_file(
    stem: Seq<char>,
    files: Seq<Seq<char>>,
    known: Set<Seq<char>>,
    rel_dir: Seq<char>,
    sc: Scope,
)
    requires
        arg_text_of(stem + "_SOURCES"@) == stem + "_SOURCES"@,
        !known.contains(stem + "_SOURCES"@),
    ensures
        ({
            let name = stem + "_SOURCES"@;
            let after = set_effect(seq![name] + files, known, rel_dir, sc);
            &&& after.source_lists.dom() == sc.source_lists.dom().insert(name)
            &&& after.source_lists[name] == files.map_values(
                |f: Seq<char>| prefixed(rel_dir, arg_text_of(f)),
            )
            &&& forall|other: Seq<char>|
                other != name && sc.source_lists.dom().contains(other)
                    ==> #[trigger] after.source_lists[other] == sc.source_lists[other]
            &&& after.out == sc.out
            &&& after.composed == sc.composed
        }),
{
    let name = stem + "_SOURCES"@;
    let args = seq![name] + files;
    reveal_strlit("_SOURCES");
    reveal_strlit("CMAKE_C_FLAGS");
    reveal_strlit("CMAKE_CXX_FLAGS");
    assert(name.last() == 'S');
    assert(name[name.len() - 2] == 'E');
    assert("CMAKE_C_FLAGS"@[11] == 'G');
    assert("CMAKE_CXX_FLAGS"@[13] == 'G');
    assert(name != "CMAKE_C_FLAGS"@);
    assert(name != "CMAKE_CXX_FLAGS"@);
    assert("_SOURCES"@.is_suffix_of(name)) by {
        assert(name.subrange(stem.len() as int, name.len() as int) =~= "_SOURCES"@);
    }
    assert(args[0] == name);
    assert(args.skip(1) =~= files);
    let after = set_effect(args, known, rel_dir, sc);
    assert(after.source_lists[name] =~= files.map_values(
        |f: Seq<char>| prefixed(rel_dir, arg_text_of(f)),
    ));
}

/// The words of the C and C++ flags that define something are recorded; the
/// variable itself is not.
pub proof fn flags_define(
    args: Seq<Seq<char>>,
    known: Set<Seq<char>>,
    rel_dir: Seq<char>,
    sc: Scope,
)
    requires
        args.len() > 1,
        arg_text_of(args[0]) == "CMAKE_C_FLAGS"@ || arg_text_of(args[0]) == "CMAKE_CXX_FLAGS"@,
        !known.contains(arg_text_of(args[0])),
    ensures
        ({
            let after = set_effect(args, known, rel_dir, sc);
            &&& after.out.defines == sc.out.defines + words_from(
                arg_text_of(args[1]),
                0,
            ).filter_map(|w: Seq<char>| flag_definition(w, known, sc.composed))
            &&& after.out.var_defaults == sc.out.var_defaults
            &&& after.source_lists == sc.source_lists
            &&& after.composed == sc.composed
        }),
{
    defines_are_read_one_by_one(
        words_from(arg_text_of(args[1]), 0),
        known,
        None,
        sc.composed,
    );
}

/// `set(NAME value)` with a value that refers to a known variable keeps the value for
/// later, under the name; any other value is passed over.
pub proof fn values_with_references_are_kept(
    name: Seq<char>,
    value: Seq<char>,
    known: Set<Seq<char>>,
    rel_dir: Seq<char>,
    sc: Scope,
)
    requires
        arg_text_of(name) == name,
        arg_text_of(value) == value,
        name != "CMAKE_C_FLAGS"@,
        name != "CMAKE_CXX_FLAGS"@,
        !"_SOURCES"@.is_suffix_of(name),
        !known.contains(name),
    ensures
        ({
            let after = set_effect(seq![name, value], known, rel_dir, sc);
            &&& after.out == sc.out
            &&& after.source_lists == sc.source_lists
            &&& known_refs_of(value, known).len() > 0 ==> after.composed == sc.composed.insert(
                name,
                value,
            )
            &&& known_refs_of(value, known).len() == 0 ==> after.composed == sc.composed
            &&& set_effect(seq![name], known, rel_dir, sc) == sc
            &&& set_effect(seq![], known, rel_dir, sc) == sc
        }),
{
    let args = seq![name, value];
    assert(args[0] == name && args[1] == value);
    assert(seq![name][0] == name);
}

/// A flag that refers to a variable of the script is the composed define of its value;
/// one that refers to nothing known is passed over.
pub proof fn flags_look_through_script_variables(
    name: Seq<char>,
    var: Seq<char>,
    known: Set<Seq<char>>,
    composed: Map<Seq<char>, Seq<char>>,
)
    requires
        define_name(name),
        variable_name(var),
        !known.contains(var),
    ensures
        ({
            let flag = "-D"@ + (name + "="@ + reference(var));
            &&& composed.dom().contains(var) ==> flag_definition(flag, known, composed)
                == composed_define(name, composed[var], known)
            &&& !composed.dom().contains(var) ==> flag_definition(flag, known, composed) is None
        }),
{
    reveal_strlit("${");
    reveal_strlit("}");
    let value = reference(var);
    define_parts(name, value);
    single_references_are_seen(seq![], var, seq![]);
    tight_is_trimmed(value);
}

/// A command without arguments guards, records and changes nothing, and an option has
/// a default only where a third argument gives one.
pub proof fn commands_need_their_arguments(
    args: Seq<Seq<char>>,
    known: Set<Seq<char>>,
    out: ScannedView,
    s: Seq<char>,
    name: Seq<char>,
)
    ensures
        if_gate(seq![], known) is None,
        args.len() > 0 ==> if_gate(args, known) == (if known.contains(arg_text_of(args[0])) {
            Some(arg_text_of(args[0]))
        } else {
            None
        }),
        option_effect(seq![], known, out) == out,
        args.len() <= 2 ==> option_default(args) is None,
        var_refs(s).len() == 0 ==> !mentions(s, name),
        var_refs(s).len() > 0 ==> mentions(s, var_refs(s)[0].2),
{
}

} // verus!
