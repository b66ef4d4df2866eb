//! What holds of the scanner as a whole.
use crate::build_config::handlers::{
    all_rewritten, composed_define, gated, has_gated_flag, known_single, with_target_flag,
    with_target_flags, Scope,
};
use crate::build_config::ir::{BuildConfigView, DefineKindView, DefineMappingView};
use crate::build_config::lexer::{
    arg_text_of, known_names, token_end, tokens_from, uncommented, var_refs, StatementView,
};
use crate::build_config::scanner::{
    gates_after, innermost, scanned, script_path, subdir_variants, subdirectory, Nest, ScanInput,
    ScanState,
};
use crate::build_config::variables::ConfigValueView;
use crate::text::{ascii_space, space_end, space_end_bound, word_end};
use vstd::prelude::*;

verus! {

// ---------------------------------------------------------------------------
// Subdirectories selected by a variable
// ---------------------------------------------------------------------------

/// `add_subdirectory(${VAR})` leaves the surrounding scan as it was, but for
/// the selection that it adds: no define, selection, target, default, source
/// list or composed variable of a variant leaks out.
pub proof fn variants_do_not_leak(
    inp: ScanInput,
    rel_dir: Seq<char>,
    args: Seq<Seq<char>>,
    nest: Nest,
    st: ScanState,
)
    requires
        inp.dir.dom().finite(),
        args.len() > 0,
        known_single(arg_text_of(args[0]), inp.known) is Some,
    ensures
        ({
            let after = subdirectory(inp, rel_dir, args, nest, st);
            &&& after.visited == st.visited
            &&& after.scope.source_lists == st.scope.source_lists
            &&& after.scope.composed == st.scope.composed
            &&& after.scope.out.defines == st.scope.out.defines
            &&& after.scope.out.source_selections == st.scope.out.source_selections
            &&& after.scope.out.conditional_targets == st.scope.out.conditional_targets
            &&& after.scope.out.var_defaults == st.scope.out.var_defaults
            &&& st.scope.out.subdir_selections.is_prefix_of(after.scope.out.subdir_selections)
            &&& after.scope.out.subdir_selections.len() <= st.scope.out.subdir_selections.len() + 1
        }),
{
    let after = subdirectory(inp, rel_dir, args, nest, st);
    assert(st.scope.out.subdir_selections =~= after.scope.out.subdir_selections.subrange(
        0,
        st.scope.out.subdir_selections.len() as int,
    ));
}

/// Variants do not see one another: the variants of a list of values are those
/// of its first part followed by those of the rest, each found on its own.
pub proof fn variants_are_independent(
    inp: ScanInput,
    rel_dir: Seq<char>,
    first: Seq<Seq<char>>,
    rest: Seq<Seq<char>>,
    nest: Nest,
    scope: Scope,
)
    requires
        inp.dir.dom().finite(),
    ensures
        subdir_variants(inp, rel_dir, first + rest, nest, scope) == subdir_variants(
            inp,
            rel_dir,
            first,
            nest,
            scope,
        ) + subdir_variants(inp, rel_dir, rest, nest, scope),
    decreases rest.len(),
{
    let a = subdir_variants(inp, rel_dir, first, nest, scope);
    let b = subdir_variants(inp, rel_dir, rest, nest, scope);
    if rest.len() == 0 {
        assert(first + rest =~= first);
        assert(a + b =~= a);
    } else {
        variants_are_independent(inp, rel_dir, first, rest.drop_last(), nest, scope);
        assert((first + rest).drop_last() =~= first + rest.drop_last());
        let c = subdir_variants(inp, rel_dir, rest.drop_last(), nest, scope);
        if b.len() > c.len() {
            assert(a + c.push(b.last()) =~= (a + c).push(b.last()));
        }
    }
}

/// A directory whose script is being scanned is no variant of its own.
pub proof fn open_directories_are_no_variants(
    inp: ScanInput,
    rel_dir: Seq<char>,
    values: Seq<Seq<char>>,
    nest: Nest,
    scope: Scope,
)
    requires
        inp.dir.dom().finite(),
    ensures
        forall|i: int|
            0 <= i < subdir_variants(inp, rel_dir, values, nest, scope).len()
                ==> !nest.open.contains(
                script_path(
                    (#[trigger] subdir_variants(inp, rel_dir, values, nest, scope)[i]).path,
                ),
            ),
    decreases values.len(),
{
    if values.len() > 0 {
        open_directories_are_no_variants(inp, rel_dir, values.drop_last(), nest, scope);
        let all = subdir_variants(inp, rel_dir, values, nest, scope);
        let rest = subdir_variants(inp, rel_dir, values.drop_last(), nest, scope);
        assert forall|i: int| 0 <= i < all.len() implies !nest.open.contains(
            script_path((#[trigger] all[i]).path),
        ) by {
            if i < rest.len() {
                assert(all[i] == rest[i]);
            }
        }
    }
}

/// The selection of a project without usable variables is empty, whatever its
/// scripts say.
pub proof fn no_variables_no_ir(dir: Map<Seq<char>, Seq<u8>>)
    ensures
        scanned(dir, None) == BuildConfigView::nothing(true),
        scanned(dir, Some(seq![])) == BuildConfigView::nothing(true),
{
}

/// A recorded IR names each declared variable once, in order, and is not
/// empty.
pub proof fn ir_lists_the_declared_variables(
    dir: Map<Seq<char>, Seq<u8>>,
    config: Seq<(Seq<char>, Seq<ConfigValueView>)>,
)
    requires
        config.len() > 0,
    ensures
        ({
            let ir = scanned(dir, Some(config));
            &&& !ir.is_empty
            &&& ir.variables.len() == config.len()
            &&& forall|i: int|
                0 <= i < config.len() ==> (#[trigger] ir.variables[i]).name == config[i].0
        }),
{
}

// ---------------------------------------------------------------------------
// Conditional blocks
// ---------------------------------------------------------------------------

/// An `endif` undoes the `if` before it.
pub proof fn endif_closes_if(
    open: StatementView,
    close: StatementView,
    gates: Seq<Option<Seq<char>>>,
    known: Set<Seq<char>>,
)
    requires
        open.command == "if"@,
        close.command == "endif"@,
    ensures
        gates_after(close, gates_after(open, gates, known), known) == gates,
{
    reveal_strlit("if");
    reveal_strlit("elseif");
    reveal_strlit("endif");
    assert(close.command != "if"@) by {
        assert(close.command[0] == 'e');
    }
    reveal_strlit("else");
    assert(close.command != "elseif"@ && close.command != "else"@) by {
        assert(close.command[1] == 'n');
    }
    assert(gates_after(open, gates, known).drop_last() =~= gates);
}

/// What stands under `else()` is gated like the block around it, not by the
/// `if()` that it belongs to.
pub proof fn else_is_not_gated(
    open: StatementView,
    other: StatementView,
    gates: Seq<Option<Seq<char>>>,
    known: Set<Seq<char>>,
)
    requires
        open.command == "if"@,
        other.command == "else"@,
    ensures
        innermost(gates_after(other, gates_after(open, gates, known), known)) == innermost(gates),
{
    reveal_strlit("if");
    reveal_strlit("elseif");
    reveal_strlit("else");
    assert(other.command != "if"@) by {
        assert(other.command[0] == 'e');
    }
    assert(other.command != "elseif"@) by {
        assert(other.command.len() == 4);
    }
    assert(gates_after(open, gates, known).drop_last() =~= gates);
    assert(gates_after(other, gates_after(open, gates, known), known).drop_last() =~= gates);
}

/// Every gate that a branch command opens is a known variable.
pub proof fn gates_are_known(
    stmt: StatementView,
    gates: Seq<Option<Seq<char>>>,
    known: Set<Seq<char>>,
)
    requires
        forall|i: int| 0 <= i < gates.len() ==> (#[trigger] gates[i] matches Some(g) ==>
            known.contains(g)),
    ensures
        ({
            let after = gates_after(stmt, gates, known);
            forall|i: int| 0 <= i < after.len() ==> (#[trigger] after[i] matches Some(g) ==>
                known.contains(g))
        }),
{
}

// ---------------------------------------------------------------------------
// Defines
// ---------------------------------------------------------------------------

proof fn target_flag_stays(
    defines: Seq<DefineMappingView>,
    arg: Seq<char>,
    gate: Seq<char>,
    c_name: Seq<char>,
)
    requires
        has_gated_flag(defines, c_name, gate),
    ensures
        has_gated_flag(with_target_flag(defines, arg, gate), c_name, gate),
{
    let after = with_target_flag(defines, arg, gate);
    let k = choose|k: int|
        0 <= k < defines.len() && (#[trigger] defines[k]).c_name == c_name && defines[k].kind == (
        DefineKindView::GatedFlag { gate_var: gate });
    assert(after[k] == defines[k]);
}

proof fn target_flags_settle(
    defines: Seq<DefineMappingView>,
    all: Seq<Seq<char>>,
    n: int,
    gate: Seq<char>,
)
    requires
        0 <= n <= all.len(),
    ensures
        forall|i: int|
            0 <= i < n ==> with_target_flag(
                with_target_flags(defines, all.take(n), gate),
                #[trigger] all[i],
                gate,
            ) == with_target_flags(defines, all.take(n), gate),
    decreases n,
{
    if n > 0 {
        target_flags_settle(defines, all, n - 1, gate);
        assert(all.take(n).drop_last() =~= all.take(n - 1));
        let before = with_target_flags(defines, all.take(n - 1), gate);
        let after = with_target_flags(defines, all.take(n), gate);
        assert(after == with_target_flag(before, all[n - 1], gate));
        assert forall|i: int| 0 <= i < n implies with_target_flag(
            after,
            #[trigger] all[i],
            gate,
        ) == after by {
            let text = arg_text_of(all[i]);
            if i < n - 1 {
                assert(with_target_flag(before, all[i], gate) == before);
                if has_gated_flag(before, text, gate) {
                    target_flag_stays(before, all[n - 1], gate, text);
                } else {
                    assert(before.push(gated(text, gate)).len() == before.len() + 1);
                }
            } else if after.len() > before.len() {
                assert(after[before.len() as int] == gated(text, gate));
                assert(has_gated_flag(after, text, gate));
            }
        }
    }
}

proof fn settled_flags_stay(
    defines: Seq<DefineMappingView>,
    args: Seq<Seq<char>>,
    gate: Seq<char>,
)
    requires
        forall|i: int|
            0 <= i < args.len() ==> with_target_flag(defines, #[trigger] args[i], gate) == defines,
    ensures
        with_target_flags(defines, args, gate) == defines,
    decreases args.len(),
{
    if args.len() > 0 {
        assert forall|i: int| 0 <= i < args.drop_last().len() implies with_target_flag(
            defines,
            #[trigger] args.drop_last()[i],
            gate,
        ) == defines by {
            assert(with_target_flag(defines, args[i], gate) == defines);
        }
        settled_flags_stay(defines, args.drop_last(), gate);
        assert(with_target_flag(defines, args[args.len() - 1], gate) == defines);
    }
}

/// Saying `target_compile_definitions` twice records nothing more: the same
/// name is not duplicated for the same gate.
pub proof fn target_flags_are_recorded_once(
    defines: Seq<DefineMappingView>,
    args: Seq<Seq<char>>,
    gate: Seq<char>,
)
    ensures
        with_target_flags(with_target_flags(defines, args, gate), args, gate)
            == with_target_flags(defines, args, gate),
{
    target_flags_settle(defines, args, args.len() as int, gate);
    assert(args.take(args.len() as int) =~= args);
    settled_flags_stay(with_target_flags(defines, args, gate), args, gate);
}

/// The second pass settles: running it again changes nothing.
pub proof fn rewriting_settles(
    defines: Seq<DefineMappingView>,
    composed: Map<Seq<char>, Seq<char>>,
    known: Set<Seq<char>>,
)
    ensures
        all_rewritten(all_rewritten(defines, composed, known), composed, known) == all_rewritten(
            defines,
            composed,
            known,
        ),
{
    assert(all_rewritten(all_rewritten(defines, composed, known), composed, known)
        =~= all_rewritten(defines, composed, known));
}

/// The variables that a reference list yields are known, and a composed define
/// draws on two or more of them.
pub proof fn composed_defines_use_known_variables(
    c_name: Seq<char>,
    value: Seq<char>,
    known: Set<Seq<char>>,
)
    ensures
        composed_define(c_name, value, known) matches Some(d) ==> {
            &&& d.source_vars.len() >= 2
            &&& forall|i: int| 0 <= i < d.source_vars.len() ==> known.contains(
                #[trigger] d.source_vars[i],
            )
        },
{
    known_names_are_known(var_refs(value), known);
}

proof fn known_names_are_known(refs: Seq<(usize, usize, Seq<char>)>, known: Set<Seq<char>>)
    ensures
        forall|i: int|
            0 <= i < known_names(refs, known).len() ==> known.contains(
                #[trigger] known_names(refs, known)[i],
            ),
    decreases refs.len(),
{
    if refs.len() > 0 {
        known_names_are_known(refs.drop_last(), known);
        let rest = known_names(refs.drop_last(), known);
        assert forall|i: int| 0 <= i < known_names(refs, known).len() implies known.contains(
            #[trigger] known_names(refs, known)[i],
        ) by {
            if i < rest.len() {
                assert(known_names(refs, known)[i] == rest[i]);
            }
        }
    }
}

// ---------------------------------------------------------------------------
// Lexical level
// ---------------------------------------------------------------------------

/// What is left of a text depends only on what stands from there on.
pub proof fn uncommented_shift(s: Seq<char>, t: Seq<char>, i: int, j: int, quoted: bool)
    requires
        0 <= i <= s.len(),
        0 <= j <= t.len(),
        s.skip(i) == t.skip(j),
    ensures
        uncommented(s, i, quoted) == uncommented(t, j, quoted),
    decreases s.len() - i,
{
    assert(s.skip(i).len() == s.len() - i);
    assert(t.skip(j).len() == t.len() - j);
    if i < s.len() {
        assert(s[i] == s.skip(i)[0]);
        assert(t[j] == t.skip(j)[0]);
        assert(s.skip(i + 1) =~= s.skip(i).skip(1));
        assert(t.skip(j + 1) =~= t.skip(j).skip(1));
        if quoted && s[i] == '\\' && i + 1 < s.len() {
            assert(s[i + 1] == s.skip(i)[1]);
            assert(t[j + 1] == t.skip(j)[1]);
            assert(s.skip(i + 2) =~= s.skip(i).skip(2));
            assert(t.skip(j + 2) =~= t.skip(j).skip(2));
            uncommented_shift(s, t, i + 2, j + 2, true);
        } else if quoted {
            uncommented_shift(s, t, i + 1, j + 1, s[i] != '"');
        } else if s[i] == '#' {
            line_end_shift(s, t, i + 1, j + 1);
            let e = crate::build_config::lexer::line_end(s, i + 1);
            let f = crate::build_config::lexer::line_end(t, j + 1);
            crate::build_config::lexer::line_end_bound(s, i + 1);
            assert(s.skip(e) =~= s.skip(i).skip(e - i));
            assert(t.skip(f) =~= t.skip(j).skip(f - j));
            uncommented_shift(s, t, e, f, false);
        } else {
            uncommented_shift(s, t, i + 1, j + 1, s[i] == '"');
        }
    }
}

proof fn line_end_shift(s: Seq<char>, t: Seq<char>, i: int, j: int)
    requires
        0 <= i <= s.len(),
        0 <= j <= t.len(),
        s.skip(i) == t.skip(j),
    ensures
        crate::build_config::lexer::line_end(s, i) - i == crate::build_config::lexer::line_end(t, j)
            - j,
    decreases s.len() - i,
{
    assert(s.skip(i).len() == s.len() - i);
    assert(t.skip(j).len() == t.len() - j);
    if i < s.len() {
        assert(s[i] == s.skip(i)[0]);
        assert(t[j] == t.skip(j)[0]);
        if s[i] != '\n' {
            assert(s.skip(i + 1) =~= s.skip(i).skip(1));
            assert(t.skip(j + 1) =~= t.skip(j).skip(1));
            line_end_shift(s, t, i + 1, j + 1);
        }
    }
}

proof fn uncommented_settles_from(s: Seq<char>, i: int, quoted: bool)
    requires
        0 <= i <= s.len(),
    ensures
        uncommented(uncommented(s, i, quoted), 0, quoted) == uncommented(s, i, quoted),
    decreases s.len() - i,
{
    let out = uncommented(s, i, quoted);
    if i < s.len() {
        if quoted && s[i] == '\\' && i + 1 < s.len() {
            let rest = uncommented(s, i + 2, true);
            uncommented_settles_from(s, i + 2, true);
            assert(out.skip(2) =~= rest.skip(0));
            uncommented_shift(out, rest, 2, 0, true);
        } else if quoted {
            let rest = uncommented(s, i + 1, s[i] != '"');
            uncommented_settles_from(s, i + 1, s[i] != '"');
            assert(out.skip(1) =~= rest.skip(0));
            uncommented_shift(out, rest, 1, 0, s[i] != '"');
            if s[i] == '\\' {
                assert(rest =~= seq![]);
                assert(out.len() == 1);
            }
        } else if s[i] == '#' {
            crate::build_config::lexer::line_end_bound(s, i + 1);
            uncommented_settles_from(s, crate::build_config::lexer::line_end(s, i + 1), false);
        } else {
            let rest = uncommented(s, i + 1, s[i] == '"');
            uncommented_settles_from(s, i + 1, s[i] == '"');
            assert(out.skip(1) =~= rest.skip(0));
            uncommented_shift(out, rest, 1, 0, s[i] == '"');
        }
    }
}

/// A text without comments stays as it is: stripping comments twice is
/// stripping them once.
pub proof fn stripping_comments_settles(s: Seq<char>)
    ensures
        uncommented(uncommented(s, 0, false), 0, false) == uncommented(s, 0, false),
{
    uncommented_settles_from(s, 0, false);
}

proof fn word_has_no_space(s: Seq<char>, i: int)
    requires
        0 <= i <= s.len(),
    ensures
        forall|j: int| i <= j < word_end(s, i) ==> !ascii_space(#[trigger] s[j]),
    decreases s.len() - i,
{
    if i < s.len() && !ascii_space(s[i]) {
        word_has_no_space(s, i + 1);
    }
}

/// Every argument is either quoted or a word: not empty, and without
/// whitespace unless it starts with a double quote.
pub proof fn arguments_are_words_or_quoted(s: Seq<char>, i: int)
    requires
        0 <= i <= s.len(),
    ensures
        forall|k: int|
            0 <= k < tokens_from(s, i).len() ==> {
                let t = #[trigger] tokens_from(s, i)[k];
                t.len() > 0 && (t[0] == '"' || forall|j: int|
                    0 <= j < t.len() ==> !ascii_space(#[trigger] t[j]))
            },
    decreases s.len() - i,
{
    let a = space_end(s, i);
    let b = token_end(s, a);
    space_end_bound(s, i);
    if 0 <= i <= a < b <= s.len() {
        arguments_are_words_or_quoted(s, b);
        let t = s.subrange(a, b);
        word_has_no_space(s, a);
        assert(t[0] == s[a]);
        if t[0] != '"' {
            assert forall|j: int| 0 <= j < t.len() implies !ascii_space(#[trigger] t[j]) by {
                assert(t[j] == s[a + j]);
            }
        }
        assert forall|k: int| 0 <= k < tokens_from(s, i).len() implies ({
            let t = #[trigger] tokens_from(s, i)[k];
            t.len() > 0 && (t[0] == '"' || forall|j: int|
                0 <= j < t.len() ==> !ascii_space(#[trigger] t[j]))
        }) by {
            if k == 0 {
                assert(tokens_from(s, i)[k] == t);
            } else {
                assert(tokens_from(s, i)[k] == tokens_from(s, b)[k - 1]);
            }
        }
    }
}

} // verus!
