//! How scripts run: commands, blocks, subdirectories and projects.
use crate::build_config::define_laws::{defines_are_read_one_by_one, options_have_defaults};
use crate::build_config::handlers::{
    compile_definition, known_single, plain_definition, with_target_flags, ScannedView, Scope,
};
use crate::build_config::ir::{BuildConfigView, SubdirVariantView};
use crate::build_config::lexer::{arg_text_of, single_ref, StatementView};
use crate::build_config::scanner::{
    apply, files_besides, gates_after, innermost, is_branch, one_file_less, project_configuration,
    run, scan_file, scan_input, scan_start, scanned, scanned_cmake, script_path, subdir_variants,
    subdirectory, variant_dir, variant_of, variant_start, Nest, ScanInput, ScanState,
};
use crate::build_config::target_laws::{argument_files, targets_keep_their_existing_files};
use crate::build_config::variables::{configuration_of, ConfigValueView};
use crate::path::{entry_name, joining_walks_the_tree, normal_join};
use crate::text::joined;
use vstd::prelude::*;

verus! {

/// None of the statements opens or closes a block.
pub open spec fn straight(stmts: Seq<StatementView>) -> bool {
    forall|i: int| 0 <= i < stmts.len() ==> !is_branch((#[trigger] stmts[i]).command)
}

// ---------------------------------------------------------------------------
// Blocks
// ---------------------------------------------------------------------------

/// Statements run one after the other: what follows a list of statements starts
/// where the list left off, under the same gates.
pub proof fn statements_run_in_order(
    inp: ScanInput,
    rel_dir: Seq<char>,
    first: Seq<StatementView>,
    rest: Seq<StatementView>,
    gates: Seq<Option<Seq<char>>>,
    nest: Nest,
    st: ScanState,
)
    requires
        inp.dir.dom().finite(),
        straight(first),
    ensures
        run(inp, rel_dir, first + rest, gates, nest, st) == run(
            inp,
            rel_dir,
            rest,
            gates,
            nest,
            run(inp, rel_dir, first, gates, nest, st),
        ),
        run(inp, rel_dir, seq![], gates, nest, st) == st,
        first.len() == 1 ==> run(inp, rel_dir, first, gates, nest, st) == apply(
            inp,
            rel_dir,
            first[0],
            innermost(gates),
            nest,
            st,
        ),
    decreases first.len(),
{
    let all = first + rest;
    if first.len() == 0 {
        assert(all =~= rest);
    } else {
        let less = first.skip(1);
        assert(!is_branch(first[0].command));
        assert(straight(less)) by {
            assert forall|i: int| 0 <= i < less.len() implies !is_branch(
                (#[trigger] less[i]).command,
            ) by {
                assert(less[i] == first[i + 1]);
            }
        }
        let next = apply(inp, rel_dir, first[0], innermost(gates), nest, st);
        statements_run_in_order(inp, rel_dir, less, rest, gates, nest, next);
        assert(all[0] == first[0]);
        assert(all.skip(1) =~= less + rest);
        if first.len() == 1 {
            assert(less =~= seq![]);
            assert(run(inp, rel_dir, less, gates, nest, next) == next);
        }
    }
}

proof fn one_branch(
    inp: ScanInput,
    rel_dir: Seq<char>,
    stmt: StatementView,
    rest: Seq<StatementView>,
    gates: Seq<Option<Seq<char>>>,
    nest: Nest,
    st: ScanState,
)
    requires
        inp.dir.dom().finite(),
        is_branch(stmt.command),
    ensures
        run(inp, rel_dir, seq![stmt] + rest, gates, nest, st) == run(
            inp,
            rel_dir,
            rest,
            gates_after(stmt, gates, inp.known),
            nest,
            st,
        ),
{
    let all = seq![stmt] + rest;
    assert(all[0] == stmt);
    assert(all.skip(1) =~= rest);
}

/// What stands between `if(VAR)` and `else()` is gated by the variable, what stands
/// between `else()` and `endif()` by none of its own, and what follows runs as if
/// there had been no block.
pub proof fn blocks_are_gated(
    inp: ScanInput,
    rel_dir: Seq<char>,
    args: Seq<Seq<char>>,
    others: Seq<Seq<char>>,
    yes: Seq<StatementView>,
    no: Seq<StatementView>,
    rest: Seq<StatementView>,
    gates: Seq<Option<Seq<char>>>,
    nest: Nest,
    st: ScanState,
)
    requires
        inp.dir.dom().finite(),
        straight(yes),
        straight(no),
        args.len() > 0,
    ensures
        ({
            let open = StatementView { command: "if"@, args };
            let other = StatementView { command: "else"@, args: others };
            let close = StatementView { command: "endif"@, args: others };
            let var = arg_text_of(args[0]);
            let gate = if inp.known.contains(var) {
                Some(var)
            } else {
                None
            };
            let inside = run(inp, rel_dir, yes, gates.push(gate), nest, st);
            &&& run(inp, rel_dir, seq![open] + (yes + (seq![close] + rest)), gates, nest, st)
                == run(inp, rel_dir, rest, gates, nest, inside)
            &&& run(
                inp,
                rel_dir,
                seq![open] + (yes + (seq![other] + (no + (seq![close] + rest)))),
                gates,
                nest,
                st,
            ) == run(
                inp,
                rel_dir,
                rest,
                gates,
                nest,
                run(inp, rel_dir, no, gates.push(None), nest, inside),
            )
        }),
{
    let open = StatementView { command: "if"@, args };
    let other = StatementView { command: "else"@, args: others };
    let close = StatementView { command: "endif"@, args: others };
    reveal_strlit("if");
    reveal_strlit("else");
    reveal_strlit("elseif");
    reveal_strlit("endif");
    assert("if"@.len() == 2 && "else"@.len() == 4 && "elseif"@.len() == 6 && "endif"@.len() == 5);
    let var = arg_text_of(args[0]);
    let gate = if inp.known.contains(var) {
        Some(var)
    } else {
        None
    };
    let under = gates.push(gate);
    assert(gates_after(open, gates, inp.known) == under);
    assert(under.drop_last() =~= gates);
    assert(gates.push(None).drop_last() =~= gates);
    assert(gates_after(other, under, inp.known) == gates.push(None));
    assert(gates_after(close, under, inp.known) == gates);
    assert(gates_after(close, gates.push(None), inp.known) == gates);
    let tail = seq![close] + rest;
    let inside = run(inp, rel_dir, yes, under, nest, st);
    one_branch(inp, rel_dir, open, yes + tail, gates, nest, st);
    statements_run_in_order(inp, rel_dir, yes, tail, under, nest, st);
    one_branch(inp, rel_dir, close, rest, under, nest, inside);
    let middle = seq![other] + (no + tail);
    one_branch(inp, rel_dir, open, yes + middle, gates, nest, st);
    statements_run_in_order(inp, rel_dir, yes, middle, under, nest, st);
    one_branch(inp, rel_dir, other, no + tail, under, nest, inside);
    statements_run_in_order(inp, rel_dir, no, tail, gates.push(None), nest, inside);
    one_branch(
        inp,
        rel_dir,
        close,
        rest,
        gates.push(None),
        nest,
        run(inp, rel_dir, no, gates.push(None), nest, inside),
    );
}

/// `elseif(VAR)` puts its own gate in the place of the one before it.
pub proof fn elseif_changes_the_gate(
    args: Seq<Seq<char>>,
    gates: Seq<Option<Seq<char>>>,
    before: Option<Seq<char>>,
    known: Set<Seq<char>>,
)
    requires
        args.len() > 0,
    ensures
        gates_after(StatementView { command: "elseif"@, args }, gates.push(before), known)
            == gates.push(
            if known.contains(arg_text_of(args[0])) {
                Some(arg_text_of(args[0]))
            } else {
                None
            },
        ),
{
    reveal_strlit("if");
    reveal_strlit("elseif");
    assert("if"@.len() == 2 && "elseif"@.len() == 6);
    assert(gates.push(before).drop_last() =~= gates);
}

/// A statement is gated by the last known variable of the blocks around it.
pub proof fn innermost_gate_counts(gates: Seq<Option<Seq<char>>>)
    ensures
        ({
            let all = gates.filter(|g: Option<Seq<char>>| g is Some);
            innermost(gates) == (if all.len() > 0 {
                all.last()
            } else {
                None
            })
        }),
    decreases gates.len(),
{
    reveal(Seq::filter);
    if gates.len() > 0 {
        innermost_gate_counts(gates.drop_last());
    }
}

// ---------------------------------------------------------------------------
// Commands
// ---------------------------------------------------------------------------

proof fn commands_differ()
    ensures
        "set"@.len() == 3,
        "option"@.len() == 6,
        "add_library"@.len() == 11,
        "add_definitions"@.len() == 15,
        "add_executable"@.len() == 14,
        "add_subdirectory"@.len() == 16,
        "add_compile_definitions"@.len() == 23,
        "target_compile_definitions"@.len() == 26,
{
    reveal_strlit("set");
    reveal_strlit("option");
    reveal_strlit("add_library");
    reveal_strlit("add_definitions");
    reveal_strlit("add_executable");
    reveal_strlit("add_subdirectory");
    reveal_strlit("add_compile_definitions");
    reveal_strlit("target_compile_definitions");
}

/// `option(VAR "..." value)` in a script gives the known variable its default and
/// changes nothing else.
pub proof fn option_commands_set_defaults(
    inp: ScanInput,
    rel_dir: Seq<char>,
    args: Seq<Seq<char>>,
    gate: Option<Seq<char>>,
    nest: Nest,
    st: ScanState,
)
    requires
        inp.dir.dom().finite(),
        args.len() > 2,
        inp.known.contains(arg_text_of(args[0])),
    ensures
        ({
            let after = apply(
                inp,
                rel_dir,
                StatementView { command: "option"@, args },
                gate,
                nest,
                st,
            );
            let out = st.scope.out;
            &&& (arg_text_of(args[2]) == "ON"@ || arg_text_of(args[2]) == "TRUE"@)
                ==> after.scope.out.var_defaults == out.var_defaults.insert(
                arg_text_of(args[0]),
                Some("true"@),
            )
            &&& (arg_text_of(args[2]) == "OFF"@ || arg_text_of(args[2]) == "FALSE"@)
                ==> after.scope.out.var_defaults == out.var_defaults.insert(
                arg_text_of(args[0]),
                Some("false"@),
            )
            &&& after.scope.out.defines == out.defines
            &&& after.scope.out.source_selections == out.source_selections
            &&& after.scope.out.conditional_targets == out.conditional_targets
            &&& after.scope.out.subdir_selections == out.subdir_selections
            &&& after.scope.source_lists == st.scope.source_lists
            &&& after.scope.composed == st.scope.composed
            &&& after.visited == st.visited
        }),
{
    commands_differ();
    options_have_defaults(args, inp.known, st.scope.out);
}

/// The commands that define something add their defines behind those that are
/// there, one for each argument that defines something, and change nothing else.
pub proof fn define_commands_add_defines(
    inp: ScanInput,
    rel_dir: Seq<char>,
    args: Seq<Seq<char>>,
    gate: Option<Seq<char>>,
    nest: Nest,
    st: ScanState,
)
    requires
        inp.dir.dom().finite(),
    ensures
        ({
            let a = apply(
                inp,
                rel_dir,
                StatementView { command: "add_compile_definitions"@, args },
                gate,
                nest,
                st,
            );
            let b = apply(
                inp,
                rel_dir,
                StatementView { command: "add_definitions"@, args },
                gate,
                nest,
                st,
            );
            let c = apply(
                inp,
                rel_dir,
                StatementView { command: "target_compile_definitions"@, args },
                gate,
                nest,
                st,
            );
            let out = st.scope.out;
            &&& a == st.with_out(ScannedView { defines: a.scope.out.defines, ..out })
            &&& b == st.with_out(ScannedView { defines: b.scope.out.defines, ..out })
            &&& c == st.with_out(ScannedView { defines: c.scope.out.defines, ..out })
            &&& a.scope.out.defines == out.defines + args.filter_map(
                |x: Seq<char>| compile_definition(x, inp.known),
            )
            &&& b.scope.out.defines == out.defines + args.filter_map(
                |x: Seq<char>| plain_definition(x, inp.known, gate),
            )
            &&& gate is None ==> c.scope.out.defines == out.defines
            &&& gate is Some && args.len() > 0 ==> c.scope.out.defines == with_target_flags(
                out.defines,
                args.skip(1),
                gate->0,
            )
        }),
{
    commands_differ();
    defines_are_read_one_by_one(args, inp.known, gate, st.scope.composed);
}

/// `add_library` and `add_executable` are recorded alike. Under a gate, a target
/// whose files are named one by one is recorded with all those that exist.
pub proof fn target_commands_record_files(
    inp: ScanInput,
    rel_dir: Seq<char>,
    args: Seq<Seq<char>>,
    gate: Option<Seq<char>>,
    nest: Nest,
    st: ScanState,
)
    requires
        inp.dir.dom().finite(),
    ensures
        ({
            let library = apply(
                inp,
                rel_dir,
                StatementView { command: "add_library"@, args },
                gate,
                nest,
                st,
            );
            let program = apply(
                inp,
                rel_dir,
                StatementView { command: "add_executable"@, args },
                gate,
                nest,
                st,
            );
            let named = args.skip(1).flat_map(
                |a: Seq<char>| argument_files(arg_text_of(a), st.scope.source_lists, rel_dir),
            );
            let there = named.filter(|n: Seq<char>| inp.files.contains(n));
            let before = st.scope.out.conditional_targets;
            let after = library.scope.out.conditional_targets;
            &&& library == program
            &&& library.visited == st.visited
            &&& library.scope.source_lists == st.scope.source_lists
            &&& library.scope.composed == st.scope.composed
            &&& library.scope.out.defines == st.scope.out.defines
            &&& args.len() > 0 && gate is Some && there.len() > 0
                && library.scope.out.source_selections == st.scope.out.source_selections ==> {
                &&& after.len() == before.len() + 1
                &&& after.drop_last() == before
                &&& after.last().target == arg_text_of(args[0])
                &&& after.last().gate_var == gate->0
                &&& after.last().files == there
            }
        }),
{
    commands_differ();
    if args.len() > 0 {
        targets_keep_their_existing_files(
            args,
            inp.known,
            st.scope.source_lists,
            rel_dir,
            inp.files,
            gate,
            st.scope.out,
        );
    }
}

/// Any other command is passed over.
pub proof fn other_commands_are_passed_over(
    inp: ScanInput,
    rel_dir: Seq<char>,
    stmt: StatementView,
    gate: Option<Seq<char>>,
    nest: Nest,
    st: ScanState,
)
    requires
        inp.dir.dom().finite(),
        stmt.command != "set"@,
        stmt.command != "option"@,
        stmt.command != "add_library"@,
        stmt.command != "add_executable"@,
        stmt.command != "add_definitions"@,
        stmt.command != "add_subdirectory"@,
        stmt.command != "add_compile_definitions"@,
        stmt.command != "target_compile_definitions"@,
    ensures
        apply(inp, rel_dir, stmt, gate, nest, st) == st,
{
}

/// `set` changes neither which scripts were visited nor what was recorded of
/// targets and subdirectories.
pub proof fn set_commands_change_variables(
    inp: ScanInput,
    rel_dir: Seq<char>,
    args: Seq<Seq<char>>,
    gate: Option<Seq<char>>,
    nest: Nest,
    st: ScanState,
)
    requires
        inp.dir.dom().finite(),
    ensures
        ({
            let after = apply(
                inp,
                rel_dir,
                StatementView { command: "set"@, args },
                gate,
                nest,
                st,
            );
            &&& after.visited == st.visited
            &&& after.scope == crate::build_config::handlers::set_effect(
                args,
                inp.known,
                rel_dir,
                st.scope,
            )
            &&& after.scope.out.source_selections == st.scope.out.source_selections
            &&& after.scope.out.conditional_targets == st.scope.out.conditional_targets
            &&& after.scope.out.subdir_selections == st.scope.out.subdir_selections
        }),
{
}

// ---------------------------------------------------------------------------
// Subdirectories
// ---------------------------------------------------------------------------

/// `add_subdirectory(name)` scans the script of that directory, in place.
pub proof fn subdirectories_are_scanned_in_place(
    inp: ScanInput,
    dir: Seq<Seq<char>>,
    name: Seq<char>,
    more: Seq<Seq<char>>,
    gate: Option<Seq<char>>,
    nest: Nest,
    st: ScanState,
)
    requires
        inp.dir.dom().finite(),
        forall|i: int| 0 <= i < dir.len() ==> entry_name(#[trigger] dir[i]),
        entry_name(name),
        arg_text_of(name) == name,
        single_ref(name) is None,
    ensures
        apply(
            inp,
            joined(dir, "/"@),
            StatementView { command: "add_subdirectory"@, args: seq![name] + more },
            gate,
            nest,
            st,
        ) == scan_file(inp, joined(dir.push(name), "/"@), nest, st),
{
    commands_differ();
    let args = seq![name] + more;
    assert(args[0] == name);
    joining_walks_the_tree(dir, seq![name]);
    assert(dir + seq![name] =~= dir.push(name));
    assert(joined(seq![name], "/"@) == name);
}

/// A directory that a variable selects has one variant for each value of the
/// variable that names a directory with a script, in the order of the values. A
/// variant is what that script alone records, with the value and the path.
pub proof fn each_value_has_its_variant(
    inp: ScanInput,
    rel_dir: Seq<char>,
    values: Seq<Seq<char>>,
    nest: Nest,
    scope: Scope,
)
    requires
        inp.dir.dom().finite(),
    ensures
        subdir_variants(inp, rel_dir, values, nest, scope) == values.filter_map(
            |v: Seq<char>| variant_at(inp, rel_dir, v, nest, scope),
        ),
        forall|i: int|
            0 <= i < values.len() && (variant_at(
                inp,
                rel_dir,
                #[trigger] values[i],
                nest,
                scope,
            ) is Some) ==> subdir_variants(inp, rel_dir, values, nest, scope).contains(
                variant_at(inp, rel_dir, values[i], nest, scope)->0,
            ),
    decreases values.len(),
{
    let f = |v: Seq<char>| variant_at(inp, rel_dir, v, nest, scope);
    if values.len() > 0 {
        each_value_has_its_variant(inp, rel_dir, values.drop_last(), nest, scope);
        let v = values.last();
        if variant_dir(inp, rel_dir, v, nest) is Some {
            one_file_less(inp, nest.open, script_path(variant_dir(inp, rel_dir, v, nest)->0));
        }
        assert(subdir_variants(inp, rel_dir, values, nest, scope) =~= values.filter_map(f));
    } else {
        assert(subdir_variants(inp, rel_dir, values, nest, scope) =~= values.filter_map(f));
    }
    crate::seqs::filter_map_has(values, f);
    assert forall|i: int|
        0 <= i < values.len() && (variant_at(
            inp,
            rel_dir,
            #[trigger] values[i],
            nest,
            scope,
        ) is Some) implies subdir_variants(inp, rel_dir, values, nest, scope).contains(
        variant_at(inp, rel_dir, values[i], nest, scope)->0,
    ) by {
        assert(f(values[i]) == Some(variant_at(inp, rel_dir, values[i], nest, scope)->0));
    }
}

/// The variant of a directory for one value: what its script records when it is
/// scanned on its own, with the source lists and composed variables of the
/// surrounding script at hand.
pub open spec fn variant_at(
    inp: ScanInput,
    rel_dir: Seq<char>,
    value: Seq<char>,
    nest: Nest,
    scope: Scope,
) -> Option<SubdirVariantView> {
    match normal_join(rel_dir, value) {
        Some(child) => {
            let script = crate::path::child_path(child, "CMakeLists.txt"@);
            if inp.dir.dom().contains(script) && !nest.open.contains(script) {
                Some(
                    variant_of(
                        inp,
                        value,
                        child,
                        scan_file(
                            inp,
                            child,
                            nest.begin_variant(script),
                            variant_start(scope),
                        ),
                    ),
                )
            } else {
                None
            }
        },
        None => None,
    }
}

/// A variant is known by its value and its path, and holds what was recorded from
/// an empty start: nothing of what the surrounding script had recorded.
pub proof fn variants_hold_what_was_recorded(
    inp: ScanInput,
    value: Seq<char>,
    child: Seq<char>,
    scope: Scope,
    end: ScanState,
)
    ensures
        ({
            let v = variant_of(inp, value, child, end);
            &&& v.value == value
            &&& v.path == child
            &&& v.defines.len() == end.scope.out.defines.len()
            &&& v.source_selections == end.scope.out.source_selections
            &&& v.conditional_targets == end.scope.out.conditional_targets
            &&& v.subdir_selections == end.scope.out.subdir_selections
            &&& v.targets.len() == 0
        }),
        ({
            let start = variant_start(scope);
            &&& start.scope.out.defines.len() == 0
            &&& start.scope.out.source_selections.len() == 0
            &&& start.scope.out.conditional_targets.len() == 0
            &&& start.scope.out.subdir_selections.len() == 0
            &&& start.scope.out.var_defaults == Map::<Seq<char>, Option<Seq<char>>>::empty()
            &&& start.visited == Set::<Seq<char>>::empty()
            &&& start.scope.source_lists == scope.source_lists
            &&& start.scope.composed == scope.composed
        }),
{
}

// ---------------------------------------------------------------------------
// Scripts
// ---------------------------------------------------------------------------

proof fn visited_in_file(inp: ScanInput, rel_dir: Seq<char>, nest: Nest, st: ScanState)
    requires
        inp.dir.dom().finite(),
    ensures
        st.visited.subset_of(scan_file(inp, rel_dir, nest, st).visited),
    decreases files_besides(inp, nest.open), files_besides(inp, nest.chain), 0nat, 0nat,
{
    let script = script_path(rel_dir);
    if st.visited.contains(script) || nest.chain.contains(script) || !inp.dir.dom().contains(
        script,
    ) {
    } else {
        one_file_less(inp, nest.open, script);
        one_file_less(inp, nest.chain, script);
        visited_in_run(
            inp,
            rel_dir,
            crate::build_config::lexer::statements_of(
                crate::text::lossy_text(inp.dir[script]),
            ),
            seq![],
            nest.enter(script),
            ScanState { visited: st.visited.insert(script), ..st },
        );
    }
}

proof fn visited_in_run(
    inp: ScanInput,
    rel_dir: Seq<char>,
    stmts: Seq<StatementView>,
    gates: Seq<Option<Seq<char>>>,
    nest: Nest,
    st: ScanState,
)
    requires
        inp.dir.dom().finite(),
    ensures
        st.visited.subset_of(run(inp, rel_dir, stmts, gates, nest, st).visited),
    decreases files_besides(inp, nest.open), files_besides(inp, nest.chain), 5nat, stmts.len(),
{
    if stmts.len() == 0 {
    } else if is_branch(stmts[0].command) {
        visited_in_run(
            inp,
            rel_dir,
            stmts.skip(1),
            gates_after(stmts[0], gates, inp.known),
            nest,
            st,
        );
    } else {
        let next = apply(inp, rel_dir, stmts[0], innermost(gates), nest, st);
        if stmts[0].command == "add_subdirectory"@ {
            commands_differ();
            let args = stmts[0].args;
            if args.len() > 0 && known_single(arg_text_of(args[0]), inp.known) is None {
                match normal_join(rel_dir, arg_text_of(args[0])) {
                    Some(child) => {
                        visited_in_file(inp, child, nest, st);
                    },
                    None => {},
                }
            }
            assert(next == subdirectory(inp, rel_dir, args, nest, st));
        }
        visited_in_run(inp, rel_dir, stmts.skip(1), gates, nest, next);
    }
}

/// A script is scanned at most once: once it has been, scanning it again changes
/// nothing. A directory without a script changes nothing.
pub proof fn scripts_are_scanned_once(
    inp: ScanInput,
    rel_dir: Seq<char>,
    nest: Nest,
    st: ScanState,
)
    requires
        inp.dir.dom().finite(),
    ensures
        ({
            let once = scan_file(inp, rel_dir, nest, st);
            let script = crate::path::child_path(rel_dir, "CMakeLists.txt"@);
            &&& scan_file(inp, rel_dir, nest, once) == once
            &&& st.visited.subset_of(once.visited)
            &&& !inp.dir.dom().contains(script) ==> once == st
            &&& st.visited.contains(script) ==> once == st
            &&& inp.dir.dom().contains(script) && !nest.chain.contains(script)
                ==> once.visited.contains(script)
        }),
{
    let script = script_path(rel_dir);
    visited_in_file(inp, rel_dir, nest, st);
    if st.visited.contains(script) || nest.chain.contains(script) || !inp.dir.dom().contains(
        script,
    ) {
    } else {
        one_file_less(inp, nest.open, script);
        one_file_less(inp, nest.chain, script);
        let entered = ScanState { visited: st.visited.insert(script), ..st };
        visited_in_run(
            inp,
            rel_dir,
            crate::build_config::lexer::statements_of(
                crate::text::lossy_text(inp.dir[script]),
            ),
            seq![],
            nest.enter(script),
            entered,
        );
        assert(entered.visited.contains(script));
    }
}

/// A script that has not been scanned yet runs statement by statement, under no
/// gate, from what was recorded before it.
pub proof fn scripts_run_from_their_text(
    inp: ScanInput,
    rel_dir: Seq<char>,
    nest: Nest,
    st: ScanState,
)
    requires
        inp.dir.dom().finite(),
        inp.dir.dom().contains(crate::path::child_path(rel_dir, "CMakeLists.txt"@)),
        !st.visited.contains(crate::path::child_path(rel_dir, "CMakeLists.txt"@)),
        !nest.chain.contains(crate::path::child_path(rel_dir, "CMakeLists.txt"@)),
    ensures
        ({
            let script = crate::path::child_path(rel_dir, "CMakeLists.txt"@);
            scan_file(inp, rel_dir, nest, st) == run(
                inp,
                rel_dir,
                crate::build_config::lexer::statements_of(
                    crate::text::lossy_text(inp.dir[script]),
                ),
                seq![],
                Nest { open: nest.open.insert(script), chain: nest.chain.insert(script) },
                ScanState { visited: st.visited.insert(script), ..st },
            )
        }),
{
    let script = script_path(rel_dir);
    one_file_less(inp, nest.open, script);
    one_file_less(inp, nest.chain, script);
}

/// A project without a script at its top has variables, and nothing else is
/// recorded of it.
pub proof fn projects_without_a_script_have_variables_only(
    dir: Map<Seq<char>, Seq<u8>>,
    config: Seq<(Seq<char>, Seq<ConfigValueView>)>,
)
    requires
        dir.dom().finite(),
        config.len() > 0,
        !dir.dom().contains("CMakeLists.txt"@),
    ensures
        ({
            let ir = scanned(dir, Some(config));
            &&& ir.defines.len() == 0
            &&& ir.source_selections.len() == 0
            &&& ir.conditional_targets.len() == 0
            &&& ir.subdir_selections.len() == 0
            &&& ir.variables.len() == config.len()
        }),
{
    reveal_strlit("");
    assert(script_path(""@) == "CMakeLists.txt"@);
    let inp = scan_input(dir, config);
    assert(scan_file(inp, ""@, Nest::nothing(), scan_start()) == scan_start());
    assert(scanned_cmake(inp).defines =~= seq![]);
}

/// A project is scanned from its top with the declared variables as the known ones,
/// their values, and all its files at hand; what is found there is what is recorded.
pub proof fn projects_are_scanned_from_the_top(
    dir: Map<Seq<char>, Seq<u8>>,
    config: Seq<(Seq<char>, Seq<ConfigValueView>)>,
    name: Seq<char>,
)
    requires
        config.len() > 0,
    ensures
        ({
            let inp = scan_input(dir, config);
            let end = scan_file(inp, ""@, Nest::nothing(), scan_start());
            let ir = scanned(dir, Some(config));
            &&& inp.dir == dir
            &&& inp.files == dir.dom()
            &&& inp.known.contains(name) <==> exists|i: int|
                0 <= i < config.len() && (#[trigger] config[i]).0 == name
            &&& ir.source_selections == end.scope.out.source_selections
            &&& ir.conditional_targets == end.scope.out.conditional_targets
            &&& ir.subdir_selections == end.scope.out.subdir_selections
            &&& ir.defines.len() == end.scope.out.defines.len()
            &&& forall|i: int|
                0 <= i < ir.defines.len() ==> (#[trigger] ir.defines[i]).c_name
                    == end.scope.out.defines[i].c_name
            &&& ir.variables == crate::build_config::variables::variables_of(
                config,
                end.scope.out.var_defaults,
            )
            &&& !ir.is_empty
        }),
        ({
            let start = scan_start();
            &&& start.scope.out.defines.len() == 0
            &&& start.scope.out.source_selections.len() == 0
            &&& start.scope.out.conditional_targets.len() == 0
            &&& start.scope.out.subdir_selections.len() == 0
            &&& start.visited == Set::<Seq<char>>::empty()
            &&& start.scope.source_lists.dom() == Set::<Seq<char>>::empty()
            &&& start.scope.composed.dom() == Set::<Seq<char>>::empty()
        }),
        Nest::nothing().open == Set::<Seq<char>>::empty(),
        Nest::nothing().chain == Set::<Seq<char>>::empty(),
{
    let inp = scan_input(dir, config);
    let out = scan_file(inp, ""@, Nest::nothing(), scan_start()).scope;
    crate::build_config::define_laws::composed_variables_are_inlined(
        out.out.defines,
        out.composed,
        inp.known,
    );
}

/// The configuration of a project stands in `configuration.json` at its top; a
/// project without one, with one that is no text, or with the declarations given
/// twice has none.
pub proof fn configurations_stand_at_the_top(dir: Map<Seq<char>, Seq<u8>>)
    ensures
        !dir.dom().contains("configuration.json"@) ==> project_configuration(dir) is None,
        dir.dom().contains("configuration.json"@) ==> project_configuration(dir)
            == configuration_of(dir["configuration.json"@]),
        forall|bytes: Seq<u8>|
            crate::text::utf8_text(bytes) is None ==> (#[trigger] configuration_of(bytes)) is None,
        forall|bytes: Seq<u8>|
            (crate::text::utf8_text(bytes) matches Some(text) && crate::json::json_value(
                text,
            ) is None) ==> (#[trigger] configuration_of(bytes)) is None,
        forall|bytes: Seq<u8>|
            (crate::text::utf8_text(bytes) matches Some(text) && (crate::json::json_value(
                text,
            ) matches Some(j) && (!(j is Object) || !crate::json::repeats_key(
                text,
                "configurable_variables"@,
            )))) ==> #[trigger] configuration_of(bytes)
                == crate::build_config::variables::configuration_in(
                crate::json::json_value(crate::text::utf8_text(bytes)->0)->0,
            ),
        forall|bytes: Seq<u8>|
            (crate::text::utf8_text(bytes) matches Some(text) && (crate::json::json_value(
                text,
            ) matches Some(j) && j is Object && crate::json::repeats_key(
                text,
                "configurable_variables"@,
            ))) ==> (#[trigger] configuration_of(bytes)) is None,
{
}

/// A target is a library by the end of its name or for want of a selection; one that
/// is selected under another name is a program.
pub proof fn targets_are_told_apart(cfg: BuildConfigView, stem: Seq<char>, name: Seq<char>)
    ensures
        cfg.has_target(stem + "_lib"@) ==> cfg.has_library(stem + "_lib"@),
        cfg.has_library(name) ==> cfg.has_target(name),
        cfg.has_target(name) && !cfg.selects(name) ==> cfg.has_library(name),
        cfg.selects(name) && !"_lib"@.is_suffix_of(name) ==> cfg.has_target(name)
            && !cfg.has_library(name),
        forall|i: int|
            0 <= i < cfg.source_selections.len() ==> cfg.selects(
                (#[trigger] cfg.source_selections[i]).target,
            ),
        forall|i: int|
            0 <= i < cfg.conditional_targets.len() ==> cfg.has_target(
                (#[trigger] cfg.conditional_targets[i]).target,
            ),
{
    let lib = stem + "_lib"@;
    assert(lib.subrange(stem.len() as int, lib.len() as int) =~= "_lib"@);
}

/// The summary of a configuration counts what it holds, in words.
pub proof fn summaries_count(cfg: BuildConfigView)
    ensures
        cfg.is_empty ==> cfg.summary() == "BuildConfigIR { empty }"@,
        !cfg.is_empty ==> ("BuildConfigIR { "@ + crate::text::decimal_of(cfg.variables.len())
            + " vars, "@ + crate::text::decimal_of(cfg.defines.len())
            + " defines, "@).is_prefix_of(cfg.summary()),
{
    let head = "BuildConfigIR { "@ + crate::text::decimal_of(cfg.variables.len()) + " vars, "@
        + crate::text::decimal_of(cfg.defines.len()) + " defines, "@;
    if !cfg.is_empty {
        assert(cfg.summary().subrange(0, head.len() as int) =~= head);
    }
}

/// Only what is selected or built under a condition is a target.
pub proof fn other_names_are_no_targets(cfg: BuildConfigView, name: Seq<char>)
    requires
        forall|i: int|
            0 <= i < cfg.source_selections.len() ==> (#[trigger] cfg.source_selections[i]).target
                != name,
    ensures
        !cfg.selects(name),
        (forall|i: int|
            0 <= i < cfg.conditional_targets.len() ==> (
            #[trigger] cfg.conditional_targets[i]).target != name) ==> !cfg.has_target(name)
            && !cfg.has_library(name),
{
}

/// The rest of a summary counts the selections, targets and directories.
pub proof fn summaries_end_with_the_directories(cfg: BuildConfigView)
    requires
        !cfg.is_empty,
    ensures
        (crate::text::decimal_of(cfg.source_selections.len()) + " source_selections, "@
            + crate::text::decimal_of(cfg.conditional_targets.len()) + " conditional_targets, "@
            + crate::text::decimal_of(cfg.subdir_selections.len())
            + " subdir_selections }"@).is_suffix_of(cfg.summary()),
{
    let tail = crate::text::decimal_of(cfg.source_selections.len()) + " source_selections, "@
        + crate::text::decimal_of(cfg.conditional_targets.len()) + " conditional_targets, "@
        + crate::text::decimal_of(cfg.subdir_selections.len()) + " subdir_selections }"@;
    let all = cfg.summary();
    assert(all.subrange(all.len() - tail.len(), all.len() as int) =~= tail);
}

} // verus!
