//! Deterministic single-pass scanner that turns the `CMakeLists.txt` files of a
//! project and its declared variables into a [`BuildConfigIR`].
//!
//! Anything that is not recognized is skipped: the goal is a best-effort
//! projection, never a hard error.
use crate::build_config::handlers::{
    all_rewritten, compile_definitions, extract_if_gate, handle_add_compile_definitions,
    handle_add_definitions, handle_option, handle_set, handle_target_compile_definitions,
    handle_target_definition, if_gate, known_single, option_effect, plain_definitions,
    rewrite_composed_defines, set_effect, target_effect, target_flags_effect, ScannedCmake,
    ScannedView, Scope,
};
use crate::build_config::ir::{
    BuildConfigIR, BuildConfigView, SubdirSelection, SubdirSelectionView, SubdirVariant,
    SubdirVariantView,
};
use crate::build_config::lexer::{
    arg_text, arg_text_of, as_single_var_ref, join_statements, statements_of, Statement,
    StatementView,
};
use crate::build_config::variables::{
    build_variables, configuration_of, declared, declared_values, known_variables,
    parse_configuration_json, values_by_variable, variables_of, ConfigValueView, Configuration,
};
use crate::fs::RawDir;
use crate::names::{keys_are_entries, NameMap, NameSet};
use crate::path::{child_path, join_path, normal_join, normalize_join};
use crate::text::{from_utf8_lossy, lossy_text, opt_view, same};
use vstd::prelude::*;

verus! {

/// What a scan reads: the files of the project, the known variables and the
/// values declared for each.
#[verifier::ext_equal]
pub ghost struct ScanInput {
    pub dir: Map<Seq<char>, Seq<u8>>,
    pub known: Set<Seq<char>>,
    pub values: Map<Seq<char>, Seq<Seq<char>>>,
    pub files: Set<Seq<char>>,
}

/// What a scan accumulates.
#[verifier::ext_equal]
pub ghost struct ScanState {
    pub scope: Scope,
    pub visited: Set<Seq<char>>,
}

impl ScanState {
    /// With `out` as the output.
    pub open spec fn with_out(self, out: ScannedView) -> ScanState {
        ScanState { scope: Scope { out, ..self.scope }, ..self }
    }
}

/// The path of the script of the directory `rel_dir`.
pub open spec fn script_path(rel_dir: Seq<char>) -> Seq<char> {
    child_path(rel_dir, "CMakeLists.txt"@)
}

/// The command opens, switches or closes a conditional block.
pub open spec fn is_branch(command: Seq<char>) -> bool {
    command == "if"@ || command == "elseif"@ || command == "else"@ || command == "endif"@
}

/// The gates of the open conditional blocks after a branch command, outermost
/// first. What stands under `else()` is there when the variable of its `if()` is
/// false, so that variable does not gate it.
pub open spec fn gates_after(
    stmt: StatementView,
    gates: Seq<Option<Seq<char>>>,
    known: Set<Seq<char>>,
) -> Seq<Option<Seq<char>>> {
    if stmt.command == "if"@ {
        gates.push(if_gate(stmt.args, known))
    } else if stmt.command == "elseif"@ {
        if gates.len() > 0 {
            gates.drop_last().push(if_gate(stmt.args, known))
        } else {
            gates
        }
    } else if stmt.command == "else"@ {
        if gates.len() > 0 {
            gates.drop_last().push(None)
        } else {
            gates
        }
    } else if stmt.command == "endif"@ {
        if gates.len() > 0 {
            gates.drop_last()
        } else {
            gates
        }
    } else {
        gates
    }
}

/// The innermost recognized gate.
pub open spec fn innermost(gates: Seq<Option<Seq<char>>>) -> Option<Seq<char>>
    decreases gates.len(),
{
    if gates.len() == 0 {
        None
    } else if gates.last() is Some {
        gates.last()
    } else {
        innermost(gates.drop_last())
    }
}

/// The scripts that are being scanned: all of them, and those since the
/// innermost variant began.
#[verifier::ext_equal]
pub ghost struct Nest {
    pub open: Set<Seq<char>>,
    pub chain: Set<Seq<char>>,
}

impl Nest {
    /// No script is being scanned.
    pub open spec fn nothing() -> Nest {
        Nest { open: Set::empty(), chain: Set::empty() }
    }

    /// The scan of `script` begins.
    pub open spec fn enter(self, script: Seq<char>) -> Nest {
        Nest { open: self.open.insert(script), chain: self.chain.insert(script) }
    }

    /// A variant begins whose script is `script`.
    pub open spec fn begin_variant(self, script: Seq<char>) -> Nest {
        Nest { open: self.open.insert(script), chain: Set::empty() }
    }
}

/// The number of files that are not among `scripts`.
pub open spec fn files_besides(inp: ScanInput, scripts: Set<Seq<char>>) -> nat {
    inp.dir.dom().difference(scripts).len()
}

/// With one more file among `scripts`, fewer are left.
pub proof fn one_file_less(inp: ScanInput, scripts: Set<Seq<char>>, script: Seq<char>)
    requires
        inp.dir.dom().finite(),
    ensures
        files_besides(inp, scripts.insert(script)) <= files_besides(inp, scripts),
        inp.dir.dom().contains(script) && !scripts.contains(script) ==> files_besides(
            inp,
            scripts.insert(script),
        ) < files_besides(inp, scripts),
{
    let rest = inp.dir.dom().difference(scripts);
    assert(inp.dir.dom().difference(scripts.insert(script)) =~= rest.remove(script));
}

/// The state after scanning the script of `rel_dir` and everything that it
/// adds. A script that was visited or is being scanned, or that is not there,
/// adds nothing.
pub open spec fn scan_file(inp: ScanInput, rel_dir: Seq<char>, nest: Nest, st: ScanState) -> ScanState
    decreases files_besides(inp, nest.open), files_besides(inp, nest.chain), 0nat, 0nat,
    when inp.dir.dom().finite()
{
    let script = script_path(rel_dir);
    if st.visited.contains(script) || nest.chain.contains(script) || !inp.dir.dom().contains(
        script,
    ) {
        st
    } else {
        proof {
            one_file_less(inp, nest.open, script);
            one_file_less(inp, nest.chain, script);
        }
        run(
            inp,
            rel_dir,
            statements_of(lossy_text(inp.dir[script])),
            seq![],
            nest.enter(script),
            ScanState { visited: st.visited.insert(script), ..st },
        )
    }
}

/// The state after running `stmts` one after another inside the conditional
/// blocks `gates`.
pub open spec fn run(
    inp: ScanInput,
    rel_dir: Seq<char>,
    stmts: Seq<StatementView>,
    gates: Seq<Option<Seq<char>>>,
    nest: Nest,
    st: ScanState,
) -> ScanState
    decreases files_besides(inp, nest.open), files_besides(inp, nest.chain), 5nat, stmts.len(),
    when inp.dir.dom().finite()
{
    if stmts.len() == 0 {
        st
    } else if is_branch(stmts[0].command) {
        run(inp, rel_dir, stmts.skip(1), gates_after(stmts[0], gates, inp.known), nest, st)
    } else {
        run(
            inp,
            rel_dir,
            stmts.skip(1),
            gates,
            nest,
            apply(inp, rel_dir, stmts[0], innermost(gates), nest, st),
        )
    }
}

/// The state after one command that is not a branch.
pub open spec fn apply(
    inp: ScanInput,
    rel_dir: Seq<char>,
    stmt: StatementView,
    gate: Option<Seq<char>>,
    nest: Nest,
    st: ScanState,
) -> ScanState
    decreases files_besides(inp, nest.open), files_besides(inp, nest.chain), 4nat, 0nat,
    when inp.dir.dom().finite()
{
    let out = st.scope.out;
    if stmt.command == "set"@ {
        ScanState { scope: set_effect(stmt.args, inp.known, rel_dir, st.scope), ..st }
    } else if stmt.command == "option"@ {
        st.with_out(option_effect(stmt.args, inp.known, out))
    } else if stmt.command == "add_compile_definitions"@ {
        st.with_out(out.with_defines(compile_definitions(stmt.args, inp.known)))
    } else if stmt.command == "add_definitions"@ {
        st.with_out(out.with_defines(plain_definitions(stmt.args, inp.known, gate)))
    } else if stmt.command == "add_library"@ || stmt.command == "add_executable"@ {
        st.with_out(
            target_effect(
                stmt.args,
                inp.known,
                st.scope.source_lists,
                rel_dir,
                inp.files,
                gate,
                out,
            ),
        )
    } else if stmt.command == "target_compile_definitions"@ {
        st.with_out(target_flags_effect(stmt.args, gate, out))
    } else if stmt.command == "add_subdirectory"@ {
        subdirectory(inp, rel_dir, stmt.args, nest, st)
    } else {
        st
    }
}

/// The state after `add_subdirectory(...)`: one variant per value of a known
/// variable, or the script of a literal path scanned in place.
pub open spec fn subdirectory(
    inp: ScanInput,
    rel_dir: Seq<char>,
    args: Seq<Seq<char>>,
    nest: Nest,
    st: ScanState,
) -> ScanState
    decreases files_besides(inp, nest.open), files_besides(inp, nest.chain), 3nat, 0nat,
    when inp.dir.dom().finite()
{
    if args.len() == 0 {
        st
    } else {
        let text = arg_text_of(args[0]);
        match known_single(text, inp.known) {
            Some(var) => if inp.values.dom().contains(var) {
                let variants = subdir_variants(inp, rel_dir, inp.values[var], nest, st.scope);
                if variants.len() > 0 {
                    st.with_out(
                        ScannedView {
                            subdir_selections: st.scope.out.subdir_selections.push(
                                SubdirSelectionView { driving_var: var, variants },
                            ),
                            ..st.scope.out
                        },
                    )
                } else {
                    st
                }
            } else {
                st
            },
            None => match normal_join(rel_dir, text) {
                Some(child) => scan_file(inp, child, nest, st),
                None => st,
            },
        }
    }
}

/// The variants of the values that select a subdirectory, in order.
pub open spec fn subdir_variants(
    inp: ScanInput,
    rel_dir: Seq<char>,
    values: Seq<Seq<char>>,
    nest: Nest,
    scope: Scope,
) -> Seq<SubdirVariantView>
    decreases files_besides(inp, nest.open), files_besides(inp, nest.chain), 2nat, values.len(),
    when inp.dir.dom().finite()
{
    if values.len() == 0 {
        seq![]
    } else {
        let rest = subdir_variants(inp, rel_dir, values.drop_last(), nest, scope);
        match variant_dir(inp, rel_dir, values.last(), nest) {
            None => rest,
            Some(child) => {
                proof {
                    one_file_less(inp, nest.open, script_path(child));
                }
                rest.push(
                    variant_of(
                        inp,
                        values.last(),
                        child,
                        scan_file(
                            inp,
                            child,
                            nest.begin_variant(script_path(child)),
                            variant_start(scope),
                        ),
                    ),
                )
            },
        }
    }
}

/// The subdirectory that a value selects: it has a script, which is not being
/// scanned already.
pub open spec fn variant_dir(
    inp: ScanInput,
    rel_dir: Seq<char>,
    value: Seq<char>,
    nest: Nest,
) -> Option<Seq<char>> {
    match normal_join(rel_dir, value) {
        Some(child) => if inp.dir.dom().contains(script_path(child)) && !nest.open.contains(
            script_path(child),
        ) {
            Some(child)
        } else {
            None
        },
        None => None,
    }
}

/// The state in which a variant is scanned: nothing found, nothing visited,
/// and the source lists and composed variables of the surrounding scope.
pub open spec fn variant_start(scope: Scope) -> ScanState {
    ScanState {
        scope: Scope { out: ScannedView::nothing(), ..scope },
        visited: Set::empty(),
    }
}

/// The variant that a scan of `child` which ended in `end` gives.
pub open spec fn variant_of(
    inp: ScanInput,
    value: Seq<char>,
    child: Seq<char>,
    end: ScanState,
) -> SubdirVariantView {
    SubdirVariantView {
        value,
        path: child,
        defines: all_rewritten(end.scope.out.defines, end.scope.composed, inp.known),
        source_selections: end.scope.out.source_selections,
        conditional_targets: end.scope.out.conditional_targets,
        targets: seq![],
        subdir_selections: end.scope.out.subdir_selections,
    }
}

/// The input of a scan of the project `dir` with the variables `config`.
pub open spec fn scan_input(
    dir: Map<Seq<char>, Seq<u8>>,
    config: Seq<(Seq<char>, Seq<ConfigValueView>)>,
) -> ScanInput {
    ScanInput {
        dir,
        known: declared(config),
        values: declared_values(config),
        files: dir.dom(),
    }
}

/// The state in which a scan starts.
pub open spec fn scan_start() -> ScanState {
    ScanState {
        scope: Scope {
            out: ScannedView::nothing(),
            source_lists: Map::empty(),
            composed: Map::empty(),
        },
        visited: Set::empty(),
    }
}

/// What the scripts of a project contribute, composed defines resolved.
pub open spec fn scanned_cmake(inp: ScanInput) -> ScannedView {
    let end = scan_file(inp, ""@, Nest::nothing(), scan_start());
    ScannedView {
        defines: all_rewritten(end.scope.out.defines, end.scope.composed, inp.known),
        ..end.scope.out
    }
}

/// The IR of a project.
pub open spec fn scanned(
    dir: Map<Seq<char>, Seq<u8>>,
    config: Option<Seq<(Seq<char>, Seq<ConfigValueView>)>>,
) -> BuildConfigView {
    match config {
        None => BuildConfigView::nothing(true),
        Some(c) => if c.len() == 0 {
            BuildConfigView::nothing(true)
        } else {
            let out = scanned_cmake(scan_input(dir, c));
            BuildConfigView {
                variables: variables_of(c, out.var_defaults),
                defines: out.defines,
                source_selections: out.source_selections,
                conditional_targets: out.conditional_targets,
                subdir_selections: out.subdir_selections,
                is_empty: false,
            }
        },
    }
}

// ---------------------------------------------------------------------------
// Execution
// ---------------------------------------------------------------------------

/// What a scan reads.
pub struct ScanContext<'a> {
    pub dir: &'a RawDir,
    pub known_vars: &'a NameSet,
    pub var_values: &'a NameMap<Vec<String>>,
    pub files: &'a NameSet,
}

impl<'a> ScanContext<'a> {
    pub open spec fn model(&self) -> ScanInput {
        ScanInput {
            dir: self.dir@,
            known: self.known_vars@,
            values: self.var_values@,
            files: self.files@,
        }
    }
}

/// What a scan accumulates.
pub struct ScanProgress {
    pub out: ScannedCmake,
    pub source_lists: NameMap<Vec<String>>,
    pub composed_vars: NameMap<String>,
    pub visited: NameSet,
}

impl ScanProgress {
    pub open spec fn model(&self) -> ScanState {
        ScanState {
            scope: Scope {
                out: self.out.deep_view(),
                source_lists: self.source_lists@,
                composed: self.composed_vars@,
            },
            visited: self.visited@,
        }
    }

    fn start() -> (r: ScanProgress)
        ensures
            r.model() == scan_start(),
    {
        let r = ScanProgress {
            out: ScannedCmake::new(),
            source_lists: NameMap::new(),
            composed_vars: NameMap::new(),
            visited: NameSet::new(),
        };
        proof {
            assert(r.model() =~= scan_start());
        }
        r
    }

    fn start_variant(&self) -> (r: ScanProgress)
        ensures
            r.model() == variant_start(self.model().scope),
    {
        let r = ScanProgress {
            out: ScannedCmake::new(),
            source_lists: self.source_lists.copied(),
            composed_vars: self.composed_vars.copied(),
            visited: NameSet::new(),
        };
        proof {
            assert(r.model() =~= variant_start(self.model().scope));
        }
        r
    }
}

/// The scripts that are being scanned.
pub struct ScanNest {
    /// All of them.
    pub open: NameSet,
    /// Those since the innermost variant began.
    pub chain: NameSet,
}

impl ScanNest {
    pub open spec fn model(&self) -> Nest {
        Nest { open: self.open@, chain: self.chain@ }
    }

    /// No script is being scanned.
    pub fn new() -> (r: ScanNest)
        ensures
            r.model() == Nest::nothing(),
    {
        ScanNest { open: NameSet::new(), chain: NameSet::new() }
    }

    fn enter(&self, script: &str) -> (r: ScanNest)
        ensures
            r.model() == self.model().enter(script@),
    {
        let mut open = self.open.copied();
        let mut chain = self.chain.copied();
        let _ = open.insert(script);
        let _ = chain.insert(script);
        ScanNest { open, chain }
    }

    fn begin_variant(&self, script: &str) -> (r: ScanNest)
        ensures
            r.model() == self.model().begin_variant(script@),
    {
        let mut open = self.open.copied();
        let _ = open.insert(script);
        ScanNest { open, chain: NameSet::new() }
    }
}

fn innermost_gate<'a>(stack: &'a Vec<Option<String>>) -> (r: Option<&'a str>)
    ensures
        opt_view(r) == innermost(stack.deep_view()),
{
    let ghost all = stack.deep_view();
    let mut n: usize = stack.len();
    proof {
        assert(all.take(n as int) =~= all);
    }
    while n > 0
        invariant
            all == stack.deep_view(),
            n <= stack@.len(),
            innermost(all.take(n as int)) == innermost(all),
        decreases n,
    {
        proof {
            assert(all.take(n as int).drop_last() =~= all.take(n - 1));
            assert(all.take(n as int).last() == stack@[n - 1].deep_view());
        }
        match &stack[n - 1] {
            Some(gate) => {
                return Some(gate.as_str());
            },
            None => {},
        }
        n -= 1;
    }
    None
}

/// Applies a branch command to the stack of gates; `false` if the command is
/// no branch.
fn track_branch(stmt: &Statement, known_vars: &NameSet, stack: &mut Vec<Option<String>>) -> (r:
    bool)
    ensures
        r == is_branch(stmt.command@),
        r ==> final(stack).deep_view() == gates_after(
            stmt.deep_view(),
            old(stack).deep_view(),
            known_vars@,
        ),
        !r ==> final(stack).deep_view() == old(stack).deep_view(),
{
    let ghost before = stack.deep_view();
    let command = stmt.command.as_str();
    if same(command, "if") {
        let gate = extract_if_gate(&stmt.args, known_vars);
        stack.push(gate);
        proof {
            assert(stack.deep_view() =~= before.push(gate.deep_view()));
        }
        true
    } else if same(command, "elseif") {
        if stack.len() > 0 {
            let gate = extract_if_gate(&stmt.args, known_vars);
            let _ = stack.pop();
            stack.push(gate);
            proof {
                assert(stack.deep_view() =~= before.drop_last().push(gate.deep_view()));
            }
        }
        proof {
            assert(before.len() == old(stack)@.len());
        }
        true
    } else if same(command, "else") {
        if stack.len() > 0 {
            let _ = stack.pop();
            stack.push(None);
            proof {
                assert(stack.deep_view() =~= before.drop_last().push(None));
            }
        }
        proof {
            assert(before.len() == old(stack)@.len());
        }
        true
    } else if same(command, "endif") {
        let _ = stack.pop();
        proof {
            if before.len() > 0 {
                assert(stack.deep_view() =~= before.drop_last());
            } else {
                assert(stack.deep_view() =~= before);
            }
        }
        true
    } else {
        false
    }
}

/// Scan the `CMakeLists.txt` at `<dir>/<rel_dir>/CMakeLists.txt`, recursing
/// into `add_subdirectory(<path>)` invocations. All source paths recorded by
/// handlers are normalized relative to the project root. `nest` tells which
/// scripts are being scanned around it.
pub fn scan_cmake_file(
    cx: &ScanContext<'_>,
    rel_dir: &str,
    nest: &ScanNest,
    progress: &mut ScanProgress,
)
    ensures
        final(progress).model() == scan_file(
            cx.model(),
            rel_dir@,
            nest.model(),
            old(progress).model(),
        ),
    decreases
            files_besides(cx.model(), nest.model().open),
            files_besides(cx.model(), nest.model().chain),
            0nat,
            0nat,
{
    let ghost start = progress.model();
    let ghost inp = cx.model();
    proof {
        keys_are_entries(cx.dir.files);
    }
    let script = join_path(rel_dir, "CMakeLists.txt");
    if progress.visited.contains(script.as_str()) || nest.chain.contains(script.as_str()) {
        return;
    }
    let bytes = match cx.dir.get_file(script.as_str()) {
        Some(b) => b,
        None => {
            return;
        },
    };
    let _ = progress.visited.insert(script.as_str());
    let inner = nest.enter(script.as_str());
    let text = from_utf8_lossy(bytes.as_slice());
    let statements = join_statements(text.as_str());
    let ghost all = statements.deep_view();
    let ghost entered = progress.model();
    proof {
        one_file_less(inp, nest.model().open, script@);
        one_file_less(inp, nest.model().chain, script@);
        assert(entered =~= (ScanState { visited: start.visited.insert(script@), ..start }));
    }
    let mut if_stack: Vec<Option<String>> = Vec::new();
    let mut i: usize = 0;
    proof {
        assert(if_stack.deep_view() =~= seq![]);
        assert(all.skip(0) =~= all);
    }
    while i < statements.len()
        invariant
            inp == cx.model(),
            inp.dir.dom().finite(),
            all == statements.deep_view(),
            i <= statements@.len(),
            files_besides(inp, inner.model().open) <= files_besides(inp, nest.model().open),
            files_besides(inp, inner.model().chain) < files_besides(inp, nest.model().chain),
            scan_file(inp, rel_dir@, nest.model(), start) == run(
                inp,
                rel_dir@,
                all,
                seq![],
                inner.model(),
                entered,
            ),
            run(inp, rel_dir@, all, seq![], inner.model(), entered) == run(
                inp,
                rel_dir@,
                all.skip(i as int),
                if_stack.deep_view(),
                inner.model(),
                progress.model(),
            ),
            start == old(progress).model(),
        decreases statements@.len() - i,
    {
        let stmt = &statements[i];
        proof {
            assert(all.skip(i as int).skip(1) =~= all.skip(i + 1));
            assert(all.skip(i as int)[0] == stmt.deep_view());
        }
        if !track_branch(stmt, cx.known_vars, &mut if_stack) {
            let gate = innermost_gate(&if_stack);
            apply_command(cx, rel_dir, stmt, gate, &inner, progress);
        }
        i += 1;
    }
    proof {
        assert(all.skip(i as int) =~= seq![]);
    }
}

fn apply_command(
    cx: &ScanContext<'_>,
    rel_dir: &str,
    stmt: &Statement,
    inside_gate: Option<&str>,
    nest: &ScanNest,
    progress: &mut ScanProgress,
)
    ensures
        final(progress).model() == apply(
            cx.model(),
            rel_dir@,
            stmt.deep_view(),
            opt_view(inside_gate),
            nest.model(),
            old(progress).model(),
        ),
    decreases
            files_besides(cx.model(), nest.model().open),
            files_besides(cx.model(), nest.model().chain),
            4nat,
            0nat,
{
    proof {
        keys_are_entries(cx.dir.files);
    }
    let command = stmt.command.as_str();
    if same(command, "set") {
        handle_set(
            &stmt.args,
            cx.known_vars,
            rel_dir,
            &mut progress.out,
            &mut progress.source_lists,
            &mut progress.composed_vars,
        );
    } else if same(command, "option") {
        handle_option(&stmt.args, cx.known_vars, &mut progress.out);
    } else if same(command, "add_compile_definitions") {
        handle_add_compile_definitions(&stmt.args, cx.known_vars, &mut progress.out);
    } else if same(command, "add_definitions") {
        handle_add_definitions(&stmt.args, cx.known_vars, &mut progress.out, inside_gate);
    } else if same(command, "add_library") || same(command, "add_executable") {
        handle_target_definition(
            &stmt.args,
            cx.known_vars,
            &progress.source_lists,
            rel_dir,
            cx.files,
            inside_gate,
            &mut progress.out,
        );
    } else if same(command, "target_compile_definitions") {
        handle_target_compile_definitions(&stmt.args, inside_gate, &mut progress.out);
    } else if same(command, "add_subdirectory") {
        handle_add_subdirectory(cx, &stmt.args, rel_dir, nest, progress);
    }
}

/// Handle `add_subdirectory(<path>)`.
///
/// - **Literal path**: recursively scan `<rel_dir>/<path>/CMakeLists.txt`.
/// - **`${VAR}` reference**: for each declared value of `VAR` whose
///   `<rel_dir>/<value>/CMakeLists.txt` exists, scan it with a copy of the
///   surrounding source lists and composed variables and collect the fragment
///   into a [`SubdirSelection`]. Variants do not see one another's defines,
///   source lists, or targets.
pub fn handle_add_subdirectory(
    cx: &ScanContext<'_>,
    args: &Vec<String>,
    rel_dir: &str,
    nest: &ScanNest,
    progress: &mut ScanProgress,
)
    ensures
        final(progress).model() == subdirectory(
            cx.model(),
            rel_dir@,
            args.deep_view(),
            nest.model(),
            old(progress).model(),
        ),
    decreases
            files_besides(cx.model(), nest.model().open),
            files_besides(cx.model(), nest.model().chain),
            3nat,
            0nat,
{
    proof {
        keys_are_entries(cx.dir.files);
    }
    if args.len() == 0 {
        return;
    }
    let text = arg_text(args[0].as_str());
    proof {
        assert(args.deep_view()[0] == args@[0]@);
    }
    match as_single_var_ref(text.as_str()) {
        Some(var) => {
            if cx.known_vars.contains(var) {
                let values = match cx.var_values.get(var) {
                    Some(v) => v,
                    None => {
                        return;
                    },
                };
                let variants = scan_variants(cx, rel_dir, values, nest, progress);
                proof {
                    assert(variants.deep_view().len() == variants@.len());
                }
                if variants.len() > 0 {
                    let ghost before = progress.out.subdir_selections.deep_view();
                    let selection = SubdirSelection { driving_var: var.to_owned(), variants };
                    progress.out.subdir_selections.push(selection);
                    proof {
                        assert(selection.deep_view().variants =~= variants.deep_view());
                        assert(progress.out.subdir_selections.deep_view() =~= before.push(
                            selection.deep_view(),
                        ));
                    }
                }
                return;
            }
        },
        None => {},
    }
    match normalize_join(rel_dir, text.as_str()) {
        Some(child) => {
            scan_cmake_file(cx, child.as_str(), nest, progress);
        },
        None => {},
    }
}

fn scan_variants(
    cx: &ScanContext<'_>,
    rel_dir: &str,
    values: &Vec<String>,
    nest: &ScanNest,
    progress: &ScanProgress,
) -> (r: Vec<SubdirVariant>)
    ensures
        r.deep_view() == subdir_variants(
            cx.model(),
            rel_dir@,
            values.deep_view(),
            nest.model(),
            progress.model().scope,
        ),
    decreases
            files_besides(cx.model(), nest.model().open),
            files_besides(cx.model(), nest.model().chain),
            2nat,
            0nat,
{
    let ghost all = values.deep_view();
    let ghost inp = cx.model();
    let ghost scope = progress.model().scope;
    let mut out: Vec<SubdirVariant> = Vec::new();
    let mut i: usize = 0;
    proof {
        keys_are_entries(cx.dir.files);
        assert(out.deep_view() =~= seq![]);
    }
    while i < values.len()
        invariant
            inp == cx.model(),
            inp.dir.dom().finite(),
            scope == progress.model().scope,
            all == values.deep_view(),
            i <= values@.len(),
            subdir_variants(inp, rel_dir@, all.take(i as int), nest.model(), scope)
                == out.deep_view(),
        decreases values@.len() - i,
    {
        let value = values[i].as_str();
        let ghost before = out.deep_view();
        proof {
            assert(all.take(i + 1).drop_last() =~= all.take(i as int));
            assert(all.take(i + 1).last() == value@);
        }
        match normalize_join(rel_dir, value) {
            Some(child) => {
                let script = join_path(child.as_str(), "CMakeLists.txt");
                if cx.dir.get_file(script.as_str()).is_some() && !nest.open.contains(
                    script.as_str(),
                ) {
                    proof {
                        one_file_less(inp, nest.model().open, script@);
                    }
                    let inner = nest.begin_variant(script.as_str());
                    let v = scan_variant(cx, value, child, &inner, progress);
                    out.push(v);
                    proof {
                        assert(out.deep_view() =~= before.push(v.deep_view()));
                    }
                }
            },
            None => {},
        }
        i += 1;
    }
    proof {
        assert(all.take(i as int) =~= all);
    }
    out
}

fn scan_variant(
    cx: &ScanContext<'_>,
    value: &str,
    child: String,
    nest: &ScanNest,
    progress: &ScanProgress,
) -> (r: SubdirVariant)
    ensures
        r.deep_view() == variant_of(
            cx.model(),
            value@,
            child@,
            scan_file(
                cx.model(),
                child@,
                nest.model(),
                variant_start(progress.model().scope),
            ),
        ),
    decreases
            files_besides(cx.model(), nest.model().open),
            files_besides(cx.model(), nest.model().chain),
            1nat,
            0nat,
{
    let mut variant = progress.start_variant();
    scan_cmake_file(cx, child.as_str(), nest, &mut variant);
    let ghost end = variant.model();
    let ScanProgress { out, composed_vars, .. } = variant;
    let ScannedCmake {
        mut defines,
        source_selections,
        conditional_targets,
        subdir_selections,
        ..
    } = out;
    rewrite_composed_defines(&mut defines, &composed_vars, cx.known_vars);
    let r = SubdirVariant {
        value: value.to_owned(),
        path: child,
        defines,
        source_selections,
        conditional_targets,
        targets: Vec::new(),
        subdir_selections,
    };
    proof {
        assert(r.deep_view().subdir_selections =~= end.scope.out.subdir_selections);
        assert(r.deep_view().targets =~= seq![]);
    }
    r
}

fn scan_cmake(dir: &RawDir, config: &Configuration) -> (r: ScannedCmake)
    ensures
        r.deep_view() == scanned_cmake(scan_input(dir@, config.deep_view())),
{
    let known_vars = known_variables(config);
    let var_values = values_by_variable(config);
    let files = dir.file_paths();
    let cx = ScanContext { dir, known_vars: &known_vars, var_values: &var_values, files: &files };
    let mut progress = ScanProgress::start();
    proof {
        assert(cx.model() =~= scan_input(dir@, config.deep_view()));
    }
    scan_cmake_file(&cx, "", &ScanNest::new(), &mut progress);
    let ScanProgress { mut out, composed_vars, .. } = progress;
    rewrite_composed_defines(&mut out.defines, &composed_vars, &known_vars);
    out
}

/// The IR of a project whose `configuration.json` declares `config`. Without a
/// usable `configuration.json`, or without variables in it, the IR is empty.
pub fn scan_configured(dir: &RawDir, config: Option<&Configuration>) -> (r: BuildConfigIR)
    ensures
        r.deep_view() == scanned(dir@, config.deep_view()),
{
    let config = match config {
        Some(c) => c,
        None => {
            return BuildConfigIR::empty();
        },
    };
    proof {
        assert(config.deep_view().len() == config.variables@.len());
    }
    if config.variables.len() == 0 {
        return BuildConfigIR::empty();
    }
    let found = scan_cmake(dir, config);
    let variables = build_variables(config, &found.var_defaults);
    BuildConfigIR {
        variables,
        defines: found.defines,
        source_selections: found.source_selections,
        conditional_targets: found.conditional_targets,
        subdir_selections: found.subdir_selections,
        is_empty: false,
    }
}

/// What the `configuration.json` of a project declares.
pub open spec fn project_configuration(dir: Map<Seq<char>, Seq<u8>>) -> Option<
    Seq<(Seq<char>, Seq<ConfigValueView>)>,
> {
    if dir.dom().contains("configuration.json"@) {
        configuration_of(dir["configuration.json"@])
    } else {
        None
    }
}

/// Top-level entry point. Given the files of a project, produce a
/// [`BuildConfigIR`]. Never fails: without a usable `configuration.json`, or
/// without variables in it, the IR is empty.
pub fn scan(dir: &RawDir) -> (r: BuildConfigIR)
    ensures
        r.deep_view() == scanned(dir@, project_configuration(dir@)),
{
    let config = match dir.get_file("configuration.json") {
        Some(bytes) => parse_configuration_json(bytes.as_slice()),
        None => None,
    };
    scan_configured(dir, config.as_ref())
}

} // verus!
