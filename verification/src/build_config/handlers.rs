//! What each recognized CMake command contributes to the IR.
use crate::build_config::ir::{
    ConditionalTarget, ConditionalTargetView, DefineKind, DefineKindView, DefineMapping,
    DefineMappingView, SourceSelection, SourceSelectionView, SourceVariant, SourceVariantView,
    SubdirSelection, SubdirSelectionView,
};
use crate::build_config::lexer::{
    arg_text, arg_text_of, as_single_var_ref, find_var_refs, known_refs, known_refs_of,
    single_ref, substitute_var_template, template_of, var_refs,
};
use crate::names::{copy_strings, NameMap, NameSet};
use crate::order::{insert_ascending, is_listing, lex_ascending, lex_lt, listing, listing_is};
use crate::path::{prefix_source_path, prefixed};
use crate::text::{
    after_prefix, all_ident, before_suffix, contains_char, cut_at, ends_with, find, find_from,
    is_all_ident, opt_view, same, split_ascii_whitespace, split_once, strip_prefix, strip_suffix,
    trim, trimmed, words_from,
};
use vstd::prelude::*;

verus! {

/// Output of the CMake scanner: the partial IR plus the per-variable defaults
/// found in CMake.
#[derive(Debug)]
pub struct ScannedCmake {
    pub defines: Vec<DefineMapping>,
    pub source_selections: Vec<SourceSelection>,
    pub conditional_targets: Vec<ConditionalTarget>,
    pub subdir_selections: Vec<SubdirSelection>,
    /// Variable name to the default value parsed from CMake
    /// (`set(... CACHE ...)` or `option(...)`).
    pub var_defaults: NameMap<Option<String>>,
}

#[verifier::ext_equal]
pub ghost struct ScannedView {
    pub defines: Seq<DefineMappingView>,
    pub source_selections: Seq<SourceSelectionView>,
    pub conditional_targets: Seq<ConditionalTargetView>,
    pub subdir_selections: Seq<SubdirSelectionView>,
    pub var_defaults: Map<Seq<char>, Option<Seq<char>>>,
}

impl DeepView for ScannedCmake {
    type V = ScannedView;

    open spec fn deep_view(&self) -> ScannedView {
        ScannedView {
            defines: self.defines.deep_view(),
            source_selections: self.source_selections.deep_view(),
            conditional_targets: self.conditional_targets.deep_view(),
            subdir_selections: self.subdir_selections.deep_view(),
            var_defaults: self.var_defaults@,
        }
    }
}

impl ScannedView {
    /// Nothing scanned yet.
    pub open spec fn nothing() -> ScannedView {
        ScannedView {
            defines: seq![],
            source_selections: seq![],
            conditional_targets: seq![],
            subdir_selections: seq![],
            var_defaults: Map::empty(),
        }
    }

    /// With `more` after the defines.
    pub open spec fn with_defines(self, more: Seq<DefineMappingView>) -> ScannedView {
        ScannedView { defines: self.defines + more, ..self }
    }

    /// With the default of one variable set.
    pub open spec fn with_default(self, name: Seq<char>, default: Option<Seq<char>>) -> ScannedView {
        ScannedView { var_defaults: self.var_defaults.insert(name, default), ..self }
    }
}

impl ScannedCmake {
    pub fn new() -> (r: ScannedCmake)
        ensures
            r.deep_view() == ScannedView::nothing(),
    {
        let r = ScannedCmake {
            defines: Vec::new(),
            source_selections: Vec::new(),
            conditional_targets: Vec::new(),
            subdir_selections: Vec::new(),
            var_defaults: NameMap::new(),
        };
        proof {
            assert(r.deep_view() =~= ScannedView::nothing());
        }
        r
    }
}

// ---------------------------------------------------------------------------
// Defines
// ---------------------------------------------------------------------------

/// A define that carries the value of one variable.
pub open spec fn bare(c_name: Seq<char>, var: Seq<char>) -> DefineMappingView {
    DefineMappingView { c_name, kind: DefineKindView::Bare { var }, source_vars: seq![var] }
}

/// A define that carries the quoted value of one variable.
pub open spec fn quoted(c_name: Seq<char>, var: Seq<char>) -> DefineMappingView {
    DefineMappingView { c_name, kind: DefineKindView::QuotedString { var }, source_vars: seq![var] }
}

/// A define that is emitted when its gate is truthy.
pub open spec fn gated(c_name: Seq<char>, gate: Seq<char>) -> DefineMappingView {
    DefineMappingView {
        c_name,
        kind: DefineKindView::GatedFlag { gate_var: gate },
        source_vars: seq![gate],
    }
}

/// The define for a value that mentions two or more known variables.
pub open spec fn composed_define(
    c_name: Seq<char>,
    value: Seq<char>,
    known: Set<Seq<char>>,
) -> Option<DefineMappingView> {
    if known_refs_of(value, known).len() >= 2 {
        Some(
            DefineMappingView {
                c_name,
                kind: DefineKindView::Composed { template: template_of(value, known) },
                source_vars: known_refs_of(value, known),
            },
        )
    } else {
        None
    }
}

/// `s` is one reference to a known variable.
pub open spec fn known_single(s: Seq<char>, known: Set<Seq<char>>) -> Option<Seq<char>> {
    match single_ref(s) {
        Some(var) => if known.contains(var) {
            Some(var)
        } else {
            None
        },
        None => None,
    }
}

/// `s` without the double quotes that it starts and ends with.
pub open spec fn in_quotes(s: Seq<char>) -> Option<Seq<char>> {
    match after_prefix(s, "\""@) {
        Some(t) => before_suffix(t, "\""@),
        None => None,
    }
}

/// The body of a define argument: without a leading `-D`.
pub open spec fn define_body(text: Seq<char>) -> Seq<char> {
    match after_prefix(text, "-D"@) {
        Some(t) => t,
        None => text,
    }
}

/// What one argument of `add_compile_definitions` defines.
pub open spec fn compile_definition(arg: Seq<char>, known: Set<Seq<char>>) -> Option<
    DefineMappingView,
> {
    match cut_at(define_body(arg_text_of(arg)), '=') {
        Some((name, value)) => {
            let c_name = trimmed(name);
            let v = trimmed(value);
            let inner = match in_quotes(v) {
                Some(t) => known_single(t, known),
                None => None,
            };
            match inner {
                Some(var) => Some(quoted(c_name, var)),
                None => match known_single(v, known) {
                    Some(var) => Some(bare(c_name, var)),
                    None => composed_define(c_name, v, known),
                },
            }
        },
        None => None,
    }
}

/// What the arguments of `add_compile_definitions` define, in order.
pub open spec fn compile_definitions(args: Seq<Seq<char>>, known: Set<Seq<char>>) -> Seq<
    DefineMappingView,
>
    decreases args.len(),
{
    if args.len() == 0 {
        seq![]
    } else {
        let rest = compile_definitions(args.drop_last(), known);
        match compile_definition(args.last(), known) {
            Some(d) => rest.push(d),
            None => rest,
        }
    }
}

fn bare_define(c_name: &str, var: &str) -> (r: DefineMapping)
    ensures
        r.deep_view() == bare(c_name@, var@),
{
    let mut source_vars: Vec<String> = Vec::new();
    source_vars.push(var.to_owned());
    let r = DefineMapping {
        c_name: c_name.to_owned(),
        kind: DefineKind::Bare { var: var.to_owned() },
        source_vars,
    };
    proof {
        assert(r.deep_view() =~= bare(c_name@, var@));
    }
    r
}

fn quoted_define(c_name: &str, var: &str) -> (r: DefineMapping)
    ensures
        r.deep_view() == quoted(c_name@, var@),
{
    let mut source_vars: Vec<String> = Vec::new();
    source_vars.push(var.to_owned());
    let r = DefineMapping {
        c_name: c_name.to_owned(),
        kind: DefineKind::QuotedString { var: var.to_owned() },
        source_vars,
    };
    proof {
        assert(r.deep_view() =~= quoted(c_name@, var@));
    }
    r
}

fn gated_define(c_name: &str, gate: &str) -> (r: DefineMapping)
    ensures
        r.deep_view() == gated(c_name@, gate@),
{
    let mut source_vars: Vec<String> = Vec::new();
    source_vars.push(gate.to_owned());
    let r = DefineMapping {
        c_name: c_name.to_owned(),
        kind: DefineKind::GatedFlag { gate_var: gate.to_owned() },
        source_vars,
    };
    proof {
        assert(r.deep_view() =~= gated(c_name@, gate@));
    }
    r
}

fn define_composed(c_name: &str, value: &str, known_vars: &NameSet) -> (r: Option<DefineMapping>)
    ensures
        r.deep_view() == composed_define(c_name@, value@, known_vars@),
{
    let source_vars = known_refs(value, known_vars);
    proof {
        assert(source_vars.deep_view().len() == source_vars@.len());
    }
    if source_vars.len() >= 2 {
        Some(
            DefineMapping {
                c_name: c_name.to_owned(),
                kind: DefineKind::Composed { template: substitute_var_template(value, known_vars) },
                source_vars,
            },
        )
    } else {
        None
    }
}

fn known_single_ref<'a>(s: &'a str, known_vars: &NameSet) -> (r: Option<&'a str>)
    ensures
        opt_view(r) == known_single(s@, known_vars@),
{
    match as_single_var_ref(s) {
        Some(var) => if known_vars.contains(var) {
            Some(var)
        } else {
            None
        },
        None => None,
    }
}

fn without_dash_d<'a>(text: &'a str) -> (r: &'a str)
    ensures
        r@ == define_body(text@),
{
    match strip_prefix(text, "-D") {
        Some(t) => t,
        None => text,
    }
}

fn compile_definition_of(arg: &str, known_vars: &NameSet) -> (r: Option<DefineMapping>)
    ensures
        r.deep_view() == compile_definition(arg@, known_vars@),
{
    let text = arg_text(arg);
    let body = without_dash_d(text.as_str());
    let (name, value) = match split_once(body, '=') {
        Some(p) => p,
        None => {
            return None;
        },
    };
    let c_name = trim(name);
    let value = trim(value);
    let inner: Option<&str> = match strip_prefix(value, "\"") {
        Some(t) => match strip_suffix(t, "\"") {
            Some(u) => known_single_ref(u, known_vars),
            None => None,
        },
        None => None,
    };
    match inner {
        Some(var) => Some(quoted_define(c_name, var)),
        None => match known_single_ref(value, known_vars) {
            Some(var) => Some(bare_define(c_name, var)),
            None => define_composed(c_name, value, known_vars),
        },
    }
}

/// `add_compile_definitions(NAME=...)`: one define per argument whose value is
/// a quoted reference, a bare reference, or a composition of references to
/// known variables.
pub fn handle_add_compile_definitions(
    args: &Vec<String>,
    known_vars: &NameSet,
    out: &mut ScannedCmake,
)
    ensures
        final(out).deep_view() == old(out).deep_view().with_defines(
            compile_definitions(args.deep_view(), known_vars@),
        ),
{
    let ghost all = args.deep_view();
    let ghost start = out.deep_view();
    let mut i: usize = 0;
    proof {
        assert(start =~= start.with_defines(compile_definitions(all.take(0), known_vars@)));
    }
    while i < args.len()
        invariant
            all == args.deep_view(),
            i <= args@.len(),
            out.deep_view() == start.with_defines(
                compile_definitions(all.take(i as int), known_vars@),
            ),
        decreases args@.len() - i,
    {
        proof {
            assert(all.take(i + 1).drop_last() =~= all.take(i as int));
        }
        let ghost before = out.defines.deep_view();
        match compile_definition_of(args[i].as_str(), known_vars) {
            Some(d) => {
                out.defines.push(d);
                proof {
                    assert(out.defines.deep_view() =~= before.push(d.deep_view()));
                    assert(out.deep_view() =~= start.with_defines(
                        compile_definitions(all.take(i + 1), known_vars@),
                    ));
                }
            },
            None => {},
        }
        i += 1;
    }
    proof {
        assert(all.take(i as int) =~= all);
    }
}

/// What one argument of `add_definitions` defines inside `if(gate)`.
pub open spec fn plain_definition(
    arg: Seq<char>,
    known: Set<Seq<char>>,
    gate: Option<Seq<char>>,
) -> Option<DefineMappingView> {
    let body = define_body(arg_text_of(arg));
    match cut_at(body, '=') {
        None => match gate {
            Some(g) => Some(gated(body, g)),
            None => None,
        },
        Some((name, value)) => match known_single(trimmed(value), known) {
            Some(var) => Some(bare(trimmed(name), var)),
            None => None,
        },
    }
}

/// What the arguments of `add_definitions` define, in order.
pub open spec fn plain_definitions(
    args: Seq<Seq<char>>,
    known: Set<Seq<char>>,
    gate: Option<Seq<char>>,
) -> Seq<DefineMappingView>
    decreases args.len(),
{
    if args.len() == 0 {
        seq![]
    } else {
        let rest = plain_definitions(args.drop_last(), known, gate);
        match plain_definition(args.last(), known, gate) {
            Some(d) => rest.push(d),
            None => rest,
        }
    }
}

fn plain_definition_of(arg: &str, known_vars: &NameSet, inside_gate: Option<&str>) -> (r: Option<
    DefineMapping,
>)
    ensures
        r.deep_view() == plain_definition(arg@, known_vars@, opt_view(inside_gate)),
{
    let text = arg_text(arg);
    let body = without_dash_d(text.as_str());
    match split_once(body, '=') {
        None => match inside_gate {
            Some(gate) => Some(gated_define(body, gate)),
            None => None,
        },
        Some((name, value)) => match known_single_ref(trim(value), known_vars) {
            Some(var) => Some(bare_define(trim(name), var)),
            None => None,
        },
    }
}

/// `add_definitions(-DTAG)` under a recognized gate, or
/// `add_definitions(-DNAME=${VAR})`.
pub fn handle_add_definitions(
    args: &Vec<String>,
    known_vars: &NameSet,
    out: &mut ScannedCmake,
    inside_gate: Option<&str>,
)
    ensures
        final(out).deep_view() == old(out).deep_view().with_defines(
            plain_definitions(args.deep_view(), known_vars@, opt_view(inside_gate)),
        ),
{
    let ghost all = args.deep_view();
    let ghost gate = opt_view(inside_gate);
    let ghost start = out.deep_view();
    let mut i: usize = 0;
    proof {
        assert(start =~= start.with_defines(plain_definitions(all.take(0), known_vars@, gate)));
    }
    while i < args.len()
        invariant
            all == args.deep_view(),
            gate == opt_view(inside_gate),
            i <= args@.len(),
            out.deep_view() == start.with_defines(
                plain_definitions(all.take(i as int), known_vars@, gate),
            ),
        decreases args@.len() - i,
    {
        proof {
            assert(all.take(i + 1).drop_last() =~= all.take(i as int));
        }
        let ghost before = out.defines.deep_view();
        match plain_definition_of(args[i].as_str(), known_vars, inside_gate) {
            Some(d) => {
                out.defines.push(d);
                proof {
                    assert(out.defines.deep_view() =~= before.push(d.deep_view()));
                    assert(out.deep_view() =~= start.with_defines(
                        plain_definitions(all.take(i + 1), known_vars@, gate),
                    ));
                }
            },
            None => {},
        }
        i += 1;
    }
    proof {
        assert(all.take(i as int) =~= all);
    }
}

/// What one word of a flags value defines: `-DNAME=...` with a reference to a
/// known variable, to a composed CMake variable, or to several known
/// variables.
pub open spec fn flag_definition(
    token: Seq<char>,
    known: Set<Seq<char>>,
    composed: Map<Seq<char>, Seq<char>>,
) -> Option<DefineMappingView> {
    match after_prefix(token, "-D"@) {
        None => None,
        Some(body) => match cut_at(body, '=') {
            None => None,
            Some((name, value)) => {
                let c_name = trimmed(name);
                let v = trimmed(value);
                match single_ref(v) {
                    Some(var) => if known.contains(var) {
                        Some(bare(c_name, var))
                    } else if composed.dom().contains(var) {
                        composed_define(c_name, composed[var], known)
                    } else {
                        None
                    },
                    None => composed_define(c_name, v, known),
                }
            },
        },
    }
}

/// What the words of a flags value define, in order.
pub open spec fn flag_definitions(
    tokens: Seq<Seq<char>>,
    known: Set<Seq<char>>,
    composed: Map<Seq<char>, Seq<char>>,
) -> Seq<DefineMappingView>
    decreases tokens.len(),
{
    if tokens.len() == 0 {
        seq![]
    } else {
        let rest = flag_definitions(tokens.drop_last(), known, composed);
        match flag_definition(tokens.last(), known, composed) {
            Some(d) => rest.push(d),
            None => rest,
        }
    }
}

fn flag_definition_of(
    token: &str,
    known_vars: &NameSet,
    composed_vars: &NameMap<String>,
) -> (r: Option<DefineMapping>)
    ensures
        r.deep_view() == flag_definition(token@, known_vars@, composed_vars@),
{
    let body = match strip_prefix(token, "-D") {
        Some(b) => b,
        None => {
            return None;
        },
    };
    let (name, value) = match split_once(body, '=') {
        Some(p) => p,
        None => {
            return None;
        },
    };
    let c_name = trim(name);
    let value = trim(value);
    match as_single_var_ref(value) {
        Some(var) => {
            if known_vars.contains(var) {
                return Some(bare_define(c_name, var));
            }
            match composed_vars.get(var) {
                Some(composed_value) => define_composed(
                    c_name,
                    composed_value.as_str(),
                    known_vars,
                ),
                None => None,
            }
        },
        None => define_composed(c_name, value, known_vars),
    }
}

/// Extract `-DNAME=...` defines from a `set(CMAKE_*FLAGS ...)` rhs.
///
/// `composed_vars` carries previously-recorded composed CMake variables (e.g.
/// `BUILD_PROFILE` for `${BACKEND}_${WORD_SIZE}`). A single `${VAR}` ref that
/// points at one of those gives a `Composed` define right away.
pub fn extract_defines_from_flags(
    value: &str,
    known_vars: &NameSet,
    composed_vars: &NameMap<String>,
    defines: &mut Vec<DefineMapping>,
)
    ensures
        final(defines).deep_view() == old(defines).deep_view() + flag_definitions(
            words_from(value@, 0),
            known_vars@,
            composed_vars@,
        ),
{
    let tokens = split_ascii_whitespace(value);
    let ghost all = tokens.deep_view();
    let ghost start = defines.deep_view();
    let mut i: usize = 0;
    proof {
        assert(start =~= start + flag_definitions(all.take(0), known_vars@, composed_vars@));
    }
    while i < tokens.len()
        invariant
            all == tokens.deep_view(),
            i <= tokens@.len(),
            defines.deep_view() == start + flag_definitions(
                all.take(i as int),
                known_vars@,
                composed_vars@,
            ),
        decreases tokens@.len() - i,
    {
        proof {
            assert(all.take(i + 1).drop_last() =~= all.take(i as int));
        }
        let ghost before = defines.deep_view();
        match flag_definition_of(tokens[i].as_str(), known_vars, composed_vars) {
            Some(d) => {
                defines.push(d);
                proof {
                    assert(defines.deep_view() =~= before.push(d.deep_view()));
                    assert(defines.deep_view() =~= start + flag_definitions(
                        all.take(i + 1),
                        known_vars@,
                        composed_vars@,
                    ));
                }
            },
            None => {},
        }
        i += 1;
    }
    proof {
        assert(all.take(i as int) =~= all);
    }
}

/// The list holds the flag `c_name` guarded by `gate`.
pub open spec fn has_gated_flag(
    defines: Seq<DefineMappingView>,
    c_name: Seq<char>,
    gate: Seq<char>,
) -> bool {
    exists|i: int|
        0 <= i < defines.len() && (#[trigger] defines[i]).c_name == c_name && defines[i].kind
            == (DefineKindView::GatedFlag { gate_var: gate })
}

/// The defines after one argument of `target_compile_definitions` under
/// `gate`: a bare flag is added once per gate, keywords and `NAME=value` forms
/// are skipped.
pub open spec fn with_target_flag(
    defines: Seq<DefineMappingView>,
    arg: Seq<char>,
    gate: Seq<char>,
) -> Seq<DefineMappingView> {
    let text = arg_text_of(arg);
    if text == "PRIVATE"@ || text == "PUBLIC"@ || text == "INTERFACE"@ || text.contains('=')
        || has_gated_flag(defines, text, gate) {
        defines
    } else {
        defines.push(gated(text, gate))
    }
}

/// The defines after all arguments of `target_compile_definitions`.
pub open spec fn with_target_flags(
    defines: Seq<DefineMappingView>,
    args: Seq<Seq<char>>,
    gate: Seq<char>,
) -> Seq<DefineMappingView>
    decreases args.len(),
{
    if args.len() == 0 {
        defines
    } else {
        with_target_flag(with_target_flags(defines, args.drop_last(), gate), args.last(), gate)
    }
}

/// The effect of `target_compile_definitions(TARGET ...)`: nothing outside a
/// recognized gate.
pub open spec fn target_flags_effect(
    args: Seq<Seq<char>>,
    gate: Option<Seq<char>>,
    out: ScannedView,
) -> ScannedView {
    match gate {
        Some(g) => if args.len() > 0 {
            ScannedView { defines: with_target_flags(out.defines, args.skip(1), g), ..out }
        } else {
            out
        },
        None => out,
    }
}

fn holds_gated_flag(defines: &Vec<DefineMapping>, c_name: &str, gate: &str) -> (r: bool)
    ensures
        r == has_gated_flag(defines.deep_view(), c_name@, gate@),
{
    let ghost all = defines.deep_view();
    let mut i: usize = 0;
    while i < defines.len()
        invariant
            all == defines.deep_view(),
            i <= defines@.len(),
            forall|j: int|
                0 <= j < i ==> !((#[trigger] all[j]).c_name == c_name@ && all[j].kind == (
                DefineKindView::GatedFlag { gate_var: gate@ })),
        decreases defines@.len() - i,
    {
        if same(defines[i].c_name.as_str(), c_name) {
            match &defines[i].kind {
                DefineKind::GatedFlag { gate_var } => {
                    if same(gate_var.as_str(), gate) {
                        proof {
                            assert(all[i as int].c_name == c_name@);
                        }
                        return true;
                    }
                },
                _ => {},
            }
        }
        i += 1;
    }
    false
}

/// `target_compile_definitions(TARGET <KEYWORD> NAME [NAME ...])` inside a
/// recognized gate. The same name is not recorded twice for one gate.
pub fn handle_target_compile_definitions(
    args: &Vec<String>,
    inside_gate: Option<&str>,
    out: &mut ScannedCmake,
)
    ensures
        final(out).deep_view() == target_flags_effect(
            args.deep_view(),
            opt_view(inside_gate),
            old(out).deep_view(),
        ),
{
    let gate = match inside_gate {
        Some(g) => g,
        None => {
            return;
        },
    };
    if args.len() == 0 {
        return;
    }
    let ghost all = args.deep_view().skip(1);
    let ghost start = out.deep_view();
    let mut i: usize = 1;
    proof {
        assert(with_target_flags(start.defines, all.take(0), gate@) == start.defines);
    }
    while i < args.len()
        invariant
            all == args.deep_view().skip(1),
            1 <= i <= args@.len(),
            out.deep_view() == (ScannedView {
                defines: with_target_flags(start.defines, all.take(i - 1), gate@),
                ..start
            }),
        decreases args@.len() - i,
    {
        let text = arg_text(args[i].as_str());
        let ghost before = out.defines.deep_view();
        proof {
            assert(all.take(i as int).drop_last() =~= all.take(i - 1));
            assert(all.take(i as int).last() == args@[i as int]@);
        }
        let skip = same(text.as_str(), "PRIVATE") || same(text.as_str(), "PUBLIC") || same(
            text.as_str(),
            "INTERFACE",
        ) || contains_char(text.as_str(), '=') || holds_gated_flag(
            &out.defines,
            text.as_str(),
            gate,
        );
        if !skip {
            let d = gated_define(text.as_str(), gate);
            out.defines.push(d);
            proof {
                assert(out.defines.deep_view() =~= before.push(d.deep_view()));
            }
        }
        i += 1;
    }
    proof {
        assert(all.take(i - 1) =~= all);
    }
}

// ---------------------------------------------------------------------------
// set, option, if
// ---------------------------------------------------------------------------

/// The guard of an `if(...)` or `elseif(...)`: its first argument, where that
/// names a known variable.
pub open spec fn if_gate(args: Seq<Seq<char>>, known: Set<Seq<char>>) -> Option<Seq<char>> {
    if args.len() > 0 && known.contains(arg_text_of(args[0])) {
        Some(arg_text_of(args[0]))
    } else {
        None
    }
}

/// Extract the guard variable from an `if(...)`-like argument list. Returns
/// `Some(var)` only when the argument names a known configurable variable.
pub fn extract_if_gate(args: &Vec<String>, known_vars: &NameSet) -> (r: Option<String>)
    ensures
        r.deep_view() == if_gate(args.deep_view(), known_vars@),
{
    if args.len() == 0 {
        return None;
    }
    let name = arg_text(args[0].as_str());
    proof {
        assert(args.deep_view()[0] == args@[0]@);
    }
    if known_vars.contains(name.as_str()) {
        Some(name)
    } else {
        None
    }
}

/// The default that `option(VAR "doc" ...)` gives.
pub open spec fn option_default(args: Seq<Seq<char>>) -> Option<Seq<char>> {
    if args.len() > 2 {
        let t = arg_text_of(args[2]);
        if t == "ON"@ || t == "TRUE"@ || t == "YES"@ || t == "1"@ {
            Some("true"@)
        } else if t == "OFF"@ || t == "FALSE"@ || t == "NO"@ || t == "0"@ {
            Some("false"@)
        } else {
            None
        }
    } else {
        None
    }
}

/// The effect of `option(VAR "doc" [ON|OFF])`.
pub open spec fn option_effect(
    args: Seq<Seq<char>>,
    known: Set<Seq<char>>,
    out: ScannedView,
) -> ScannedView {
    if args.len() > 0 && known.contains(arg_text_of(args[0])) {
        out.with_default(arg_text_of(args[0]), option_default(args))
    } else {
        out
    }
}

/// `option(VAR "doc" ON|OFF)`: the default is the third argument if present.
pub fn handle_option(args: &Vec<String>, known_vars: &NameSet, out: &mut ScannedCmake)
    ensures
        final(out).deep_view() == option_effect(
            args.deep_view(),
            known_vars@,
            old(out).deep_view(),
        ),
{
    if args.len() == 0 {
        return;
    }
    let name = arg_text(args[0].as_str());
    proof {
        assert(args.deep_view()[0] == args@[0]@);
    }
    if !known_vars.contains(name.as_str()) {
        return;
    }
    let default: Option<String> = if args.len() > 2 {
        let t = arg_text(args[2].as_str());
        proof {
            assert(args.deep_view()[2] == args@[2]@);
        }
        if same(t.as_str(), "ON") || same(t.as_str(), "TRUE") || same(t.as_str(), "YES") || same(
            t.as_str(),
            "1",
        ) {
            Some("true".to_owned())
        } else if same(t.as_str(), "OFF") || same(t.as_str(), "FALSE") || same(t.as_str(), "NO")
            || same(t.as_str(), "0") {
            Some("false".to_owned())
        } else {
            None
        }
    } else {
        None
    };
    out.var_defaults.insert(name.as_str(), default);
}

/// The accumulated state of a scan apart from the visited files.
#[verifier::ext_equal]
pub ghost struct Scope {
    pub out: ScannedView,
    pub source_lists: Map<Seq<char>, Seq<Seq<char>>>,
    pub composed: Map<Seq<char>, Seq<char>>,
}

/// Some argument is the word `CACHE`.
pub open spec fn has_cache(args: Seq<Seq<char>>) -> bool {
    exists|i: int| 0 <= i < args.len() && arg_text_of(#[trigger] args[i]) == "CACHE"@
}

/// The default that `set(VAR "value" CACHE ...)` gives.
pub open spec fn cache_default(args: Seq<Seq<char>>) -> Option<Seq<char>> {
    if args.len() > 1 && arg_text_of(args[1]).len() > 0 {
        Some(arg_text_of(args[1]))
    } else {
        None
    }
}

/// The paths of `args`, seen from `rel_dir`.
pub open spec fn source_paths(args: Seq<Seq<char>>, rel_dir: Seq<char>) -> Seq<Seq<char>> {
    Seq::new(args.len(), |i: int| prefixed(rel_dir, arg_text_of(args[i])))
}

/// The effect of `set(NAME ...)`: in this order, a default for a cached known
/// variable, defines in a flags variable, a source list, or a composed value.
pub open spec fn set_effect(
    args: Seq<Seq<char>>,
    known: Set<Seq<char>>,
    rel_dir: Seq<char>,
    sc: Scope,
) -> Scope {
    if args.len() == 0 {
        sc
    } else {
        let name = arg_text_of(args[0]);
        if known.contains(name) && has_cache(args) {
            Scope { out: sc.out.with_default(name, cache_default(args)), ..sc }
        } else if name == "CMAKE_C_FLAGS"@ || name == "CMAKE_CXX_FLAGS"@ {
            if args.len() > 1 {
                Scope {
                    out: sc.out.with_defines(
                        flag_definitions(words_from(arg_text_of(args[1]), 0), known, sc.composed),
                    ),
                    ..sc
                }
            } else {
                sc
            }
        } else if "_SOURCES"@.is_suffix_of(name) {
            Scope {
                source_lists: sc.source_lists.insert(name, source_paths(args.skip(1), rel_dir)),
                ..sc
            }
        } else if args.len() > 1 && known_refs_of(arg_text_of(args[1]), known).len() > 0 {
            Scope { composed: sc.composed.insert(name, arg_text_of(args[1])), ..sc }
        } else {
            sc
        }
    }
}

fn mentions_cache(args: &Vec<String>) -> (r: bool)
    ensures
        r == has_cache(args.deep_view()),
{
    let ghost all = args.deep_view();
    let mut i: usize = 0;
    while i < args.len()
        invariant
            all == args.deep_view(),
            i <= args@.len(),
            forall|j: int| 0 <= j < i ==> arg_text_of(#[trigger] all[j]) != "CACHE"@,
        decreases args@.len() - i,
    {
        if same(arg_text(args[i].as_str()).as_str(), "CACHE") {
            proof {
                assert(arg_text_of(all[i as int]) == "CACHE"@);
            }
            return true;
        }
        i += 1;
    }
    false
}

fn collect_source_paths(args: &Vec<String>, rel_dir: &str) -> (r: Vec<String>)
    requires
        args@.len() > 0,
    ensures
        r.deep_view() == source_paths(args.deep_view().skip(1), rel_dir@),
{
    let ghost want = source_paths(args.deep_view().skip(1), rel_dir@);
    let mut out: Vec<String> = Vec::new();
    let mut i: usize = 1;
    while i < args.len()
        invariant
            1 <= i <= args@.len(),
            want == source_paths(args.deep_view().skip(1), rel_dir@),
            out@.len() == i - 1,
            forall|j: int| 0 <= j < i - 1 ==> (#[trigger] out@[j])@ == want[j],
        decreases args@.len() - i,
    {
        let text = arg_text(args[i].as_str());
        out.push(prefix_source_path(rel_dir, text.as_str()));
        i += 1;
    }
    proof {
        assert(out.deep_view() =~= want);
    }
    out
}

/// Handle `set(NAME ...)`:
///
/// - `set(VAR "value" CACHE STRING "doc")` for a known variable: its default.
/// - `set(CMAKE_C_FLAGS "${CMAKE_C_FLAGS} -DFOO=${VAR}")`: a define for every
///   recognized `-DNAME=...`.
/// - `set(NAME_SOURCES path/with_${VAR}.c)`: a source list, with paths relative
///   to the project root.
/// - `set(BUILD_PROFILE "${BACKEND}_${WORD_SIZE}")`: a composed value.
pub fn handle_set(
    args: &Vec<String>,
    known_vars: &NameSet,
    rel_dir: &str,
    out: &mut ScannedCmake,
    source_lists: &mut NameMap<Vec<String>>,
    composed_vars: &mut NameMap<String>,
)
    ensures
        (Scope {
            out: final(out).deep_view(),
            source_lists: final(source_lists)@,
            composed: final(composed_vars)@,
        }) == set_effect(
            args.deep_view(),
            known_vars@,
            rel_dir@,
            Scope {
                out: old(out).deep_view(),
                source_lists: old(source_lists)@,
                composed: old(composed_vars)@,
            },
        ),
{
    if args.len() == 0 {
        return;
    }
    let name = arg_text(args[0].as_str());
    proof {
        assert(args.deep_view()[0] == args@[0]@);
        assert(args@.len() > 1 ==> args.deep_view()[1] == args@[1]@);
    }
    if known_vars.contains(name.as_str()) && mentions_cache(args) {
        let default: Option<String> = if args.len() > 1 {
            let t = arg_text(args[1].as_str());
            if t.as_str().is_empty() {
                None
            } else {
                Some(t)
            }
        } else {
            None
        };
        out.var_defaults.insert(name.as_str(), default);
        return;
    }
    if same(name.as_str(), "CMAKE_C_FLAGS") || same(name.as_str(), "CMAKE_CXX_FLAGS") {
        if args.len() > 1 {
            let value = arg_text(args[1].as_str());
            extract_defines_from_flags(
                value.as_str(),
                known_vars,
                composed_vars,
                &mut out.defines,
            );
        }
        return;
    }
    if ends_with(name.as_str(), "_SOURCES") {
        let values = collect_source_paths(args, rel_dir);
        source_lists.insert(name.as_str(), values);
        return;
    }
    if args.len() > 1 {
        let value = arg_text(args[1].as_str());
        let names = known_refs(value.as_str(), known_vars);
        proof {
            assert(names.deep_view().len() == names@.len());
        }
        if names.len() > 0 {
            composed_vars.insert(name.as_str(), value);
        }
    }
}

// ---------------------------------------------------------------------------
// Targets
// ---------------------------------------------------------------------------

/// The words of a target declaration that name no source.
pub open spec fn target_keyword(t: Seq<char>) -> bool {
    t == "STATIC"@ || t == "SHARED"@ || t == "MODULE"@ || t == "INTERFACE"@ || t == "OBJECT"@ || t
        == "EXCLUDE_FROM_ALL"@
}

/// The recorded source list that an argument text expands to.
pub open spec fn expansion(t: Seq<char>, lists: Map<Seq<char>, Seq<Seq<char>>>) -> Option<
    Seq<Seq<char>>,
> {
    match single_ref(t) {
        Some(var) => if lists.dom().contains(var) {
            Some(lists[var])
        } else {
            None
        },
        None => None,
    }
}

/// The files that the arguments of a target declaration name, in order.
pub open spec fn target_files(
    args: Seq<Seq<char>>,
    lists: Map<Seq<char>, Seq<Seq<char>>>,
    rel_dir: Seq<char>,
) -> Seq<Seq<char>>
    decreases args.len(),
{
    if args.len() == 0 {
        seq![]
    } else {
        let rest = target_files(args.drop_last(), lists, rel_dir);
        let t = arg_text_of(args.last());
        if target_keyword(t) {
            rest
        } else {
            match expansion(t, lists) {
                Some(sources) => rest + sources,
                None => rest.push(prefixed(rel_dir, t)),
            }
        }
    }
}

/// The last known variable that the sources mention, or `start`.
pub open spec fn last_known(
    sources: Seq<Seq<char>>,
    known: Set<Seq<char>>,
    start: Option<Seq<char>>,
) -> Option<Seq<char>>
    decreases sources.len(),
{
    if sources.len() == 0 {
        start
    } else {
        let names = known_refs_of(sources.last(), known);
        if names.len() > 0 {
            Some(names.last())
        } else {
            last_known(sources.drop_last(), known, start)
        }
    }
}

/// The variable that drives the sources of a target: the last known one that
/// an expanded source list mentions.
pub open spec fn driving_variable(
    args: Seq<Seq<char>>,
    lists: Map<Seq<char>, Seq<Seq<char>>>,
    known: Set<Seq<char>>,
) -> Option<Seq<char>>
    decreases args.len(),
{
    if args.len() == 0 {
        None
    } else {
        let before = driving_variable(args.drop_last(), lists, known);
        let t = arg_text_of(args.last());
        if target_keyword(t) {
            before
        } else {
            match expansion(t, lists) {
                Some(sources) => last_known(sources, known, before),
                None => before,
            }
        }
    }
}

/// `s` refers to the variable `name`.
pub open spec fn mentions(s: Seq<char>, name: Seq<char>) -> bool {
    exists|i: int| 0 <= i < var_refs(s).len() && (#[trigger] var_refs(s)[i]).2 == name
}

/// The first file that refers to `name`, or the empty text.
pub open spec fn first_mention(files: Seq<Seq<char>>, name: Seq<char>) -> Seq<char>
    decreases files.len(),
{
    if files.len() == 0 {
        seq![]
    } else if mentions(files[0], name) {
        files[0]
    } else {
        first_mention(files.skip(1), name)
    }
}

/// The text `${name}`.
pub open spec fn placeholder(name: Seq<char>) -> Seq<char> {
    "${"@ + name + "}"@
}

/// The values of `var` for which `pattern`, with its first `${var}` replaced
/// by the value, is one of `files`.
pub open spec fn variant_values(
    pattern: Seq<char>,
    var: Seq<char>,
    files: Set<Seq<char>>,
) -> Set<Seq<char>> {
    match find_from(pattern, placeholder(var), 0) {
        Some(k) => Set::new(
            |v: Seq<char>|
                v.len() > 0 && all_ident(v) && files.contains(
                    pattern.take(k) + v + pattern.skip(k + placeholder(var).len()),
                ),
        ),
        None => Set::empty(),
    }
}

/// One variant per value, in the order of the values.
pub open spec fn source_variants(
    pattern: Seq<char>,
    var: Seq<char>,
    files: Set<Seq<char>>,
) -> Seq<SourceVariantView> {
    match find_from(pattern, placeholder(var), 0) {
        Some(k) => {
            let values = listing(variant_values(pattern, var, files));
            Seq::new(
                values.len(),
                |i: int|
                    SourceVariantView {
                        value: values[i],
                        files: seq![
                            pattern.take(k) + values[i] + pattern.skip(k + placeholder(var).len()),
                        ],
                    },
            )
        },
        None => seq![],
    }
}

/// The files that exist, in order.
pub open spec fn existing(names: Seq<Seq<char>>, files: Set<Seq<char>>) -> Seq<Seq<char>>
    decreases names.len(),
{
    if names.len() == 0 {
        seq![]
    } else {
        let rest = existing(names.drop_last(), files);
        if files.contains(names.last()) {
            rest.push(names.last())
        } else {
            rest
        }
    }
}

/// The effect of `add_library(...)` and `add_executable(...)`.
pub open spec fn target_effect(
    args: Seq<Seq<char>>,
    known: Set<Seq<char>>,
    lists: Map<Seq<char>, Seq<Seq<char>>>,
    rel_dir: Seq<char>,
    files: Set<Seq<char>>,
    gate: Option<Seq<char>>,
    out: ScannedView,
) -> ScannedView {
    if args.len() == 0 {
        out
    } else {
        let target = arg_text_of(args[0]);
        let names = target_files(args.skip(1), lists, rel_dir);
        let variants = match driving_variable(args.skip(1), lists, known) {
            Some(var) => source_variants(first_mention(names, var), var, files),
            None => seq![],
        };
        if variants.len() > 0 {
            ScannedView {
                source_selections: out.source_selections.push(
                    SourceSelectionView {
                        target,
                        driving_var: driving_variable(args.skip(1), lists, known)->0,
                        variants,
                    },
                ),
                ..out
            }
        } else {
            match gate {
                Some(g) => if existing(names, files).len() > 0 {
                    ScannedView {
                        conditional_targets: out.conditional_targets.push(
                            ConditionalTargetView {
                                target,
                                gate_var: g,
                                files: existing(names, files),
                            },
                        ),
                        ..out
                    }
                } else {
                    out
                },
                None => out,
            }
        }
    }
}

fn is_target_keyword(t: &str) -> (r: bool)
    ensures
        r == target_keyword(t@),
{
    same(t, "STATIC") || same(t, "SHARED") || same(t, "MODULE") || same(t, "INTERFACE") || same(
        t,
        "OBJECT",
    ) || same(t, "EXCLUDE_FROM_ALL")
}

fn expand<'a>(t: &str, source_lists: &'a NameMap<Vec<String>>) -> (r: Option<&'a Vec<String>>)
    ensures
        match r {
            Some(v) => expansion(t@, source_lists@) == Some(v.deep_view()),
            None => expansion(t@, source_lists@) is None,
        },
{
    match as_single_var_ref(t) {
        Some(var) => source_lists.get(var),
        None => None,
    }
}

fn last_known_of(
    sources: &Vec<String>,
    known_vars: &NameSet,
    start: Option<String>,
) -> (r: Option<String>)
    ensures
        r.deep_view() == last_known(sources.deep_view(), known_vars@, start.deep_view()),
{
    let ghost all = sources.deep_view();
    let mut n: usize = sources.len();
    proof {
        assert(all.take(n as int) =~= all);
    }
    while n > 0
        invariant
            all == sources.deep_view(),
            n <= sources@.len(),
            last_known(all, known_vars@, start.deep_view()) == last_known(
                all.take(n as int),
                known_vars@,
                start.deep_view(),
            ),
        decreases n,
    {
        let names = known_refs(sources[n - 1].as_str(), known_vars);
        proof {
            assert(all.take(n as int).drop_last() =~= all.take(n - 1));
            assert(names.deep_view().len() == names@.len());
        }
        if names.len() > 0 {
            let last = names[names.len() - 1].as_str().to_owned();
            proof {
                assert(names.deep_view().last() == last@);
            }
            return Some(last);
        }
        n -= 1;
    }
    start
}

fn mentions_var(s: &str, name: &str) -> (r: bool)
    ensures
        r == mentions(s@, name@),
{
    let refs = find_var_refs(s);
    let ghost all = refs.deep_view();
    let mut i: usize = 0;
    while i < refs.len()
        invariant
            all == refs.deep_view(),
            all == var_refs(s@),
            i <= refs@.len(),
            forall|j: int| 0 <= j < i ==> (#[trigger] all[j]).2 != name@,
        decreases refs@.len() - i,
    {
        proof {
            assert(all[i as int] == refs@[i as int].deep_view());
        }
        if same(refs[i].2.as_str(), name) {
            proof {
                assert(var_refs(s@)[i as int].2 == name@);
            }
            return true;
        }
        i += 1;
    }
    false
}

fn first_mention_of(files: &Vec<String>, name: &str) -> (r: String)
    ensures
        r@ == first_mention(files.deep_view(), name@),
{
    let ghost all = files.deep_view();
    let mut i: usize = 0;
    proof {
        assert(all.skip(0) =~= all);
    }
    while i < files.len()
        invariant
            all == files.deep_view(),
            i <= files@.len(),
            first_mention(all.skip(i as int), name@) == first_mention(all, name@),
        decreases files@.len() - i,
    {
        proof {
            assert(all.skip(i as int).skip(1) =~= all.skip(i + 1));
            assert(all.skip(i as int)[0] == files@[i as int]@);
        }
        if mentions_var(files[i].as_str(), name) {
            return files[i].as_str().to_owned();
        }
        i += 1;
    }
    let r = String::new();
    proof {
        assert(r@ =~= seq![]);
    }
    r
}

/// The value between `prefix` and `suffix` in `path`, if it is a non-empty
/// identifier.
fn value_between(path: &str, prefix: &str, suffix: &str) -> (r: Option<String>)
    ensures
        match r {
            Some(v) => v@.len() > 0 && all_ident(v@) && path@ == prefix@ + v@ + suffix@,
            None => forall|v: Seq<char>|
                v.len() > 0 && #[trigger] all_ident(v) ==> path@ != prefix@ + v + suffix@,
        },
{
    let rest = match strip_prefix(path, prefix) {
        Some(t) => t,
        None => {
            proof {
                assert forall|v: Seq<char>| #[trigger] all_ident(v) implies path@ != prefix@ + v
                    + suffix@ by {
                    assert((prefix@ + v + suffix@).subrange(0, prefix@.len() as int) =~= prefix@);
                }
            }
            return None;
        },
    };
    let value = match strip_suffix(rest, suffix) {
        Some(t) => t,
        None => {
            proof {
                assert forall|v: Seq<char>| #[trigger] all_ident(v) implies path@ != prefix@ + v
                    + suffix@ by {
                    let w = prefix@ + v + suffix@;
                    assert(w.skip(prefix@.len() as int) =~= v + suffix@);
                    assert((v + suffix@).subrange(
                        v.len() as int,
                        (v + suffix@).len() as int,
                    ) =~= suffix@);
                }
            }
            return None;
        },
    };
    proof {
        assert(path@ =~= prefix@ + rest@);
        assert(rest@ =~= value@ + suffix@);
        assert(path@ =~= prefix@ + value@ + suffix@);
    }
    if !value.is_empty() && is_all_ident(value) {
        Some(value.to_owned())
    } else {
        proof {
            assert forall|v: Seq<char>| v.len() > 0 && #[trigger] all_ident(v) implies path@
                != prefix@ + v + suffix@ by {
                let w = prefix@ + v + suffix@;
                if path@ == w {
                    assert(v =~= w.subrange(prefix@.len() as int, w.len() - suffix@.len()));
                    assert(value@ =~= path@.subrange(
                        prefix@.len() as int,
                        path@.len() - suffix@.len(),
                    ));
                }
            }
        }
        None
    }
}

/// `v` is a non-empty identifier that one of `paths` holds between `prefix` and
/// `suffix`.
spec fn fits(paths: Seq<Seq<char>>, prefix: Seq<char>, suffix: Seq<char>, v: Seq<char>) -> bool {
    v.len() > 0 && all_ident(v) && paths.contains(prefix + v + suffix)
}

/// Given a pattern like `src/backend_${BACKEND}.c`, enumerate concrete
/// `(value, files)` pairs by probing every known file in the project.
pub fn enumerate_variants(pattern: &str, driving_var: &str, files: &NameSet) -> (r: Vec<
    SourceVariant,
>)
    ensures
        r.deep_view() == source_variants(pattern@, driving_var@, files@),
        find_from(pattern@, placeholder(driving_var@), 0) is Some ==> is_listing(
            variant_values(pattern@, driving_var@, files@),
            r@.map_values(|v: SourceVariant| v.value@),
        ),
        forall|i: int, j: int|
            0 <= i < j < r@.len() ==> lex_lt((#[trigger] r@[i]).value@, (#[trigger] r@[j]).value@),
        forall|i: int|
            0 <= i < r@.len() ==> (#[trigger] r@[i]).files@.len() == 1 && files@.contains(
                r@[i].files@[0]@,
            ),
{
    let mut needle = "${".to_owned();
    needle.push_str(driving_var);
    needle.push_str("}");
    let k: usize = match find(pattern, needle.as_str()) {
        Some(k) => k,
        None => {
            let r: Vec<SourceVariant> = Vec::new();
            proof {
                assert(r.deep_view() =~= seq![]);
            }
            return r;
        },
    };
    let prefix = pattern.substring_char(0, k);
    let total: usize = pattern.unicode_len();
    let suffix = pattern.substring_char(k + needle.as_str().unicode_len(), total);
    proof {
        assert(prefix@ =~= pattern@.take(k as int));
        assert(suffix@ =~= pattern@.skip(k + placeholder(driving_var@).len()));
    }
    let ghost want = variant_values(pattern@, driving_var@, files@);
    let ghost paths = files.names.deep_view();
    let mut values: Vec<String> = Vec::new();
    let mut i: usize = 0;
    while i < files.names.len()
        invariant
            paths == files.names.deep_view(),
            i <= files.names@.len(),
            lex_ascending(values.deep_view()),
            forall|v: Seq<char>| #[trigger]
                values.deep_view().contains(v) == fits(paths.take(i as int), prefix@, suffix@, v),
        decreases files.names@.len() - i,
    {
        let path = files.names[i].as_str();
        let ghost before = values.deep_view();
        proof {
            assert(paths.take(i + 1) =~= paths.take(i as int).push(path@));
        }
        match value_between(path, prefix, suffix) {
            Some(v) => {
                insert_ascending(&mut values, v.as_str());
                proof {
                    assert forall|w: Seq<char>| #[trigger]
                        values.deep_view().contains(w) == fits(
                            paths.take(i + 1),
                            prefix@,
                            suffix@,
                            w,
                        ) by {
                        push_contains(paths.take(i as int), path@, prefix@ + w + suffix@);
                        if path@ == prefix@ + w + suffix@ {
                            assert(w =~= path@.subrange(
                                prefix@.len() as int,
                                path@.len() - suffix@.len(),
                            ));
                            assert(v@ =~= path@.subrange(
                                prefix@.len() as int,
                                path@.len() - suffix@.len(),
                            ));
                        }
                    }
                }
            },
            None => {
                proof {
                    assert forall|w: Seq<char>| #[trigger]
                        values.deep_view().contains(w) == fits(
                            paths.take(i + 1),
                            prefix@,
                            suffix@,
                            w,
                        ) by {
                        push_contains(paths.take(i as int), path@, prefix@ + w + suffix@);
                    }
                }
            },
        }
        i += 1;
    }
    proof {
        assert(paths.take(i as int) =~= paths);
        assert forall|v: Seq<char>| #[trigger]
            values.deep_view().contains(v) == want.contains(v) by {
            assert(values.deep_view().contains(v) == fits(paths, prefix@, suffix@, v));
        }
        assert(is_listing(want, values.deep_view()));
        listing_is(want, values.deep_view());
    }
    let ghost all = values.deep_view();
    let ghost result = source_variants(pattern@, driving_var@, files@);
    let mut out: Vec<SourceVariant> = Vec::new();
    let mut j: usize = 0;
    while j < values.len()
        invariant
            all == values.deep_view(),
            result.len() == all.len(),
            forall|m: int|
                0 <= m < all.len() ==> (#[trigger] result[m]) == (SourceVariantView {
                    value: all[m],
                    files: seq![prefix@ + all[m] + suffix@],
                }),
            j <= values@.len(),
            out@.len() == j,
            forall|m: int| 0 <= m < j ==> (#[trigger] out@[m]).deep_view() == result[m],
            forall|m: int|
                0 <= m < j ==> (#[trigger] out@[m]).value@ == all[m] && out@[m].files@.len() == 1
                    && out@[m].files@[0]@ == prefix@ + all[m] + suffix@,
        decreases values@.len() - j,
    {
        let value = values[j].as_str();
        let mut path = prefix.to_owned();
        path.push_str(value);
        path.push_str(suffix);
        let mut one: Vec<String> = Vec::new();
        one.push(path);
        proof {
            assert(one.deep_view() =~= seq![prefix@ + value@ + suffix@]);
        }
        out.push(SourceVariant { value: value.to_owned(), files: one });
        j += 1;
    }
    proof {
        assert(out.deep_view() =~= result);
        assert(out@.map_values(|v: SourceVariant| v.value@) =~= all);
        assert forall|m: int| 0 <= m < out@.len() implies (#[trigger] out@[m]).files@.len() == 1
            && files@.contains(out@[m].files@[0]@) by {
            assert(all.contains(all[m]));
            assert(want.contains(all[m]));
        }
    }
    out
}

proof fn push_contains(s: Seq<Seq<char>>, x: Seq<char>, y: Seq<char>)
    ensures
        s.push(x).contains(y) == (s.contains(y) || x == y),
{
    if s.contains(y) {
        let k = choose|k: int| 0 <= k < s.len() && s[k] == y;
        assert(s.push(x)[k] == y);
    }
    assert(s.push(x)[s.len() as int] == x);
    if s.push(x).contains(y) && x != y {
        let k = choose|k: int| 0 <= k < s.push(x).len() && s.push(x)[k] == y;
        assert(s[k] == y);
    }
}

fn existing_files(names: &Vec<String>, files: &NameSet) -> (r: Vec<String>)
    ensures
        r.deep_view() == existing(names.deep_view(), files@),
{
    let ghost all = names.deep_view();
    let mut out: Vec<String> = Vec::new();
    let mut i: usize = 0;
    proof {
        assert(out.deep_view() =~= existing(all.take(0), files@));
    }
    while i < names.len()
        invariant
            all == names.deep_view(),
            i <= names@.len(),
            out.deep_view() == existing(all.take(i as int), files@),
        decreases names@.len() - i,
    {
        let ghost before = out.deep_view();
        proof {
            assert(all.take(i + 1).drop_last() =~= all.take(i as int));
        }
        if files.contains(names[i].as_str()) {
            out.push(names[i].as_str().to_owned());
            proof {
                assert(out.deep_view() =~= before.push(names@[i as int]@));
            }
        }
        i += 1;
    }
    proof {
        assert(all.take(i as int) =~= all);
    }
    out
}

/// Handle `add_library(...)` and `add_executable(...)`. A target whose
/// expanded source lists mention a known variable becomes a source selection
/// when its pattern matches files; otherwise a target inside a recognized gate
/// becomes a conditional target with its existing files.
pub fn handle_target_definition(
    args: &Vec<String>,
    known_vars: &NameSet,
    source_lists: &NameMap<Vec<String>>,
    rel_dir: &str,
    files: &NameSet,
    inside_gate: Option<&str>,
    out: &mut ScannedCmake,
)
    ensures
        final(out).deep_view() == target_effect(
            args.deep_view(),
            known_vars@,
            source_lists@,
            rel_dir@,
            files@,
            opt_view(inside_gate),
            old(out).deep_view(),
        ),
{
    if args.len() == 0 {
        return;
    }
    let ghost start = out.deep_view();
    let target = arg_text(args[0].as_str());
    let ghost rest = args.deep_view().skip(1);
    proof {
        assert(args.deep_view()[0] == args@[0]@);
    }
    let mut file_args: Vec<String> = Vec::new();
    let mut driving_var: Option<String> = None;
    let mut i: usize = 1;
    proof {
        assert(file_args.deep_view() =~= target_files(rest.take(0), source_lists@, rel_dir@));
    }
    while i < args.len()
        invariant
            rest == args.deep_view().skip(1),
            1 <= i <= args@.len(),
            file_args.deep_view() == target_files(rest.take(i - 1), source_lists@, rel_dir@),
            driving_var.deep_view() == driving_variable(
                rest.take(i - 1),
                source_lists@,
                known_vars@,
            ),
        decreases args@.len() - i,
    {
        let text = arg_text(args[i].as_str());
        let ghost before = file_args.deep_view();
        proof {
            assert(rest.take(i as int).drop_last() =~= rest.take(i - 1));
            assert(rest.take(i as int).last() == args@[i as int]@);
        }
        if is_target_keyword(text.as_str()) {
        } else {
            match expand(text.as_str(), source_lists) {
                Some(sources) => {
                    driving_var = last_known_of(sources, known_vars, driving_var);
                    let mut more = copy_strings(sources);
                    let ghost added = more.deep_view();
                    file_args.append(&mut more);
                    proof {
                        assert(file_args.deep_view() =~= before + added);
                    }
                },
                None => {
                    let p = prefix_source_path(rel_dir, text.as_str());
                    file_args.push(p);
                    proof {
                        assert(file_args.deep_view() =~= before.push(p@));
                    }
                },
            }
        }
        i += 1;
    }
    proof {
        assert(rest.take(i - 1) =~= rest);
    }
    match driving_var {
        Some(var) => {
            let pattern = first_mention_of(&file_args, var.as_str());
            let variants = enumerate_variants(pattern.as_str(), var.as_str(), files);
            proof {
                assert(variants.deep_view().len() == variants@.len());
            }
            if variants.len() > 0 {
                let ghost before = out.source_selections.deep_view();
                let selection = SourceSelection { target, driving_var: var, variants };
                out.source_selections.push(selection);
                proof {
                    assert(out.source_selections.deep_view() =~= before.push(
                        selection.deep_view(),
                    ));
                }
                return;
            }
        },
        None => {},
    }
    match inside_gate {
        Some(gate) => {
            let found = existing_files(&file_args, files);
            proof {
                assert(found.deep_view().len() == found@.len());
            }
            if found.len() > 0 {
                let ghost before = out.conditional_targets.deep_view();
                let conditional = ConditionalTarget {
                    target,
                    gate_var: gate.to_owned(),
                    files: found,
                };
                out.conditional_targets.push(conditional);
                proof {
                    assert(out.conditional_targets.deep_view() =~= before.push(
                        conditional.deep_view(),
                    ));
                }
            }
        },
        None => {},
    }
}

// ---------------------------------------------------------------------------
// Second pass
// ---------------------------------------------------------------------------

/// A `Bare` define of a composed variable, turned into a `Composed` one when
/// the composed value mentions two or more known variables.
pub open spec fn rewritten(
    d: DefineMappingView,
    composed: Map<Seq<char>, Seq<char>>,
    known: Set<Seq<char>>,
) -> DefineMappingView {
    match d.kind {
        DefineKindView::Bare { var } => if composed.dom().contains(var) {
            match composed_define(d.c_name, composed[var], known) {
                Some(e) => e,
                None => d,
            }
        } else {
            d
        },
        _ => d,
    }
}

/// [`rewritten`] on every define.
pub open spec fn all_rewritten(
    defines: Seq<DefineMappingView>,
    composed: Map<Seq<char>, Seq<char>>,
    known: Set<Seq<char>>,
) -> Seq<DefineMappingView> {
    Seq::new(defines.len(), |i: int| rewritten(defines[i], composed, known))
}

/// Pass 2 over the defines: if a `Bare { var }` actually references a CMake
/// composed variable, rewrite it as `Composed { template }`.
pub fn rewrite_composed_defines(
    defines: &mut Vec<DefineMapping>,
    composed_vars: &NameMap<String>,
    known_vars: &NameSet,
)
    ensures
        final(defines).deep_view() == all_rewritten(
            old(defines).deep_view(),
            composed_vars@,
            known_vars@,
        ),
{
    let ghost start = defines.deep_view();
    let ghost want = all_rewritten(start, composed_vars@, known_vars@);
    let mut i: usize = 0;
    while i < defines.len()
        invariant
            i <= defines@.len(),
            defines@.len() == start.len(),
            want == all_rewritten(start, composed_vars@, known_vars@),
            forall|j: int| 0 <= j < i ==> (#[trigger] defines@[j]).deep_view() == want[j],
            forall|j: int|
                i <= j < defines@.len() ==> (#[trigger] defines@[j]).deep_view() == start[j],
        decreases defines@.len() - i,
    {
        let ghost d = defines@[i as int].deep_view();
        let replacement: Option<DefineMapping> = match &defines[i].kind {
            DefineKind::Bare { var } => match composed_vars.get(var.as_str()) {
                Some(value) => define_composed(
                    defines[i].c_name.as_str(),
                    value.as_str(),
                    known_vars,
                ),
                None => None,
            },
            _ => None,
        };
        match replacement {
            Some(e) => {
                defines.set(i, e);
            },
            None => {},
        }
        i += 1;
    }
    proof {
        assert(defines.deep_view() =~= want);
    }
}

} // verus!
