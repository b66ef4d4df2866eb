//! What is declared of variables, and what a prompt says of them.
use crate::build_config::ir::{
    BuildConfigView, ConfigVarKindView, ConfigVariableView, DefineKindView, DefineMappingView,
};
use crate::build_config::prompt_ext::{
    define_line, define_lines, system_prompt, variable_line, variable_lines,
};
use crate::build_config::variables::{
    configuration_in, declared_list, declared_lists, declared_value, declared_values,
    declared_variables, kind_of, member_names, value_texts, variables_of, ConfigValueView,
};
use crate::json::{member, member_in, Json};
use crate::order::listing;
use crate::text::{has_part, joined};
use crate::text_laws::{joined_has_its_parts, parts_are_found};
use vstd::prelude::*;

verus! {

// ---------------------------------------------------------------------------
// Declarations
// ---------------------------------------------------------------------------

/// The texts of values are those of the booleans, strings and numbers among them,
/// in order.
pub proof fn values_are_spelled_in_order(raw: Seq<ConfigValueView>)
    ensures
        value_texts(raw) == raw.filter_map(
            |v: ConfigValueView|
                match v {
                    ConfigValueView::Bool(b) => if b {
                        Some("true"@)
                    } else {
                        Some("false"@)
                    },
                    ConfigValueView::Text(s) => Some(s),
                    ConfigValueView::Number(n) => Some(n),
                    ConfigValueView::Other => None,
                },
        ),
        (forall|i: int| 0 <= i < raw.len() ==> !(#[trigger] raw[i] is Other)) ==> value_texts(
            raw,
        ).len() == raw.len(),
    decreases raw.len(),
{
    let f = |v: ConfigValueView|
        match v {
            ConfigValueView::Bool(b) => if b {
                Some("true"@)
            } else {
                Some("false"@)
            },
            ConfigValueView::Text(s) => Some(s),
            ConfigValueView::Number(n) => Some(n),
            ConfigValueView::Other => None,
        };
    if raw.len() > 0 {
        let rest = raw.drop_last();
        values_are_spelled_in_order(rest);
        assert(value_texts(raw) =~= raw.filter_map(f));
        if forall|i: int| 0 <= i < raw.len() ==> !(#[trigger] raw[i] is Other) {
            assert forall|i: int| 0 <= i < rest.len() implies !(#[trigger] rest[i] is Other) by {
                assert(!(raw[i] is Other));
            }
            assert(!(raw[raw.len() - 1] is Other));
        }
    }
}

/// A variable whose values are all booleans is a boolean; one with another value
/// is an enumeration of the texts of its values.
pub proof fn kinds_follow_from_the_values(raw: Seq<ConfigValueView>, texts: Seq<Seq<char>>)
    ensures
        raw.len() > 0 && (forall|i: int| 0 <= i < raw.len() ==> #[trigger] raw[i] is Bool)
            ==> kind_of(raw) is Boolean,
        (exists|i: int| 0 <= i < raw.len() && !(#[trigger] raw[i] is Bool)) ==> (kind_of(
            raw,
        ) matches ConfigVarKindView::Enum { values, .. } && values == value_texts(raw)),
        texts.len() > 0 ==> (kind_of(
            texts.map_values(|t: Seq<char>| ConfigValueView::Text(t)),
        ) matches ConfigVarKindView::Enum { values, numeric } && values == texts && (numeric
            <==> forall|i: int| 0 <= i < texts.len() ==> crate::text::spells_i64(
            #[trigger] texts[i],
        ))),
{
    let all = texts.map_values(|t: Seq<char>| ConfigValueView::Text(t));
    texts_are_kept(texts);
    if texts.len() > 0 {
        assert(!(all[0] is Bool));
        assert forall|i: int| 0 <= i < texts.len() implies (
        crate::build_config::variables::numeric_value(#[trigger] all[i])
            == crate::text::spells_i64(texts[i])) by {
            assert(all[i] == ConfigValueView::Text(texts[i]));
        }
        if forall|i: int| 0 <= i < texts.len() ==> crate::text::spells_i64(#[trigger] texts[i]) {
            assert forall|i: int| 0 <= i < all.len() implies
                crate::build_config::variables::numeric_value(#[trigger] all[i]) by {
                assert(crate::text::spells_i64(texts[i]));
            }
        }
        if forall|i: int|
            0 <= i < all.len() ==> crate::build_config::variables::numeric_value(
                #[trigger] all[i],
            ) {
            assert forall|i: int| 0 <= i < texts.len() implies crate::text::spells_i64(
                #[trigger] texts[i],
            ) by {
                assert(crate::build_config::variables::numeric_value(all[i]));
            }
        }
    }
}

proof fn texts_are_kept(texts: Seq<Seq<char>>)
    ensures
        value_texts(texts.map_values(|t: Seq<char>| ConfigValueView::Text(t))) == texts,
    decreases texts.len(),
{
    let f = |t: Seq<char>| ConfigValueView::Text(t);
    let all = texts.map_values(f);
    if texts.len() > 0 {
        texts_are_kept(texts.drop_last());
        assert(all.drop_last() =~= texts.drop_last().map_values(f));
        assert(all.last() == ConfigValueView::Text(texts.last()));
        assert(texts.drop_last().push(texts.last()) =~= texts);
    } else {
        assert(all =~= seq![]);
        assert(value_texts(all) =~= texts);
    }
}

/// Each declared variable is listed in its place, with the default that was found
/// for it, if any.
pub proof fn variables_take_their_defaults(
    config: Seq<(Seq<char>, Seq<ConfigValueView>)>,
    defaults: Map<Seq<char>, Option<Seq<char>>>,
    i: int,
)
    requires
        0 <= i < config.len(),
    ensures
        ({
            let v = variables_of(config, defaults)[i];
            &&& variables_of(config, defaults).len() == config.len()
            &&& v.name == config[i].0
            &&& v.kind == kind_of(config[i].1)
            &&& defaults.dom().contains(config[i].0) ==> v.default == defaults[config[i].0]
            &&& !defaults.dom().contains(config[i].0) ==> v.default is None
        }),
{
}

/// Every declared variable has the texts of its values, where names are declared
/// once; no other variable has any.
pub proof fn declared_variables_have_values(config: Seq<(Seq<char>, Seq<ConfigValueView>)>)
    requires
        forall|i: int, j: int|
            0 <= i < j < config.len() ==> (#[trigger] config[i]).0 != (#[trigger] config[j]).0,
    ensures
        forall|i: int|
            0 <= i < config.len() ==> declared_values(config).dom().contains(
                (#[trigger] config[i]).0,
            ) && declared_values(config)[config[i].0] == value_texts(config[i].1),
        forall|n: Seq<char>| #[trigger]
            declared_values(config).dom().contains(n) ==> exists|i: int|
                0 <= i < config.len() && (#[trigger] config[i]).0 == n,
    decreases config.len(),
{
    if config.len() > 0 {
        let rest = config.drop_last();
        assert forall|i: int, j: int| 0 <= i < j < rest.len() implies (#[trigger] rest[i]).0 != (
        #[trigger] rest[j]).0 by {
            assert(config[i].0 != config[j].0);
        }
        declared_variables_have_values(rest);
        let n = config.len() - 1;
        assert forall|i: int| 0 <= i < config.len() implies declared_values(
            config,
        ).dom().contains((#[trigger] config[i]).0) && declared_values(config)[config[i].0]
            == value_texts(config[i].1) by {
            if i < n {
                assert(rest[i] == config[i]);
                assert(config[i].0 != config[n].0);
            }
        }
        assert forall|name: Seq<char>| #[trigger]
            declared_values(config).dom().contains(name) implies exists|i: int|
            0 <= i < config.len() && (#[trigger] config[i]).0 == name by {
            if name == config.last().0 {
                assert(config[n].0 == name);
            } else {
                assert(declared_values(rest).dom().contains(name));
                let i = choose|i: int| 0 <= i < rest.len() && (#[trigger] rest[i]).0 == name;
                assert(config[i].0 == name);
            }
        }
    }
}

proof fn lists_follow_the_names(members: Seq<(String, Json)>, names: Seq<Seq<char>>)
    ensures
        declared_lists(members, names) matches Some(config) ==> {
            &&& config.len() == names.len()
            &&& forall|i: int|
                0 <= i < names.len() ==> (#[trigger] config[i]).0 == names[i] && (member_in(
                    members,
                    names[i],
                ) matches Some(Json::Array(elements)) && config[i].1.len() == elements@.len()
                    && forall|k: int|
                    0 <= k < elements@.len() ==> #[trigger] config[i].1[k] == declared_value(
                        elements@[k],
                    ))
        },
        (forall|i: int|
            0 <= i < names.len() ==> (member_in(members, #[trigger] names[i]) matches Some(j)
                && j is Array)) ==> declared_lists(members, names) is Some,
    decreases names.len(),
{
    if names.len() > 0 {
        let rest = names.drop_last();
        lists_follow_the_names(members, rest);
        if declared_lists(members, names) is Some {
            let config = declared_lists(members, names)->0;
            let before = declared_lists(members, rest)->0;
            assert forall|i: int| 0 <= i < names.len() implies (#[trigger] config[i]).0 == names[i]
                && (member_in(members, names[i]) matches Some(Json::Array(elements))
                && config[i].1.len() == elements@.len() && forall|k: int|
                0 <= k < elements@.len() ==> #[trigger] config[i].1[k] == declared_value(
                    elements@[k],
                )) by {
                if i < rest.len() {
                    assert(config[i] == before[i]);
                    assert(rest[i] == names[i]);
                }
            }
        }
        if forall|i: int|
            0 <= i < names.len() ==> (member_in(members, #[trigger] names[i]) matches Some(j)
                && j is Array) {
            assert forall|i: int| 0 <= i < rest.len() implies (member_in(
                members,
                #[trigger] rest[i],
            ) matches Some(j) && j is Array) by {
                assert(rest[i] == names[i]);
            }
            assert(names[names.len() - 1] == names.last());
        }
    }
}

/// A configuration is an object with the declarations under
/// `configurable_variables`, or a list that holds just the declarations. Each
/// member of the declarations is a variable, in the order of the names, and its
/// values are the elements of its list, one for one.
pub proof fn configurations_declare_their_members(members: Vec<(String, Json)>)
    ensures
        declared_variables(Json::Object(members)) matches Some(config) ==> {
            let names = listing(member_names(members@));
            &&& config.len() == names.len()
            &&& forall|i: int|
                0 <= i < names.len() ==> (#[trigger] config[i]).0 == names[i] && (member_in(
                    members@,
                    names[i],
                ) matches Some(Json::Array(elements)) && config[i].1.len() == elements@.len()
                    && forall|k: int|
                    0 <= k < elements@.len() ==> #[trigger] config[i].1[k] == declared_value(
                        elements@[k],
                    ))
        },
        forall|j: Json|
            !(j is Object) ==> (#[trigger] declared_variables(j)) is None,
        forall|document: Json|
            document is Object ==> (match member(document, "configurable_variables"@) {
                Some(v) => #[trigger] configuration_in(document) == declared_variables(v),
                None => configuration_in(document) == Some(
                    Seq::<(Seq<char>, Seq<ConfigValueView>)>::empty(),
                ),
            }),
        forall|document: Json| (document matches Json::Array(elements) && elements@.len() > 1)
            ==> (#[trigger] configuration_in(document)) is None,
        forall|document: Json|
            !(document is Object) && !(document is Array) ==> (#[trigger] configuration_in(
                document,
            )) is None,
{
    lists_follow_the_names(members@, listing(member_names(members@)));
}

/// Booleans, strings and numbers are taken as values; anything else is not.
pub proof fn values_are_taken_by_kind(b: bool, s: String, elements: Vec<Json>)
    ensures
        declared_value(Json::Bool(b)) == ConfigValueView::Bool(b),
        declared_value(Json::Text(s)) == ConfigValueView::Text(s@),
        declared_value(Json::Number(s)) == ConfigValueView::Number(s@),
        declared_value(Json::Array(elements)) is Other,
        declared_list(Json::Array(elements)) matches Some(values) && values
            == elements@.map_values(|j: Json| declared_value(j)),
        declared_list(Json::Text(s)) is None,
        declared_list(Json::Bool(b)) is None,
{
    assert(declared_list(Json::Array(elements))->0 =~= elements@.map_values(
        |j: Json| declared_value(j),
    ));
}

// ---------------------------------------------------------------------------
// The prompt
// ---------------------------------------------------------------------------

proof fn variable_line_stands(vars: Seq<ConfigVariableView>, i: int)
    requires
        0 <= i < vars.len(),
    ensures
        exists|a: Seq<char>, b: Seq<char>| #[trigger]
            (a + variable_line(vars[i]) + b) == variable_lines(vars),
    decreases vars.len(),
{
    let none = Seq::<char>::empty();
    let rest = vars.drop_last();
    if i == vars.len() - 1 {
        assert(variable_lines(rest) + variable_line(vars[i]) + none =~= variable_lines(vars));
    } else {
        variable_line_stands(rest, i);
        let (a, b) = choose|a: Seq<char>, b: Seq<char>| #[trigger]
            (a + variable_line(rest[i]) + b) == variable_lines(rest);
        let c = b + variable_line(vars.last());
        assert(a + variable_line(vars[i]) + c =~= variable_lines(vars));
    }
}

proof fn define_line_stands(defines: Seq<DefineMappingView>, i: int)
    requires
        0 <= i < defines.len(),
    ensures
        exists|a: Seq<char>, b: Seq<char>| #[trigger]
            (a + define_line(defines[i]) + b) == define_lines(defines),
    decreases defines.len(),
{
    let none = Seq::<char>::empty();
    let rest = defines.drop_last();
    if i == defines.len() - 1 {
        assert(define_lines(rest) + define_line(defines[i]) + none =~= define_lines(defines));
    } else {
        define_line_stands(rest, i);
        let (a, b) = choose|a: Seq<char>, b: Seq<char>| #[trigger]
            (a + define_line(rest[i]) + b) == define_lines(rest);
        let c = b + define_line(defines.last());
        assert(a + define_line(defines[i]) + c =~= define_lines(defines));
    }
}

/// The prompt says of every variable how it is tested: a boolean as a feature of
/// its name, an enumeration by the bare names made of its name and each of its
/// values.
pub proof fn prompts_name_every_variable(base: Seq<char>, cfg: BuildConfigView, i: int)
    requires
        !cfg.is_empty,
        0 <= i < cfg.variables.len(),
    ensures
        ({
            let v = cfg.variables[i];
            let prompt = system_prompt(base, cfg);
            &&& v.kind is Boolean ==> has_part(
                prompt,
                "- `"@ + v.name + "` (boolean): use `#[cfg(feature = \""@ + v.name + "\")]`\n"@,
            )
            &&& v.kind matches ConfigVarKindView::Enum { values, .. } ==> forall|k: int|
                0 <= k < values.len() ==> has_part(
                    prompt,
                    "`#[cfg("@ + v.name + "_"@ + (#[trigger] values[k]) + ")]`"@,
                )
        }),
{
    let v = cfg.variables[i];
    let prompt = system_prompt(base, cfg);
    variable_line_in_prompt(base, cfg, i);
    let (a, b) = choose|a: Seq<char>, b: Seq<char>| #[trigger]
        (a + variable_line(cfg.variables[i]) + b) == prompt;
    match v.kind {
        ConfigVarKindView::Boolean => {
            parts_are_found(a, variable_line(v), b);
        },
        ConfigVarKindView::Enum { values, numeric } => {
            assert forall|k: int| 0 <= k < values.len() implies has_part(
                prompt,
                "`#[cfg("@ + v.name + "_"@ + (#[trigger] values[k]) + ")]`"@,
            ) by {
                let guard = "`#[cfg("@ + v.name + "_"@ + values[k] + ")]`"@;
                guard_in_line(v, k);
                let (c, d) = choose|c: Seq<char>, d: Seq<char>| #[trigger]
                    (c + guard + d) == variable_line(v);
                assert(a + (c + guard + d) + b =~= (a + c) + guard + (d + b));
                parts_are_found(a + c, guard, d + b);
            }
        },
    }
}

proof fn variable_line_in_prompt(base: Seq<char>, cfg: BuildConfigView, i: int)
    requires
        !cfg.is_empty,
        0 <= i < cfg.variables.len(),
    ensures
        exists|a: Seq<char>, b: Seq<char>| #[trigger]
            (a + variable_line(cfg.variables[i]) + b) == system_prompt(base, cfg),
{
    let line = variable_line(cfg.variables[i]);
    variable_line_stands(cfg.variables, i);
    let (a, b) = choose|a: Seq<char>, b: Seq<char>| #[trigger]
        (a + variable_line(cfg.variables[i]) + b) == variable_lines(cfg.variables);
    let head = base + "\n\n"@ + (crate::build_config::prompt_ext::VARIABLES_HEADING@
        + crate::build_config::prompt_ext::VARIABLES_INTRO@
        + crate::build_config::prompt_ext::VARIABLES_RULES@);
    let tail = crate::build_config::prompt_ext::defines_part(cfg.defines) + "\n"@
        + crate::build_config::prompt_ext::CRATE_HYGIENE@
        + crate::build_config::prompt_ext::SYMBOL_FIDELITY@;
    assert((head + a) + line + (b + tail) =~= head + (a + line + b) + tail);
    assert(system_prompt(base, cfg) =~= head + variable_lines(cfg.variables) + tail);
    assert((head + a) + line + (b + tail) == system_prompt(base, cfg));
}

proof fn guard_in_line(v: ConfigVariableView, k: int)
    requires
        v.kind is Enum,
        0 <= k < v.kind->values.len(),
    ensures
        exists|c: Seq<char>, d: Seq<char>| #[trigger]
            (c + ("`#[cfg("@ + v.name + "_"@ + v.kind->values[k] + ")]`"@) + d) == variable_line(v),
{
    let values = v.kind->values;
    let guards = Seq::new(
        values.len(),
        |j: int| crate::build_config::prompt_ext::value_guard(v.name, values[j]),
    );
    let list = joined(guards, " / "@);
    let front = "- `"@ + v.name + "` (enum, values: "@ + joined(values, ", "@)
        + "): use bare cfg -- "@;
    let end = " (NOT `feature = ...`)\n"@;
    joined_has_its_parts(guards, " / "@, k);
    let (c, d) = choose|c: Seq<char>, d: Seq<char>| #[trigger] (c + guards[k] + d) == list;
    assert(variable_line(v) =~= front + list + end);
    assert((front + c) + guards[k] + (d + end) =~= front + (c + guards[k] + d) + end);
    assert((front + c) + guards[k] + (d + end) == variable_line(v));
}

/// The prompt says of every define how it is read: a flag as a bare name, any
/// other from the environment.
pub proof fn prompts_name_every_define(base: Seq<char>, cfg: BuildConfigView, i: int)
    requires
        !cfg.is_empty,
        0 <= i < cfg.defines.len(),
    ensures
        ({
            let d = cfg.defines[i];
            let prompt = system_prompt(base, cfg);
            match d.kind {
                DefineKindView::GatedFlag { gate_var } => has_part(
                    prompt,
                    "- `"@ + d.c_name + "` (gated by `"@ + gate_var + "`): use `#[cfg("@
                        + d.c_name + ")]`\n"@,
                ),
                DefineKindView::Bare { var } => has_part(
                    prompt,
                    "- `"@ + d.c_name + "` (from `"@ + var + "`): use `env!(\""@ + d.c_name
                        + "\")`\n"@,
                ),
                DefineKindView::QuotedString { var } => has_part(
                    prompt,
                    "- `"@ + d.c_name + "` (from `"@ + var + "`): use `env!(\""@ + d.c_name
                        + "\")`\n"@,
                ),
                DefineKindView::Composed { template } => has_part(
                    prompt,
                    "- `"@ + d.c_name + "` (composed from template `"@ + template
                        + "`): use `env!(\""@ + d.c_name + "\")`\n"@,
                ),
            }
        }),
{
    let d = cfg.defines[i];
    let prompt = system_prompt(base, cfg);
    let line = define_line(d);
    define_line_stands(cfg.defines, i);
    let (a, b) = choose|a: Seq<char>, b: Seq<char>| #[trigger]
        (a + define_line(cfg.defines[i]) + b) == define_lines(cfg.defines);
    let head = base + "\n\n"@ + (crate::build_config::prompt_ext::VARIABLES_HEADING@
        + crate::build_config::prompt_ext::VARIABLES_INTRO@
        + crate::build_config::prompt_ext::VARIABLES_RULES@) + variable_lines(cfg.variables)
        + "\n"@ + crate::build_config::prompt_ext::DEFINES_INTRO@;
    let tail = "\n"@ + crate::build_config::prompt_ext::CRATE_HYGIENE@
        + crate::build_config::prompt_ext::SYMBOL_FIDELITY@;
    assert(prompt =~= (head + a) + line + (b + tail));
    parts_are_found(head + a, line, b + tail);
}

/// A variable without values is an enumeration of none, and no number; the names of
/// an object are those of its members.
pub proof fn variables_may_have_no_values(members: Seq<(String, Json)>, one: (String, Json))
    ensures
        kind_of(seq![]) == (ConfigVarKindView::Enum { values: seq![], numeric: false }),
        member_names(seq![]) == Set::<Seq<char>>::empty(),
        member_names(members.push(one)) == member_names(members).insert(one.0@),
{
    assert(value_texts(seq![]) =~= seq![]);
    let more = members.push(one);
    assert(member_names(seq![]) =~= Set::<Seq<char>>::empty());
    assert forall|n: Seq<char>| #[trigger] member_names(more).contains(n) == member_names(
        members,
    ).insert(one.0@).contains(n) by {
        if member_names(members).contains(n) {
            let i = choose|i: int| 0 <= i < members.len() && (#[trigger] members[i]).0@ == n;
            assert(more[i].0@ == n);
        }
        if n == one.0@ {
            assert(more[members.len() as int].0@ == n);
        }
        if member_names(more).contains(n) && n != one.0@ {
            let i = choose|i: int| 0 <= i < more.len() && (#[trigger] more[i]).0@ == n;
            assert(members[i].0@ == n);
        }
    }
    assert(member_names(more) =~= member_names(members).insert(one.0@));
}

} // verus!
