//! The variable inventory of a `configuration.json`.
use crate::build_config::ir::{
    ConfigVarKind, ConfigVarKindView, ConfigVariable, ConfigVariableView,
};
use crate::json::{
    has_repeated_key, json_value, member, member_in, parse_json, repeats_key, Json,
};
use crate::names::{NameMap, NameSet};
use crate::order::{lex_ascending, lex_lt, list_names, listing};
use crate::text::{parses_as_i64, read_utf8, spells_i64, utf8_text};
use vstd::prelude::*;

verus! {

/// One JSON value that `configuration.json` declares for a variable. A number
/// is kept as it prints.
#[derive(Debug, PartialEq, Eq)]
pub enum ConfigValue {
    Bool(bool),
    Text(String),
    Number(String),
    Other,
}

pub ghost enum ConfigValueView {
    Bool(bool),
    Text(Seq<char>),
    Number(Seq<char>),
    Other,
}

impl DeepView for ConfigValue {
    type V = ConfigValueView;

    open spec fn deep_view(&self) -> ConfigValueView {
        match self {
            ConfigValue::Bool(b) => ConfigValueView::Bool(*b),
            ConfigValue::Text(s) => ConfigValueView::Text(s@),
            ConfigValue::Number(n) => ConfigValueView::Number(n@),
            ConfigValue::Other => ConfigValueView::Other,
        }
    }
}

/// Holds what `configuration.json` declares: each variable with its raw
/// values, in the order of the names.
#[derive(Debug, PartialEq, Eq)]
pub struct Configuration {
    pub variables: Vec<(String, Vec<ConfigValue>)>,
}

impl DeepView for Configuration {
    type V = Seq<(Seq<char>, Seq<ConfigValueView>)>;

    open spec fn deep_view(&self) -> Seq<(Seq<char>, Seq<ConfigValueView>)> {
        self.variables.deep_view()
    }
}

/// The text of a value: `true` or `false`, the string, or the number as it
/// prints.
pub open spec fn value_text(v: ConfigValueView) -> Option<Seq<char>> {
    match v {
        ConfigValueView::Bool(b) => Some(
            if b {
                "true"@
            } else {
                "false"@
            },
        ),
        ConfigValueView::Text(s) => Some(s),
        ConfigValueView::Number(n) => Some(n),
        ConfigValueView::Other => None,
    }
}

/// The texts of the values that have one, in order.
pub open spec fn value_texts(raw: Seq<ConfigValueView>) -> Seq<Seq<char>>
    decreases raw.len(),
{
    if raw.len() == 0 {
        seq![]
    } else {
        let rest = value_texts(raw.drop_last());
        match value_text(raw.last()) {
            Some(t) => rest.push(t),
            None => rest,
        }
    }
}

/// The value reads as a signed integer.
pub open spec fn numeric_value(v: ConfigValueView) -> bool {
    match v {
        ConfigValueView::Text(s) => spells_i64(s),
        ConfigValueView::Number(n) => spells_i64(n),
        _ => false,
    }
}

/// The kind of a variable with the values `raw`: boolean when there are values
/// and all are booleans, an enumeration of their texts otherwise.
pub open spec fn kind_of(raw: Seq<ConfigValueView>) -> ConfigVarKindView {
    if raw.len() > 0 && forall|i: int| 0 <= i < raw.len() ==> #[trigger] raw[i] is Bool {
        ConfigVarKindView::Boolean
    } else {
        ConfigVarKindView::Enum {
            values: value_texts(raw),
            numeric: raw.len() > 0 && forall|i: int|
                0 <= i < raw.len() ==> numeric_value(#[trigger] raw[i]),
        }
    }
}

/// The default that `defaults` gives to `name`.
pub open spec fn default_of(
    defaults: Map<Seq<char>, Option<Seq<char>>>,
    name: Seq<char>,
) -> Option<Seq<char>> {
    if defaults.dom().contains(name) {
        defaults[name]
    } else {
        None
    }
}

/// One variable per declared name, in order.
pub open spec fn variables_of(
    config: Seq<(Seq<char>, Seq<ConfigValueView>)>,
    defaults: Map<Seq<char>, Option<Seq<char>>>,
) -> Seq<ConfigVariableView> {
    Seq::new(
        config.len(),
        |i: int|
            ConfigVariableView {
                name: config[i].0,
                kind: kind_of(config[i].1),
                default: default_of(defaults, config[i].0),
            },
    )
}

fn text_of_value(v: &ConfigValue) -> (r: Option<String>)
    ensures
        r.deep_view() == value_text(v.deep_view()),
{
    match v {
        ConfigValue::Bool(b) => if *b {
            Some("true".to_owned())
        } else {
            Some("false".to_owned())
        },
        ConfigValue::Text(s) => Some(s.as_str().to_owned()),
        ConfigValue::Number(n) => Some(n.as_str().to_owned()),
        ConfigValue::Other => None,
    }
}

fn texts_of_values(raw: &Vec<ConfigValue>) -> (r: Vec<String>)
    ensures
        r.deep_view() == value_texts(raw.deep_view()),
{
    let ghost all = raw.deep_view();
    let mut out: Vec<String> = Vec::new();
    let mut i: usize = 0;
    proof {
        assert(out.deep_view() =~= value_texts(all.take(0)));
    }
    while i < raw.len()
        invariant
            all == raw.deep_view(),
            i <= raw@.len(),
            out.deep_view() == value_texts(all.take(i as int)),
        decreases raw@.len() - i,
    {
        let ghost before = out.deep_view();
        proof {
            assert(all.take(i + 1).drop_last() =~= all.take(i as int));
        }
        match text_of_value(&raw[i]) {
            Some(t) => {
                out.push(t);
                proof {
                    assert(out.deep_view() =~= before.push(t@));
                }
            },
            None => {},
        }
        i += 1;
    }
    proof {
        assert(all.take(i as int) =~= all);
    }
    out
}

fn kind_of_values(raw: &Vec<ConfigValue>) -> (r: ConfigVarKind)
    ensures
        r.deep_view() == kind_of(raw.deep_view()),
{
    let ghost all = raw.deep_view();
    let mut all_bool = raw.len() > 0;
    let mut all_numeric = raw.len() > 0;
    let mut i: usize = 0;
    while i < raw.len()
        invariant
            all == raw.deep_view(),
            i <= raw@.len(),
            all_bool == (all.len() > 0 && forall|j: int| 0 <= j < i ==> #[trigger] all[j] is Bool),
            all_numeric == (all.len() > 0 && forall|j: int|
                0 <= j < i ==> numeric_value(#[trigger] all[j])),
        decreases raw@.len() - i,
    {
        match &raw[i] {
            ConfigValue::Bool(_) => {
                all_numeric = false;
                proof {
                    assert(!numeric_value(all[i as int]));
                }
            },
            ConfigValue::Text(s) => {
                if !parses_as_i64(s.as_str()) {
                    all_numeric = false;
                }
                all_bool = false;
                proof {
                    assert(!(all[i as int] is Bool));
                }
            },
            ConfigValue::Number(n) => {
                if !parses_as_i64(n.as_str()) {
                    all_numeric = false;
                }
                all_bool = false;
                proof {
                    assert(!(all[i as int] is Bool));
                }
            },
            ConfigValue::Other => {
                all_bool = false;
                all_numeric = false;
                proof {
                    assert(!(all[i as int] is Bool));
                    assert(!numeric_value(all[i as int]));
                }
            },
        }
        i += 1;
    }
    if all_bool {
        ConfigVarKind::Boolean
    } else {
        ConfigVarKind::Enum { values: texts_of_values(raw), numeric: all_numeric }
    }
}

/// Build the canonical list of variables from the declared values. Defaults
/// detected in CMake are merged in via `cmake_defaults`.
pub fn build_variables(
    config: &Configuration,
    cmake_defaults: &NameMap<Option<String>>,
) -> (r: Vec<ConfigVariable>)
    ensures
        r.deep_view() == variables_of(config.deep_view(), cmake_defaults@),
{
    let ghost all = config.deep_view();
    let ghost want = variables_of(all, cmake_defaults@);
    let mut out: Vec<ConfigVariable> = Vec::new();
    let mut i: usize = 0;
    while i < config.variables.len()
        invariant
            all == config.deep_view(),
            want == variables_of(all, cmake_defaults@),
            i <= config.variables@.len(),
            out@.len() == i,
            forall|j: int| 0 <= j < i ==> (#[trigger] out@[j]).deep_view() == want[j],
        decreases config.variables@.len() - i,
    {
        let name = config.variables[i].0.as_str();
        let kind = kind_of_values(&config.variables[i].1);
        let default: Option<String> = match cmake_defaults.get(name) {
            Some(d) => match d {
                Some(s) => Some(s.as_str().to_owned()),
                None => None,
            },
            None => None,
        };
        out.push(ConfigVariable { name: name.to_owned(), kind, default });
        proof {
            assert(all[i as int] == config.variables@[i as int].deep_view());
            assert(out@[i as int].deep_view() =~= want[i as int]);
        }
        i += 1;
    }
    proof {
        assert(out.deep_view() =~= want);
    }
    out
}

/// The names that a configuration declares.
pub open spec fn declared(config: Seq<(Seq<char>, Seq<ConfigValueView>)>) -> Set<Seq<char>> {
    Set::new(|n: Seq<char>| exists|i: int| 0 <= i < config.len() && (#[trigger] config[i]).0 == n)
}

/// The texts declared for each name: those of its last declaration.
pub open spec fn declared_values(
    config: Seq<(Seq<char>, Seq<ConfigValueView>)>,
) -> Map<Seq<char>, Seq<Seq<char>>>
    decreases config.len(),
{
    if config.len() == 0 {
        Map::empty()
    } else {
        declared_values(config.drop_last()).insert(config.last().0, value_texts(config.last().1))
    }
}

/// The declared names.
pub fn known_variables(config: &Configuration) -> (r: NameSet)
    ensures
        r@ == declared(config.deep_view()),
{
    let ghost all = config.deep_view();
    let mut out = NameSet::new();
    let mut i: usize = 0;
    proof {
        assert(out@ =~= declared(all.take(0)));
    }
    while i < config.variables.len()
        invariant
            all == config.deep_view(),
            i <= config.variables@.len(),
            out@ == declared(all.take(i as int)),
        decreases config.variables@.len() - i,
    {
        let ghost before = all.take(i as int);
        let _ = out.insert(config.variables[i].0.as_str());
        proof {
            let after = all.take(i + 1);
            let name = config.variables@[i as int].0@;
            assert(all[i as int] == config.variables@[i as int].deep_view());
            assert forall|n: Seq<char>|
                declared(after).contains(n) == declared(before).insert(name).contains(n) by {
                if declared(before).contains(n) {
                    let k = choose|k: int| 0 <= k < before.len() && (#[trigger] before[k]).0 == n;
                    assert(after[k].0 == n);
                }
                assert(after[i as int].0 == name);
                if declared(after).contains(n) && n != name {
                    let k = choose|k: int| 0 <= k < after.len() && (#[trigger] after[k]).0 == n;
                    assert(before[k].0 == n);
                }
            }
            assert(out@ =~= declared(after));
        }
        i += 1;
    }
    proof {
        assert(all.take(i as int) =~= all);
    }
    out
}

/// Maps each configurable variable to the texts of its declared values.
pub fn values_by_variable(config: &Configuration) -> (r: NameMap<Vec<String>>)
    ensures
        r@ == declared_values(config.deep_view()),
{
    let ghost all = config.deep_view();
    let mut out: NameMap<Vec<String>> = NameMap::new();
    let mut i: usize = 0;
    proof {
        assert(out@ =~= declared_values(all.take(0)));
    }
    while i < config.variables.len()
        invariant
            all == config.deep_view(),
            i <= config.variables@.len(),
            out@ == declared_values(all.take(i as int)),
        decreases config.variables@.len() - i,
    {
        out.insert(config.variables[i].0.as_str(), texts_of_values(&config.variables[i].1));
        proof {
            assert(all.take(i + 1).drop_last() =~= all.take(i as int));
            assert(all[i as int] == config.variables@[i as int].deep_view());
        }
        i += 1;
    }
    proof {
        assert(all.take(i as int) =~= all);
    }
    out
}

// ---------------------------------------------------------------------------
// Reading
// ---------------------------------------------------------------------------

/// What a JSON value declares.
pub open spec fn declared_value(j: Json) -> ConfigValueView {
    match j {
        Json::Bool(b) => ConfigValueView::Bool(b),
        Json::Text(s) => ConfigValueView::Text(s@),
        Json::Number(n) => ConfigValueView::Number(n@),
        _ => ConfigValueView::Other,
    }
}

/// What the elements of an array declare; other values declare no list.
pub open spec fn declared_list(j: Json) -> Option<Seq<ConfigValueView>> {
    match j {
        Json::Array(elements) => Some(
            Seq::new(elements@.len(), |i: int| declared_value(elements@[i])),
        ),
        _ => None,
    }
}

/// The keys of the members of an object.
pub open spec fn member_names(members: Seq<(String, Json)>) -> Set<Seq<char>> {
    Set::new(
        |n: Seq<char>| exists|i: int| 0 <= i < members.len() && (#[trigger] members[i]).0@ == n,
    )
}

/// What `members` declare for `names`, in that order; `None` if one of them is
/// no array.
pub open spec fn declared_lists(members: Seq<(String, Json)>, names: Seq<Seq<char>>) -> Option<
    Seq<(Seq<char>, Seq<ConfigValueView>)>,
>
    decreases names.len(),
{
    if names.len() == 0 {
        Some(seq![])
    } else {
        match (declared_lists(members, names.drop_last()), member_in(members, names.last())) {
            (Some(rest), Some(j)) => match declared_list(j) {
                Some(values) => Some(rest.push((names.last(), values))),
                None => None,
            },
            _ => None,
        }
    }
}

/// The variables that the object `j` declares, in the order of their names.
pub open spec fn declared_variables(j: Json) -> Option<Seq<(Seq<char>, Seq<ConfigValueView>)>> {
    match j {
        Json::Object(members) => declared_lists(members@, listing(member_names(members@))),
        _ => None,
    }
}

/// The configuration in a JSON document: the member `configurable_variables` of
/// an object, which may be missing, or the only element of an array, which may
/// be empty.
pub open spec fn configuration_in(j: Json) -> Option<Seq<(Seq<char>, Seq<ConfigValueView>)>> {
    match j {
        Json::Object(_) => match member(j, "configurable_variables"@) {
            Some(variables) => declared_variables(variables),
            None => Some(seq![]),
        },
        Json::Array(elements) => if elements@.len() == 0 {
            Some(seq![])
        } else if elements@.len() == 1 {
            declared_variables(elements@[0])
        } else {
            None
        },
        _ => None,
    }
}

/// The variables come in the order of their names, each once.
pub open spec fn names_ascend(config: Seq<(Seq<char>, Seq<ConfigValueView>)>) -> bool {
    forall|i: int, j: int|
        0 <= i < j < config.len() ==> lex_lt((#[trigger] config[i]).0, (#[trigger] config[j]).0)
}

/// What the bytes of a `configuration.json` declare. A document that gives the
/// variables twice declares nothing.
pub open spec fn configuration_of(bytes: Seq<u8>) -> Option<
    Seq<(Seq<char>, Seq<ConfigValueView>)>,
> {
    match utf8_text(bytes) {
        Some(text) => match json_value(text) {
            Some(j) => if j is Object && repeats_key(text, "configurable_variables"@) {
                None
            } else {
                configuration_in(j)
            },
            None => None,
        },
        None => None,
    }
}

fn values_in(elements: &Vec<Json>) -> (r: Vec<ConfigValue>)
    ensures
        r.deep_view() == Seq::new(elements@.len(), |i: int| declared_value(elements@[i])),
{
    let mut out: Vec<ConfigValue> = Vec::new();
    let mut i: usize = 0;
    while i < elements.len()
        invariant
            i <= elements@.len(),
            out.deep_view() == Seq::new(i as nat, |k: int| declared_value(elements@[k])),
        decreases elements@.len() - i,
    {
        let ghost before = out.deep_view();
        let v = match &elements[i] {
            Json::Bool(b) => ConfigValue::Bool(*b),
            Json::Text(s) => ConfigValue::Text(s.as_str().to_owned()),
            Json::Number(n) => ConfigValue::Number(n.as_str().to_owned()),
            _ => ConfigValue::Other,
        };
        out.push(v);
        proof {
            assert(out.deep_view() =~= before.push(declared_value(elements@[i as int])));
        }
        i += 1;
    }
    out
}

fn names_of_members(members: &Vec<(String, Json)>) -> (r: NameSet)
    ensures
        r@ == member_names(members@),
{
    let ghost all = members@;
    let mut out = NameSet::new();
    let mut i: usize = 0;
    proof {
        assert(out@ =~= member_names(all.take(0)));
    }
    while i < members.len()
        invariant
            all == members@,
            i <= all.len(),
            out@ == member_names(all.take(i as int)),
        decreases all.len() - i,
    {
        let ghost before = all.take(i as int);
        let _ = out.insert(members[i].0.as_str());
        proof {
            let after = all.take(i + 1);
            let name = all[i as int].0@;
            assert forall|n: Seq<char>|
                member_names(after).contains(n) == member_names(before).insert(name).contains(n) by {
                if member_names(before).contains(n) {
                    let k = choose|k: int| 0 <= k < before.len() && (#[trigger] before[k]).0@ == n;
                    assert(after[k].0@ == n);
                }
                assert(after[i as int].0@ == name);
                if member_names(after).contains(n) && n != name {
                    let k = choose|k: int| 0 <= k < after.len() && (#[trigger] after[k]).0@ == n;
                    assert(before[k].0@ == n);
                }
            }
            assert(out@ =~= member_names(after));
        }
        i += 1;
    }
    proof {
        assert(all.take(i as int) =~= all);
    }
    out
}

proof fn lists_stay_missing(members: Seq<(String, Json)>, names: Seq<Seq<char>>, i: int)
    requires
        0 <= i <= names.len(),
        declared_lists(members, names.take(i)) is None,
    ensures
        declared_lists(members, names) is None,
    decreases names.len() - i,
{
    if i < names.len() {
        assert(names.take(i + 1).drop_last() =~= names.take(i));
        lists_stay_missing(members, names, i + 1);
    } else {
        assert(names.take(i) =~= names);
    }
}

fn variables_in(j: &Json) -> (r: Option<Configuration>)
    ensures
        r.deep_view() == declared_variables(*j),
        r matches Some(c) ==> names_ascend(c.deep_view()),
{
    let members = match j {
        Json::Object(members) => members,
        _ => {
            return None;
        },
    };
    let names = list_names(&names_of_members(members));
    let ghost all = names.deep_view();
    let mut variables: Vec<(String, Vec<ConfigValue>)> = Vec::new();
    let mut i: usize = 0;
    proof {
        assert(variables.deep_view() =~= seq![]);
    }
    while i < names.len()
        invariant
            all == names.deep_view(),
            *j == Json::Object(*members),
            declared_variables(*j) == declared_lists(members@, all),
            i <= names@.len(),
            Some(variables.deep_view()) == declared_lists(members@, all.take(i as int)),
            variables@.len() == i,
            forall|k: int| 0 <= k < i ==> (#[trigger] variables.deep_view()[k]).0 == all[k],
            lex_ascending(all),
        decreases names@.len() - i,
    {
        let ghost before = variables.deep_view();
        let name = names[i].as_str();
        proof {
            assert(all.take(i + 1).drop_last() =~= all.take(i as int));
            assert(all[i as int] == name@);
        }
        match j.get(name) {
            Some(Json::Array(elements)) => {
                let values = values_in(elements);
                variables.push((name.to_owned(), values));
                proof {
                    assert(variables.deep_view() =~= before.push((name@, values.deep_view())));
                }
            },
            _ => {
                proof {
                    lists_stay_missing(members@, all, i + 1);
                }
                return None;
            },
        }
        i += 1;
    }
    proof {
        assert(all.take(i as int) =~= all);
    }
    Some(Configuration { variables })
}

fn no_variables() -> (r: Configuration)
    ensures
        r.deep_view() == Seq::<(Seq<char>, Seq<ConfigValueView>)>::empty(),
{
    let r = Configuration { variables: Vec::new() };
    proof {
        assert(r.deep_view() =~= seq![]);
    }
    r
}

/// Reads the bytes of a `configuration.json`: `None` unless they are a JSON
/// document that maps each of its `configurable_variables`, given once, to an
/// array.
pub fn parse_configuration_json(bytes: &[u8]) -> (r: Option<Configuration>)
    ensures
        r.deep_view() == configuration_of(bytes@),
        r matches Some(c) ==> names_ascend(c.deep_view()),
{
    let text = match read_utf8(bytes) {
        Some(t) => t,
        None => {
            return None;
        },
    };
    let document = match parse_json(text.as_str()) {
        Some(j) => j,
        None => {
            return None;
        },
    };
    if let Json::Object(_) = &document {
        if has_repeated_key(text.as_str(), "configurable_variables") {
            return None;
        }
    }
    configuration_from(&document)
}

/// The configuration in a JSON document.
pub fn configuration_from(document: &Json) -> (r: Option<Configuration>)
    ensures
        r.deep_view() == configuration_in(*document),
        r matches Some(c) ==> names_ascend(c.deep_view()),
{
    match document {
        Json::Object(_) => match document.get("configurable_variables") {
            Some(variables) => variables_in(variables),
            None => Some(no_variables()),
        },
        Json::Array(elements) => if elements.len() == 0 {
            Some(no_variables())
        } else if elements.len() == 1 {
            variables_in(&elements[0])
        } else {
            None
        },
        _ => None,
    }
}

} // verus!
