//! Turns the configurable variables of a project into Cargo features and a
//! build script.
use crate::build_config::ir::{
    BuildConfigIR, BuildConfigView, ConfigVarKind, ConfigVarKindView, ConfigVariable,
    ConfigVariableView, DefineKind,
};
use crate::cargo_toml::{
    parsed_manifest, prints, with_default_features, with_features, with_value, CargoToml, Manifest,
    TomlValue,
};
use crate::fs::RawDir;
use crate::order::{is_sorting, sort_strings, sorting, sorting_is};
use crate::text::{bytes_of, read_utf8, same, utf8_text};
use vstd::prelude::*;

verus! {

/// The tool that emits features.
pub struct EmitBuildFeatures;

/// Why the features cannot be emitted.
#[derive(Debug, Clone, Copy, PartialEq, Eq, Structural)]
pub enum ManifestError {
    /// `Cargo.toml` is missing.
    NoManifest,
    /// `Cargo.toml` is not UTF-8.
    NotUtf8,
    /// `Cargo.toml` is not TOML.
    NotToml,
}

/// The feature of an enum variable with this value.
pub open spec fn value_feature(name: Seq<char>, value: Seq<char>) -> Seq<char> {
    name + "_"@ + value
}

/// The features of one variable.
pub open spec fn variable_features(v: ConfigVariableView) -> Seq<Seq<char>> {
    match v.kind {
        ConfigVarKindView::Boolean => seq![v.name],
        ConfigVarKindView::Enum { values, .. } => Seq::new(
            values.len(),
            |i: int| value_feature(v.name, values[i]),
        ),
    }
}

/// The features of all variables.
pub open spec fn all_features(vars: Seq<ConfigVariableView>) -> Seq<Seq<char>>
    decreases vars.len(),
{
    if vars.len() == 0 {
        seq![]
    } else {
        all_features(vars.drop_last()) + variable_features(vars.last())
    }
}

/// The value that an enum variable has by default: the recorded one if it is
/// declared, else the first.
pub open spec fn picked_value(values: Seq<Seq<char>>, default: Option<Seq<char>>) -> Seq<char> {
    if default is Some && values.contains(default->0) {
        default->0
    } else if values.len() > 0 {
        values[0]
    } else {
        seq![]
    }
}

/// The feature that is on by default for a variable: that of a boolean which is
/// recorded as true, that of the default value of an enum with one.
pub open spec fn default_feature(v: ConfigVariableView) -> Option<Seq<char>> {
    match v.kind {
        ConfigVarKindView::Boolean => if v.default == Some("true"@) {
            Some(v.name)
        } else {
            None
        },
        ConfigVarKindView::Enum { values, .. } => if picked_value(values, v.default).len() == 0 {
            None
        } else {
            Some(value_feature(v.name, picked_value(values, v.default)))
        },
    }
}

/// The default features in the order of the variables.
pub open spec fn defaults_in_order(vars: Seq<ConfigVariableView>) -> Seq<Seq<char>>
    decreases vars.len(),
{
    if vars.len() == 0 {
        seq![]
    } else {
        let rest = defaults_in_order(vars.drop_last());
        match default_feature(vars.last()) {
            Some(f) => rest.push(f),
            None => rest,
        }
    }
}

/// A build script has to be generated: there is an enum variable, or a define
/// that is not just a flag under a variable.
pub open spec fn script_needed(cfg: BuildConfigView) -> bool {
    ||| exists|i: int| 0 <= i < cfg.variables.len() && (#[trigger] cfg.variables[i]).kind is Enum
    ||| exists|i: int|
        0 <= i < cfg.defines.len() && !((#[trigger] cfg.defines[i]).kind is GatedFlag)
}

/// The manifest with the features of a project, its default features, and its
/// build script; as it is for a project without configuration.
pub open spec fn with_config(m: Manifest, cfg: BuildConfigView) -> Manifest {
    if cfg.is_empty {
        m
    } else {
        let features = with_default_features(
            with_features(m, all_features(cfg.variables)),
            sorting(defaults_in_order(cfg.variables)),
        );
        if script_needed(cfg) {
            with_value(features, "package"@, "build"@, TomlValue::Text("build.rs"@))
        } else {
            features
        }
    }
}

fn feature_of(name: &str, value: &str) -> (r: String)
    ensures
        r@ == value_feature(name@, value@),
{
    let mut out = name.to_owned();
    out.push_str("_");
    out.push_str(value);
    out
}

/// One feature per boolean variable, one per value of an enum variable.
pub fn feature_names(vars: &Vec<ConfigVariable>) -> (r: Vec<String>)
    ensures
        r.deep_view() == all_features(vars.deep_view()),
{
    let ghost all = vars.deep_view();
    let mut out: Vec<String> = Vec::new();
    let mut i: usize = 0;
    proof {
        assert(out.deep_view() =~= all_features(all.take(0)));
    }
    while i < vars.len()
        invariant
            all == vars.deep_view(),
            i <= vars@.len(),
            out.deep_view() == all_features(all.take(i as int)),
        decreases vars@.len() - i,
    {
        let ghost before = out.deep_view();
        let var = &vars[i];
        proof {
            assert(all.take(i + 1).drop_last() =~= all.take(i as int));
            assert(all.take(i + 1).last() == var.deep_view());
        }
        match &var.kind {
            ConfigVarKind::Boolean => {
                out.push(var.name.as_str().to_owned());
                proof {
                    assert(out.deep_view() =~= before + seq![var.name@]);
                }
            },
            ConfigVarKind::Enum { values, .. } => {
                let ghost want = variable_features(var.deep_view());
                let mut k: usize = 0;
                proof {
                    assert(out.deep_view() =~= before + want.take(0));
                }
                while k < values.len()
                    invariant
                        want == variable_features(var.deep_view()),
                        want == Seq::new(
                            values.deep_view().len(),
                            |i: int| value_feature(var.name@, values.deep_view()[i]),
                        ),
                        k <= values@.len(),
                        out.deep_view() == before + want.take(k as int),
                    decreases values@.len() - k,
                {
                    let ghost so_far = out.deep_view();
                    let f = feature_of(var.name.as_str(), values[k].as_str());
                    out.push(f);
                    proof {
                        assert(values.deep_view()[k as int] == values@[k as int]@);
                        assert(out.deep_view() =~= so_far.push(f@));
                        assert(want.take(k + 1) =~= want.take(k as int).push(f@));
                        assert(out.deep_view() =~= before + want.take(k + 1));
                    }
                    k += 1;
                }
                proof {
                    assert(want.take(k as int) =~= want);
                }
            },
        }
        i += 1;
    }
    proof {
        assert(all.take(i as int) =~= all);
    }
    out
}

fn holds(values: &Vec<String>, value: &str) -> (r: bool)
    ensures
        r == values.deep_view().contains(value@),
{
    let ghost all = values.deep_view();
    let mut i: usize = 0;
    while i < values.len()
        invariant
            all == values.deep_view(),
            i <= values@.len(),
            forall|j: int| 0 <= j < i ==> all[j] != value@,
        decreases values@.len() - i,
    {
        if same(values[i].as_str(), value) {
            proof {
                assert(all[i as int] == value@);
            }
            return true;
        }
        i += 1;
    }
    false
}

fn pick_value(values: &Vec<String>, default: &Option<String>) -> (r: String)
    ensures
        r@ == picked_value(values.deep_view(), default.deep_view()),
{
    match default {
        Some(d) => {
            if holds(values, d.as_str()) {
                return d.as_str().to_owned();
            }
        },
        None => {},
    }
    if values.len() > 0 {
        values[0].as_str().to_owned()
    } else {
        let empty = String::new();
        proof {
            assert(empty@ =~= seq![]);
        }
        empty
    }
}

fn default_of(var: &ConfigVariable) -> (r: Option<String>)
    ensures
        r.deep_view() == default_feature(var.deep_view()),
{
    match &var.kind {
        ConfigVarKind::Boolean => match &var.default {
            Some(d) => if same(d.as_str(), "true") {
                Some(var.name.as_str().to_owned())
            } else {
                None
            },
            None => None,
        },
        ConfigVarKind::Enum { values, .. } => {
            let pick = pick_value(values, &var.default);
            if pick.as_str().is_empty() {
                None
            } else {
                Some(feature_of(var.name.as_str(), pick.as_str()))
            }
        },
    }
}

/// The features that are on by default, sorted.
///
/// - A boolean variable gives its name iff its default is `true`.
/// - An enum variable gives the feature of its default value, falling back to
///   the first listed value when no default is recorded or it is not listed.
pub fn default_features(vars: &Vec<ConfigVariable>) -> (r: Vec<String>)
    ensures
        is_sorting(defaults_in_order(vars.deep_view()), r.deep_view()),
        r.deep_view() == sorting(defaults_in_order(vars.deep_view())),
        is_sorting(defaults_in_order(vars.deep_view()), r.deep_view()),
{
    let ghost all = vars.deep_view();
    let mut out: Vec<String> = Vec::new();
    let mut i: usize = 0;
    proof {
        assert(out.deep_view() =~= defaults_in_order(all.take(0)));
    }
    while i < vars.len()
        invariant
            all == vars.deep_view(),
            i <= vars@.len(),
            out.deep_view() == defaults_in_order(all.take(i as int)),
        decreases vars@.len() - i,
    {
        let ghost before = out.deep_view();
        proof {
            assert(all.take(i + 1).drop_last() =~= all.take(i as int));
            assert(all.take(i + 1).last() == vars@[i as int].deep_view());
        }
        match default_of(&vars[i]) {
            Some(f) => {
                out.push(f);
                proof {
                    assert(out.deep_view() =~= before.push(f@));
                }
            },
            None => {},
        }
        i += 1;
    }
    proof {
        assert(all.take(i as int) =~= all);
    }
    let sorted = sort_strings(out);
    proof {
        sorting_is(defaults_in_order(vars.deep_view()), sorted.deep_view());
    }
    sorted
}

/// True iff the IR requires a generated `build.rs`. Booleans alone do not: the
/// Rust code can guard them with `#[cfg(feature = "...")]` directly.
pub fn needs_build_script(cfg: &BuildConfigIR) -> (r: bool)
    ensures
        r == script_needed(cfg.deep_view()),
{
    let ghost v = cfg.deep_view();
    let mut i: usize = 0;
    while i < cfg.variables.len()
        invariant
            v == cfg.deep_view(),
            i <= cfg.variables@.len(),
            forall|j: int| 0 <= j < i ==> !((#[trigger] v.variables[j]).kind is Enum),
        decreases cfg.variables@.len() - i,
    {
        proof {
            assert(v.variables[i as int] == cfg.variables@[i as int].deep_view());
        }
        match &cfg.variables[i].kind {
            ConfigVarKind::Enum { .. } => {
                proof {
                    assert(v.variables[i as int].kind is Enum);
                }
                return true;
            },
            ConfigVarKind::Boolean => {},
        }
        i += 1;
    }
    let mut k: usize = 0;
    while k < cfg.defines.len()
        invariant
            v == cfg.deep_view(),
            k <= cfg.defines@.len(),
            forall|j: int| 0 <= j < k ==> (#[trigger] v.defines[j]).kind is GatedFlag,
        decreases cfg.defines@.len() - k,
    {
        proof {
            assert(v.defines[k as int] == cfg.defines@[k as int].deep_view());
        }
        match &cfg.defines[k].kind {
            DefineKind::GatedFlag { .. } => {},
            _ => {
                proof {
                    assert(!(v.defines[k as int].kind is GatedFlag));
                }
                return true;
            },
        }
        k += 1;
    }
    false
}

/// Writes the features of a project into its manifest. The result says whether
/// a build script has to be added.
pub fn apply_features_to_cargo(cargo: &mut CargoToml, cfg: &BuildConfigIR) -> (r: bool)
    ensures
        final(cargo)@ == with_config(old(cargo)@, cfg.deep_view()),
        r == (!cfg.is_empty && script_needed(cfg.deep_view())),
{
    if cfg.is_empty {
        return false;
    }
    cargo.add_features(&feature_names(&cfg.variables));
    cargo.set_default_features(&default_features(&cfg.variables));
    let needed = needs_build_script(cfg);
    if needed {
        cargo.set_package("build", "build.rs");
    }
    needed
}

/// What is wrong with a manifest that cannot be edited.
pub open spec fn manifest_error(dir: Map<Seq<char>, Seq<u8>>) -> Option<ManifestError> {
    if !dir.dom().contains("Cargo.toml"@) {
        Some(ManifestError::NoManifest)
    } else {
        match utf8_text(dir["Cargo.toml"@]) {
            None => Some(ManifestError::NotUtf8),
            Some(text) => if parsed_manifest(text) is None {
                Some(ManifestError::NotToml)
            } else {
                None
            },
        }
    }
}

/// The contents of the manifest of a package.
pub open spec fn manifest_in(dir: Map<Seq<char>, Seq<u8>>) -> Manifest {
    crate::cargo_toml::manifest_items(parsed_manifest(utf8_text(dir["Cargo.toml"@])->0)->0)
}

/// Reads the manifest of a package.
pub fn read_manifest(package: &RawDir) -> (r: Result<CargoToml, ManifestError>)
    ensures
        match r {
            Ok(cargo) => manifest_error(package@) is None && cargo@ == manifest_in(package@),
            Err(e) => manifest_error(package@) == Some(e),
        },
{
    let bytes = match package.get_file("Cargo.toml") {
        Some(b) => b,
        None => {
            return Err(ManifestError::NoManifest);
        },
    };
    let text = match read_utf8(bytes.as_slice()) {
        Some(t) => t,
        None => {
            return Err(ManifestError::NotUtf8);
        },
    };
    match CargoToml::open(text.as_str()) {
        Some(cargo) => Ok(cargo),
        None => Err(ManifestError::NotToml),
    }
}

/// The package after the features were emitted: its manifest holds them, the
/// build script is there if it is needed, and every other file is as it was.
pub open spec fn emitted(
    before: Map<Seq<char>, Seq<u8>>,
    after: Map<Seq<char>, Seq<u8>>,
    cfg: BuildConfigView,
    build_rs: Seq<char>,
) -> bool {
    if cfg.is_empty {
        after == before
    } else {
        exists|text: Seq<char>|
            prints(text, with_config(manifest_in(before), cfg)) && after == (if script_needed(
                cfg,
            ) {
                before.insert("Cargo.toml"@, vstd::utf8::encode_utf8(text)).insert(
                    "build.rs"@,
                    vstd::utf8::encode_utf8(build_rs),
                )
            } else {
                before.insert("Cargo.toml"@, vstd::utf8::encode_utf8(text))
            })
    }
}

/// Rewrites the manifest of a package so that the configurable variables become
/// features, and adds the build script `build_rs` if one is needed. A package
/// without configuration is returned unchanged.
pub fn apply(package: RawDir, cfg: &BuildConfigIR, build_rs: &str) -> (r: Result<
    RawDir,
    ManifestError,
>)
    ensures
        match r {
            Ok(dir) => (cfg.is_empty || manifest_error(package@) is None) && emitted(
                package@,
                dir@,
                cfg.deep_view(),
                build_rs@,
            ),
            Err(e) => !cfg.is_empty && manifest_error(package@) == Some(e),
        },
{
    if cfg.is_empty {
        return Ok(package);
    }
    let mut cargo = match read_manifest(&package) {
        Ok(c) => c,
        Err(e) => {
            return Err(e);
        },
    };
    let ghost before = package@;
    let needed = apply_features_to_cargo(&mut cargo, cfg);
    let text = cargo.save();
    let mut out = package;
    proof {
        assert(prints(text@, with_config(manifest_in(before), cfg.deep_view())));
    }
    out.set_file("Cargo.toml", bytes_of(text.as_str()));
    if needed {
        out.set_file("build.rs", bytes_of(build_rs));
    }
    Ok(out)
}

/// The features of different variables are listed for every variable: each
/// boolean by its name, each value of an enum.
pub proof fn every_variable_is_a_feature(vars: Seq<ConfigVariableView>, i: int, f: Seq<char>)
    requires
        0 <= i < vars.len(),
        variable_features(vars[i]).contains(f),
    ensures
        all_features(vars).contains(f),
    decreases vars.len(),
{
    let rest = all_features(vars.drop_last());
    let last = variable_features(vars.last());
    if i == vars.len() - 1 {
        let k = choose|k: int| 0 <= k < last.len() && last[k] == f;
        assert((rest + last)[rest.len() + k] == f);
    } else {
        every_variable_is_a_feature(vars.drop_last(), i, f);
        let k = choose|k: int| 0 <= k < rest.len() && rest[k] == f;
        assert((rest + last)[k] == f);
    }
}

/// A default feature of a variable is one of its features.
pub proof fn default_is_a_feature(v: ConfigVariableView)
    requires
        default_feature(v) is Some,
    ensures
        variable_features(v).contains(default_feature(v)->0),
{
    match v.kind {
        ConfigVarKindView::Boolean => {
            assert(variable_features(v)[0] == v.name);
        },
        ConfigVarKindView::Enum { values, .. } => {
            let pick = picked_value(values, v.default);
            let k = if v.default is Some && values.contains(v.default->0) {
                choose|k: int| 0 <= k < values.len() && values[k] == v.default->0
            } else {
                0
            };
            assert(values[k] == pick);
            assert(variable_features(v)[k] == value_feature(v.name, pick));
        },
    }
}

/// Every default feature is a feature of the package.
pub proof fn defaults_are_features(vars: Seq<ConfigVariableView>, f: Seq<char>)
    requires
        defaults_in_order(vars).contains(f),
    ensures
        all_features(vars).contains(f),
    decreases vars.len(),
{
    if vars.len() > 0 {
        let rest = defaults_in_order(vars.drop_last());
        if default_feature(vars.last()) == Some(f) {
            default_is_a_feature(vars.last());
            assert(vars[vars.len() - 1] == vars.last());
            every_variable_is_a_feature(vars, vars.len() - 1, f);
        } else {
            let all = defaults_in_order(vars);
            let k = choose|k: int| 0 <= k < all.len() && all[k] == f;
            assert(rest[k] == f);
            defaults_are_features(vars.drop_last(), f);
            let inner = all_features(vars.drop_last());
            let j = choose|j: int| 0 <= j < inner.len() && inner[j] == f;
            assert(all_features(vars)[j] == f);
        }
    }
}

} // verus!
