//! What holds of packages and their manifests.
use crate::agentic::left_behind;
use crate::build_config::ir::{BuildConfigView, ConfigVarKindView, ConfigVariableView};
use crate::build_project_spec::ProjectKind;
use crate::cargo_toml::{
    is_table, parsed_manifest, prints, text_at, with_bin_driver, with_default_features,
    with_features, with_lib, with_table, with_value, Manifest, TomlItem, TomlValue,
};
use crate::emit_build_features::{
    all_features, default_feature, defaults_in_order, emitted, manifest_error, manifest_in,
    picked_value, script_needed, variable_features, with_config, ManifestError,
};
use crate::fs::{files_without, path_listed};
use crate::normalize_cargo::normalized;
use crate::order::sorting;
use crate::package::{package_source, source_name, PackageError};
use crate::seqs::{filter_map_has, flat_map_last};
use crate::text::utf8_text;
use crate::translate_agentic::{
    agent_line, agent_prompt, base_manifest, dropped_dirs, dropped_files, post_processed,
    scaffold_manifest, AgentKind, BasePrompts, PromptOverrides,
};
use vstd::prelude::*;

verus! {

// ---------------------------------------------------------------------------
// Manifests
// ---------------------------------------------------------------------------

/// The key is free for a table: nothing stands there, or a table does.
pub open spec fn table_or_free(m: Manifest, key: Seq<char>) -> bool {
    m.dom().contains(key) ==> m[key] is Table
}

/// The two manifests differ at most in what stands under the key.
pub open spec fn same_but(a: Manifest, b: Manifest, key: Seq<char>) -> bool {
    forall|k: Seq<char>|
        k != key ==> #[trigger] a.dom().contains(k) == b.dom().contains(k) && (a.dom().contains(k)
            ==> a[k] == b[k])
}

/// Setting a value in a table sets that value: the other values of the table and the
/// other entries of the manifest stay. Where there is no table nothing changes.
pub proof fn values_are_set_in_their_table(
    m: Manifest,
    table: Seq<char>,
    key: Seq<char>,
    v: TomlValue,
)
    ensures
        ({
            let after = with_value(m, table, key, v);
            &&& same_but(after, m, table)
            &&& !is_table(m, table) ==> after == m
            &&& is_table(m, table) ==> is_table(after, table)
                && after[table]->Table_0.dom().contains(
                key,
            ) && after[table]->Table_0[key] == v && forall|k: Seq<char>|
                k != key ==> #[trigger] after[table]->Table_0.dom().contains(k)
                    == m[table]->Table_0.dom().contains(k) && after[table]->Table_0[k]
                    == m[table]->Table_0[k]
        }),
{
}

/// A table is added where nothing stands, and what stands stays.
pub proof fn missing_tables_are_added(m: Manifest, key: Seq<char>)
    ensures
        with_table(m, key).dom() == m.dom().insert(key),
        same_but(with_table(m, key), m, key),
        m.dom().contains(key) ==> with_table(m, key) == m,
        !m.dom().contains(key) ==> with_table(m, key)[key] == TomlItem::Table(
            Map::<Seq<char>, TomlValue>::empty(),
        ),
{
    assert(with_table(m, key).dom() =~= m.dom().insert(key));
}

/// A library is named, and built as a C library; the rest of the manifest stays.
pub proof fn libraries_are_c_libraries(m: Manifest, name: Seq<char>)
    requires
        table_or_free(m, "lib"@),
    ensures
        ({
            let after = with_lib(m, name);
            &&& same_but(after, m, "lib"@)
            &&& text_at(after, "lib"@, "name"@) == Some(name)
            &&& is_table(after, "lib"@)
            &&& after["lib"@]->Table_0["crate-type"@] == TomlValue::Texts(seq!["cdylib"@])
            &&& after["lib"@]->Table_0.dom().contains("crate-type"@)
        }),
{
    reveal_strlit("name");
    reveal_strlit("crate-type");
    assert("name"@.len() == 4 && "crate-type"@.len() == 10);
}

/// The first program of a package is named `driver`: one that is there keeps the rest
/// of what it says, and the other programs stay; where there is none, it is made from
/// `src/main.rs`. The rest of the manifest stays.
pub proof fn the_program_is_the_driver(m: Manifest)
    ensures
        ({
            let after = with_bin_driver(m);
            let bins = after["bin"@]->Tables_0;
            &&& same_but(after, m, "bin"@)
            &&& after.dom().contains("bin"@) && after["bin"@] is Tables && bins.len() > 0
            &&& bins[0].dom().contains("name"@) && bins[0]["name"@] == TomlValue::Text("driver"@)
            &&& (m.dom().contains("bin"@) && m["bin"@] is Tables && m["bin"@]->Tables_0.len() > 0)
                ==> {
                let old_bins = m["bin"@]->Tables_0;
                &&& bins.len() == old_bins.len()
                &&& forall|i: int| 0 < i < bins.len() ==> #[trigger] bins[i] == old_bins[i]
                &&& forall|k: Seq<char>|
                    k != "name"@ ==> #[trigger] bins[0].dom().contains(k)
                        == old_bins[0].dom().contains(k) && bins[0][k] == old_bins[0][k]
            }
            &&& !(m.dom().contains("bin"@) && m["bin"@] is Tables && m["bin"@]->Tables_0.len() > 0)
                ==> bins.len() == 1 && bins[0].dom().contains("path"@) && bins[0]["path"@]
                == TomlValue::Text("src/main.rs"@)
        }),
{
    reveal_strlit("name");
    reveal_strlit("path");
    assert("name"@[0] == 'n' && "path"@[0] == 'p');
}

/// Every feature that is added is there, enabling nothing else; what was in the table
/// under another name stays, and so does the rest of the manifest.
pub proof fn every_feature_is_added(m: Manifest, features: Seq<Seq<char>>)
    requires
        table_or_free(m, "features"@),
    ensures
        ({
            let after = with_features(m, features);
            let table = after["features"@]->Table_0;
            &&& same_but(after, m, "features"@)
            &&& is_table(after, "features"@)
            &&& forall|i: int|
                0 <= i < features.len() ==> table.dom().contains(#[trigger] features[i])
                    && table[features[i]] == TomlValue::Texts(Seq::<Seq<char>>::empty())
            &&& forall|k: Seq<char>|
                !features.contains(k)
                    && is_table(m, "features"@) ==> #[trigger] table.dom().contains(
                    k,
                ) == m["features"@]->Table_0.dom().contains(k) && table[k]
                    == m["features"@]->Table_0[k]
            &&& forall|k: Seq<char>|
                #[trigger] table.dom().contains(k) ==> features.contains(k) || (is_table(
                    m,
                    "features"@,
                ) && m["features"@]->Table_0.dom().contains(k))
        }),
    decreases features.len(),
{
    let after = with_features(m, features);
    let table = after["features"@]->Table_0;
    if features.len() > 0 {
        let rest = features.drop_last();
        let n = features.len() - 1;
        every_feature_is_added(m, rest);
        let before = with_features(m, rest);
        let old_table = before["features"@]->Table_0;
        assert(table == old_table.insert(features[n], TomlValue::Texts(seq![])));
        assert forall|i: int| 0 <= i < features.len() implies table.dom().contains(
            #[trigger] features[i],
        ) && table[features[i]] == TomlValue::Texts(Seq::<Seq<char>>::empty()) by {
            if i < n {
                assert(rest[i] == features[i]);
            }
        }
        assert forall|k: Seq<char>| !features.contains(k) && is_table(m, "features"@) implies
            #[trigger] table.dom().contains(k) == m["features"@]->Table_0.dom().contains(k)
            && table[k] == m["features"@]->Table_0[k] by {
            assert(k != features[n]);
            if rest.contains(k) {
                let j = choose|j: int| 0 <= j < rest.len() && rest[j] == k;
                assert(features[j] == k);
            }
            assert(old_table.dom().contains(k) == m["features"@]->Table_0.dom().contains(k));
        }
        assert forall|k: Seq<char>| #[trigger] table.dom().contains(k) implies features.contains(k)
            || (is_table(m, "features"@) && m["features"@]->Table_0.dom().contains(k)) by {
            if k != features[n] {
                assert(old_table.dom().contains(k));
                if rest.contains(k) {
                    let j = choose|j: int| 0 <= j < rest.len() && rest[j] == k;
                    assert(features[j] == k);
                }
            }
        }
    }
}

/// The default features are those given; the other features and the rest of the
/// manifest stay.
pub proof fn default_features_are_set(m: Manifest, features: Seq<Seq<char>>)
    requires
        table_or_free(m, "features"@),
    ensures
        ({
            let after = with_default_features(m, features);
            let table = after["features"@]->Table_0;
            &&& same_but(after, m, "features"@)
            &&& is_table(after, "features"@)
            &&& table.dom().contains("default"@)
            &&& table["default"@] == TomlValue::Texts(features)
            &&& forall|k: Seq<char>|
                k != "default"@ && is_table(m, "features"@) ==> #[trigger] table.dom().contains(k)
                    == m["features"@]->Table_0.dom().contains(k) && table[k]
                    == m["features"@]->Table_0[k]
        }),
{
}

/// A normalized package is named `driver` and is a workspace of its own; the rest of
/// its manifest stays.
pub proof fn normalized_packages_are_drivers(m: Manifest)
    ensures
        ({
            let after = normalized(m);
            &&& after.dom().contains("workspace"@)
            &&& is_table(m, "package"@) ==> text_at(after, "package"@, "name"@) == Some("driver"@)
            &&& forall|k: Seq<char>|
                k != "workspace"@ && k != "package"@ ==> #[trigger] after.dom().contains(k)
                    == m.dom().contains(k) && after[k] == m[k]
            &&& m.dom().contains("workspace"@) ==> after["workspace"@] == m["workspace"@]
        }),
{
    reveal_strlit("workspace");
    reveal_strlit("package");
    assert("workspace"@.len() == 9 && "package"@.len() == 7);
}

/// A translated package is a workspace of its own. A library has no program and is a
/// C library under the name of its package; a program is the driver.
pub proof fn translated_packages_have_their_target(m: Manifest)
    ensures
        ({
            let lib = post_processed(m, ProjectKind::Library);
            let program = post_processed(m, ProjectKind::Executable);
            &&& lib.dom().contains("workspace"@)
            &&& program.dom().contains("workspace"@)
            &&& !lib.dom().contains("bin"@)
            &&& table_or_free(m, "lib"@) && text_at(m, "package"@, "name"@) is Some ==> text_at(
                lib,
                "lib"@,
                "name"@,
            ) == text_at(m, "package"@, "name"@)
            &&& program.dom().contains("bin"@) && program["bin"@] is Tables
                && program["bin"@]->Tables_0[0]["name"@] == TomlValue::Text("driver"@)
            &&& text_at(lib, "package"@, "name"@) == text_at(m, "package"@, "name"@)
            &&& text_at(program, "package"@, "name"@) == text_at(m, "package"@, "name"@)
        }),
{
    reveal_strlit("workspace");
    reveal_strlit("package");
    reveal_strlit("bin");
    reveal_strlit("lib");
    reveal_strlit("name");
    reveal_strlit("crate-type");
    assert("workspace"@.len() == 9 && "package"@.len() == 7);
    assert("bin"@[0] == 'b' && "lib"@[0] == 'l' && "bin"@.len() == 3 && "lib"@.len() == 3);
    assert("name"@.len() == 4 && "crate-type"@.len() == 10);
    let w = with_table(m, "workspace"@);
    let lib = w.remove("bin"@);
    assert(text_at(lib, "package"@, "name"@) == text_at(m, "package"@, "name"@));
    if table_or_free(m, "lib"@) && text_at(m, "package"@, "name"@) is Some {
        libraries_are_c_libraries(lib, text_at(m, "package"@, "name"@)->0);
    }
    the_program_is_the_driver(w);
    assert(w.dom().contains("package"@) == with_bin_driver(w).dom().contains("package"@));
}

/// The scaffold of a package is a workspace with the target of its kind, and without
/// a configuration nothing else is added.
pub proof fn scaffolds_have_their_target(
    m: Manifest,
    name: Seq<char>,
    cfg: BuildConfigView,
)
    requires
        table_or_free(m, "lib"@),
        cfg.is_empty,
    ensures
        ({
            let lib = scaffold_manifest(m, name, ProjectKind::Library, cfg);
            let program = scaffold_manifest(m, name, ProjectKind::Executable, cfg);
            &&& lib.dom().contains("workspace"@) && program.dom().contains("workspace"@)
            &&& text_at(lib, "lib"@, "name"@) == Some(name)
            &&& program.dom().contains("bin"@) && program["bin"@] is Tables
                && program["bin"@]->Tables_0[0]["name"@] == TomlValue::Text("driver"@)
            &&& lib.dom().contains("bin"@) == m.dom().contains("bin"@)
            &&& program.dom().contains("lib"@) == m.dom().contains("lib"@)
        }),
{
    reveal_strlit("workspace");
    reveal_strlit("bin");
    reveal_strlit("lib");
    assert("workspace"@.len() == 9 && "bin"@.len() == 3 && "lib"@.len() == 3);
    assert("bin"@[0] == 'b' && "lib"@[0] == 'l');
    libraries_are_c_libraries(m, name);
    the_program_is_the_driver(m);
    assert(with_lib(m, name).dom().contains("bin"@) == m.dom().contains("bin"@));
    assert(with_bin_driver(m).dom().contains("lib"@) == m.dom().contains("lib"@));
}

/// The manifest that a package starts from names it and gives the edition.
pub proof fn base_manifests_name_the_package(name: Seq<char>)
    ensures
        ("[package]\nname = \""@ + name + "\"\n"@).is_prefix_of(base_manifest(name)),
        crate::text::has_part(base_manifest(name), "edition = \"2021\"\n"@),
{
    let all = base_manifest(name);
    let head = "[package]\nname = \""@ + name + "\"\n"@;
    reveal_strlit("\"\n");
    reveal_strlit("\"\nversion = \"0.1.0\"\nedition = \"2021\"\n");
    reveal_strlit("edition = \"2021\"\n");
    let end = "\"\nversion = \"0.1.0\"\nedition = \"2021\"\n"@;
    assert(end.subrange(0, 2) =~= "\"\n"@);
    assert(all.subrange(0, head.len() as int) =~= head);
    let k = end.len() - "edition = \"2021\"\n"@.len();
    assert(end.skip(k) =~= "edition = \"2021\"\n"@);
    let before = "[package]\nname = \""@ + name + end.take(k);
    assert(all =~= before + "edition = \"2021\"\n"@ + Seq::<char>::empty());
    crate::text_laws::parts_are_found(before, "edition = \"2021\"\n"@, Seq::<char>::empty());
}

// ---------------------------------------------------------------------------
// Features
// ---------------------------------------------------------------------------

/// The features are those of the variables, in order: a boolean is one of its name,
/// an enumeration one for each of its values.
pub proof fn features_follow_the_variables(
    vars: Seq<ConfigVariableView>,
    v: ConfigVariableView,
)
    ensures
        all_features(vars) == vars.flat_map(|v: ConfigVariableView| variable_features(v)),
        v.kind is Boolean ==> variable_features(v) == seq![v.name],
        v.kind matches ConfigVarKindView::Enum { values, .. } ==> variable_features(v)
            == values.map_values(|x: Seq<char>| v.name + "_"@ + x),
    decreases vars.len(),
{
    flat_map_last(vars, |v: ConfigVariableView| variable_features(v));
    if vars.len() > 0 {
        features_follow_the_variables(vars.drop_last(), v);
    }
    match v.kind {
        ConfigVarKindView::Enum { values, numeric } => {
            assert(variable_features(v) =~= values.map_values(
                |x: Seq<char>| v.name + "_"@ + x,
            ));
        },
        _ => {},
    }
}

/// The default features are those of the variables that have one, in order: a
/// boolean that is on, and for an enumeration its default, or its first value where
/// it has no default among its values.
pub proof fn defaults_follow_the_variables(
    vars: Seq<ConfigVariableView>,
    v: ConfigVariableView,
)
    ensures
        defaults_in_order(vars) == vars.filter_map(|v: ConfigVariableView| default_feature(v)),
        forall|i: int|
            0 <= i < vars.len() ==> (default_feature(#[trigger] vars[i]) matches Some(f)
                ==> defaults_in_order(vars).contains(f)),
        v.kind is Boolean ==> default_feature(v) == (if v.default == Some("true"@) {
            Some(v.name)
        } else {
            None
        }),
        v.kind matches ConfigVarKindView::Enum { values, .. } ==> {
            &&& (v.default matches Some(d) && d.len() > 0
                && values.contains(d)) ==> default_feature(
                v,
            ) == Some(v.name + "_"@ + v.default->0)
            &&& (!(v.default matches Some(d) && values.contains(d)) && values.len() > 0
                && values[0].len() > 0) ==> default_feature(v) == Some(
                v.name + "_"@ + values[0],
            )
            &&& values.len() == 0 ==> default_feature(v) is None
        },
    decreases vars.len(),
{
    let f = |v: ConfigVariableView| default_feature(v);
    if vars.len() > 0 {
        defaults_follow_the_variables(vars.drop_last(), v);
    }
    assert(defaults_in_order(vars) =~= vars.filter_map(f));
    filter_map_has(vars, f);
    assert forall|i: int| 0 <= i < vars.len() implies (default_feature(
        #[trigger] vars[i],
    ) matches Some(x) ==> defaults_in_order(vars).contains(x)) by {
        assert(f(vars[i]) == default_feature(vars[i]));
    }
}

/// A configured manifest has every feature of the variables and the sorted defaults,
/// and a build script where one is needed; without a configuration it stays.
pub proof fn configured_manifests_have_their_features(m: Manifest, cfg: BuildConfigView)
    requires
        table_or_free(m, "features"@),
    ensures
        ({
            let after = with_config(m, cfg);
            let table = after["features"@]->Table_0;
            &&& cfg.is_empty ==> after == m
            &&& !cfg.is_empty ==> is_table(after, "features"@) && table["default"@]
                == TomlValue::Texts(sorting(defaults_in_order(cfg.variables)))
            &&& !cfg.is_empty ==> forall|i: int|
                0 <= i < all_features(cfg.variables).len() && #[trigger] all_features(
                    cfg.variables,
                )[i] != "default"@ ==> table.dom().contains(all_features(cfg.variables)[i])
                    && table[all_features(cfg.variables)[i]] == TomlValue::Texts(
                    Seq::<Seq<char>>::empty(),
                )
            &&& !cfg.is_empty && script_needed(cfg) && is_table(m, "package"@) ==> text_at(
                after,
                "package"@,
                "build"@,
            ) == Some("build.rs"@)
            &&& !cfg.is_empty && !script_needed(cfg) ==> same_but(after, m, "features"@)
        }),
{
    reveal_strlit("features");
    reveal_strlit("package");
    assert("features"@.len() == 8 && "package"@.len() == 7);
    if !cfg.is_empty {
        let names = all_features(cfg.variables);
        let one = with_features(m, names);
        every_feature_is_added(m, names);
        default_features_are_set(one, sorting(defaults_in_order(cfg.variables)));
        let two = with_default_features(one, sorting(defaults_in_order(cfg.variables)));
        assert(one.dom().contains("package"@) == m.dom().contains("package"@));
        assert(two.dom().contains("package"@) == one.dom().contains("package"@));
        let table = two["features"@]->Table_0;
        assert forall|i: int| 0 <= i < names.len() && #[trigger] names[i] != "default"@ implies
            table.dom().contains(names[i]) && table[names[i]] == TomlValue::Texts(
            Seq::<Seq<char>>::empty(),
        ) by {
            assert(one["features"@]->Table_0.dom().contains(names[i]));
        }
        assert forall|k: Seq<char>| k != "features"@ implies #[trigger] two.dom().contains(k)
            == m.dom().contains(k) && (two.dom().contains(k) ==> two[k] == m[k]) by {
            assert(one.dom().contains(k) == m.dom().contains(k));
        }
    }
}

/// A build script is needed for an enumeration and for a define that is no flag, and
/// for nothing else.
pub proof fn flags_need_no_script(cfg: BuildConfigView)
    ensures
        (forall|i: int| 0 <= i < cfg.variables.len() ==> (#[trigger] cfg.variables[i]).kind
            is Boolean) && (forall|i: int|
            0 <= i < cfg.defines.len() ==> (#[trigger] cfg.defines[i]).kind is GatedFlag)
            ==> !script_needed(cfg),
        forall|i: int|
            0 <= i < cfg.variables.len() && (#[trigger] cfg.variables[i]).kind is Enum
                ==> script_needed(cfg),
        forall|i: int|
            0 <= i < cfg.defines.len() && !((#[trigger] cfg.defines[i]).kind is GatedFlag)
                ==> script_needed(cfg),
{
}

/// A value that is picked is one of the values.
pub proof fn picked_values_are_values(values: Seq<Seq<char>>, default: Option<Seq<char>>)
    ensures
        values.len() > 0 ==> values.contains(picked_value(values, default)),
        (default matches Some(d) && values.contains(d)) ==> Some(picked_value(values, default))
            == default,
        values.len() == 0 ==> picked_value(values, default).len() == 0,
{
    if values.len() > 0 {
        assert(values.contains(values[0]));
    }
}

// ---------------------------------------------------------------------------
// Files
// ---------------------------------------------------------------------------

/// A manifest can be read if it is there, is text and is TOML; what is wrong first is
/// told.
pub proof fn manifests_fail_for_a_reason(dir: Map<Seq<char>, Seq<u8>>)
    ensures
        !dir.dom().contains("Cargo.toml"@) <==> manifest_error(dir) == Some(
            ManifestError::NoManifest,
        ),
        dir.dom().contains("Cargo.toml"@) && utf8_text(dir["Cargo.toml"@]) is None
            <==> manifest_error(dir) == Some(ManifestError::NotUtf8),
        dir.dom().contains("Cargo.toml"@) && (utf8_text(dir["Cargo.toml"@]) matches Some(text)
            && parsed_manifest(text) is None) <==> manifest_error(dir) == Some(
            ManifestError::NotToml,
        ),
{
}

/// The source of a package is `src/main.rs`, else `src/lib.rs`; a package without
/// either, without a manifest, or with one of them no text is refused.
pub proof fn programs_come_before_libraries(dir: Map<Seq<char>, Seq<u8>>)
    ensures
        dir.dom().contains("src/main.rs"@) ==> source_name(dir) == Some("src/main.rs"@),
        !dir.dom().contains("src/main.rs"@) && dir.dom().contains("src/lib.rs"@) ==> source_name(
            dir,
        ) == Some("src/lib.rs"@),
        !dir.dom().contains("src/main.rs"@) && !dir.dom().contains("src/lib.rs"@)
            ==> package_source(dir) is Err && package_source(dir)->Err_0 == PackageError::NoSource,
        source_name(dir) is Some && !dir.dom().contains("Cargo.toml"@) ==> package_source(
            dir,
        ) is Err && package_source(dir)->Err_0 == PackageError::NoManifest,
        package_source(dir) matches Ok(p) ==> {
            &&& Some(p.source_file_name) == source_name(dir)
            &&& utf8_text(dir[p.source_file_name]) == Some(p.source)
            &&& utf8_text(dir["Cargo.toml"@]) == Some(p.cargo_toml)
        },
{
}

/// What is taken out of a directory are the listed files and those below the listed
/// prefixes; every other file stays as it is.
pub proof fn listed_files_are_taken_out(
    dir: Map<Seq<char>, Seq<u8>>,
    files: Seq<Seq<char>>,
    prefixes: Seq<Seq<char>>,
    path: Seq<char>,
)
    ensures
        files.contains(path) ==> !files_without(dir, files, prefixes).dom().contains(path),
        (exists|i: int| 0 <= i < prefixes.len() && (#[trigger] prefixes[i]).is_prefix_of(path))
            ==> !files_without(dir, files, prefixes).dom().contains(path),
        dir.dom().contains(path) && !files.contains(path) && (forall|i: int|
            0 <= i < prefixes.len() ==> !(#[trigger] prefixes[i]).is_prefix_of(path))
            ==> files_without(dir, files, prefixes).dom().contains(path) && files_without(
            dir,
            files,
            prefixes,
        )[path] == dir[path],
        !dir.dom().contains(path) ==> !files_without(dir, files, prefixes).dom().contains(path),
{
}

/// The file is not part of a translated package of the kind.
pub open spec fn left_out(path: Seq<char>, kind: ProjectKind) -> bool {
    path_listed(path, dropped_files(kind), dropped_dirs(kind))
}

/// A translated package leaves the C sources and the build behind; a library leaves
/// its program and its tests behind too.
pub proof fn translated_packages_leave_files_behind(rest: Seq<char>)
    ensures
        left_out("c_src/"@ + rest, ProjectKind::Library),
        left_out("target/"@ + rest, ProjectKind::Library),
        left_out("tests/"@ + rest, ProjectKind::Library),
        left_out("src/main.rs"@, ProjectKind::Library),
        left_out("c_src/"@ + rest, ProjectKind::Executable),
        left_out("target/"@ + rest, ProjectKind::Executable),
        !left_out("src/main.rs"@, ProjectKind::Executable),
        !left_out("Cargo.toml"@, ProjectKind::Library),
        !left_out("src/lib.rs"@, ProjectKind::Library),
{
    let lib = dropped_dirs(ProjectKind::Library);
    let program = dropped_dirs(ProjectKind::Executable);
    assert(lib =~= seq!["c_src/"@, "target/"@, "tests/"@]);
    assert(program =~= seq!["c_src/"@, "target/"@]);
    assert(("c_src/"@ + rest).subrange(0, "c_src/"@.len() as int) =~= "c_src/"@);
    assert(("target/"@ + rest).subrange(0, "target/"@.len() as int) =~= "target/"@);
    assert(("tests/"@ + rest).subrange(0, "tests/"@.len() as int) =~= "tests/"@);
    assert(lib[0].is_prefix_of("c_src/"@ + rest));
    assert(lib[1].is_prefix_of("target/"@ + rest));
    assert(lib[2].is_prefix_of("tests/"@ + rest));
    assert(program[0].is_prefix_of("c_src/"@ + rest));
    assert(program[1].is_prefix_of("target/"@ + rest));
    let files = dropped_files(ProjectKind::Library);
    assert(files[0] == "src/main.rs"@);
    assert(files.contains("src/main.rs"@));
    reveal_strlit("c_src/");
    reveal_strlit("target/");
    reveal_strlit("tests/");
    reveal_strlit("src/main.rs");
    reveal_strlit("src/lib.rs");
    reveal_strlit("Cargo.toml");
    assert("src/main.rs"@[0] == 's' && "src/lib.rs"@[0] == 's' && "Cargo.toml"@[0] == 'C');
    assert("src/main.rs"@.len() == 11 && "src/lib.rs"@.len() == 10 && "Cargo.toml"@.len() == 10);
    assert forall|i: int| 0 <= i < program.len() implies !(
    #[trigger] program[i]).is_prefix_of("src/main.rs"@) by {
        let p = program[i];
        if p.is_prefix_of("src/main.rs"@) {
            assert("src/main.rs"@.subrange(0, p.len() as int)[0] == 's');
            assert("c_src/"@[0] == 'c' && "target/"@[0] == 't');
        }
    }
    assert forall|i: int| 0 <= i < lib.len() implies !(#[trigger] lib[i]).is_prefix_of(
        "Cargo.toml"@,
    ) && !lib[i].is_prefix_of("src/lib.rs"@) by {
        let p = lib[i];
        assert("c_src/"@[0] == 'c' && "target/"@[0] == 't' && "tests/"@[0] == 't');
        if p.is_prefix_of("Cargo.toml"@) {
            assert("Cargo.toml"@.subrange(0, p.len() as int)[0] == 'C');
        }
        if p.is_prefix_of("src/lib.rs"@) {
            assert("src/lib.rs"@.subrange(0, p.len() as int)[0] == 's');
        }
    }
    assert(left_behind() =~= seq!["c_src/"@, "target/"@]);
}

// ---------------------------------------------------------------------------
// Agents
// ---------------------------------------------------------------------------

/// A prompt of the user is taken as it is, the one for the kind of the project where
/// there is one for each.
pub proof fn prompts_of_the_user_count(
    overrides: PromptOverrides,
    base: BasePrompts,
    cfg: BuildConfigView,
    kind: ProjectKind,
)
    ensures
        overrides.executable matches Some(p) ==> agent_prompt(
            overrides,
            base,
            ProjectKind::Executable,
            cfg,
            AgentKind::Kiro,
        ) == p@,
        overrides.library matches Some(p) ==> agent_prompt(
            overrides,
            base,
            ProjectKind::Library,
            cfg,
            AgentKind::Kiro,
        ) == p@,
        overrides.claude matches Some(p) ==> agent_prompt(
            overrides,
            base,
            kind,
            cfg,
            AgentKind::Claude,
        ) == p@,
        cfg.is_empty && overrides.executable is None ==> agent_prompt(
            overrides,
            base,
            ProjectKind::Executable,
            cfg,
            AgentKind::Kiro,
        ) == base.executable@,
        cfg.is_empty && overrides.library is None ==> agent_prompt(
            overrides,
            base,
            ProjectKind::Library,
            cfg,
            AgentKind::Kiro,
        ) == base.library@,
        cfg.is_empty && overrides.claude is None ==> agent_prompt(
            overrides,
            base,
            kind,
            cfg,
            AgentKind::Claude,
        ) == base.claude@,
{
}

/// An agent runs its program with the time limit, and the line fails where the
/// program does.
pub proof fn agents_run_within_their_time(agent: AgentKind, program: Seq<char>, timeout: nat)
    ensures
        ("set -o pipefail; timeout "@ + crate::text::decimal_of(timeout) + " "@
            + program).is_prefix_of(agent_line(agent, program, timeout)),
        " < /dev/null 2>&1 | tee \"$LOG\""@.is_suffix_of(agent_line(agent, program, timeout)),
{
    reveal_strlit(" < /dev/null 2>&1 | tee \"$LOG\"");
    reveal_strlit(
        " chat --no-interactive --trust-all-tools \"$PROMPT\" < /dev/null 2>&1 | tee \"$LOG\"",
    );
    reveal_strlit(
        " -p \"$PROMPT\" --permission-mode bypassPermissions --allowedTools 'Bash(*)' 'Write' 'Edit' --append-system-prompt \"$APPEND_SYS\" --output-format stream-json --verbose < /dev/null 2>&1 | tee \"$LOG\"",
    );
    reveal_strlit("set -o pipefail; ");
    reveal_strlit("timeout ");
    reveal_strlit("set -o pipefail; timeout ");
    assert("set -o pipefail; "@ + "timeout "@ =~= "set -o pipefail; timeout "@);
    let head = "set -o pipefail; timeout "@ + crate::text::decimal_of(timeout) + " "@ + program;
    let line = agent_line(agent, program, timeout);
    assert(line.subrange(0, head.len() as int) =~= head);
}

/// Only the manifest and the build script of a package change when its features are
/// put in: the script where one is needed, and nothing at all without a configuration.
pub proof fn other_files_stay(
    before: Map<Seq<char>, Seq<u8>>,
    after: Map<Seq<char>, Seq<u8>>,
    cfg: BuildConfigView,
    build_rs: Seq<char>,
    path: Seq<char>,
)
    requires
        emitted(before, after, cfg, build_rs),
    ensures
        cfg.is_empty ==> after == before,
        path != "Cargo.toml"@ && path != "build.rs"@ ==> after.dom().contains(path)
            == before.dom().contains(path) && after[path] == before[path],
        !cfg.is_empty && script_needed(cfg) ==> after.dom().contains("build.rs"@)
            && after["build.rs"@] == vstd::utf8::encode_utf8(build_rs),
        !script_needed(cfg) ==> after.dom().contains("build.rs"@) == before.dom().contains(
            "build.rs"@,
        ) && after["build.rs"@] == before["build.rs"@],
        !cfg.is_empty ==> after.dom().contains("Cargo.toml"@) && exists|text: Seq<char>|
            prints(text, with_config(manifest_in(before), cfg)) && after["Cargo.toml"@]
                == #[trigger] vstd::utf8::encode_utf8(text),
{
    reveal_strlit("Cargo.toml");
    reveal_strlit("build.rs");
    assert("Cargo.toml"@.len() == 10 && "build.rs"@.len() == 8);
    if !cfg.is_empty {
        let text = choose|text: Seq<char>|
            prints(text, with_config(manifest_in(before), cfg)) && after == (if script_needed(cfg) {
                before.insert("Cargo.toml"@, vstd::utf8::encode_utf8(text)).insert(
                    "build.rs"@,
                    vstd::utf8::encode_utf8(build_rs),
                )
            } else {
                before.insert("Cargo.toml"@, vstd::utf8::encode_utf8(text))
            });
        assert(after["Cargo.toml"@] == vstd::utf8::encode_utf8(text));
    }
}


/// A text of the manifest is found under its table and key, and nowhere else.
pub proof fn texts_stand_in_their_table(
    m: Manifest,
    table: Seq<char>,
    members: Map<Seq<char>, TomlValue>,
    key: Seq<char>,
    text: Seq<char>,
)
    ensures
        text_at(
            m.insert(table, TomlItem::Table(members.insert(key, TomlValue::Text(text)))),
            table,
            key,
        ) == Some(text),
        text_at(m.insert(table, TomlItem::Table(members.remove(key))), table, key) is None,
        text_at(
            m.insert(table, TomlItem::Table(members.insert(key, TomlValue::Other(text)))),
            table,
            key,
        ) is None,
        text_at(m.remove(table), table, key) is None,
{
}

} // verus!
