//! Manifests as `toml_edit` reads, edits and prints them.
use toml_edit::{Array, ArrayOfTables, DocumentMut, Item, Table};
use vstd::prelude::*;

verus! {

/// A manifest that is being edited.
#[verifier::external_type_specification]
#[verifier::external_body]
pub struct ExDocumentMut(toml_edit::DocumentMut);

/// What stands under a key of a table.
pub ghost enum TomlValue {
    /// A string.
    Text(Seq<char>),
    /// An array of nothing but strings.
    Texts(Seq<Seq<char>>),
    /// Anything else, as it is printed.
    Other(Seq<char>),
}

/// The keys of a table.
pub type TomlTable = Map<Seq<char>, TomlValue>;

/// What stands under a key of a manifest.
pub ghost enum TomlItem {
    /// A table, as `[package]`.
    Table(TomlTable),
    /// An array of tables, as `[[bin]]`.
    Tables(Seq<TomlTable>),
    /// Anything else, as it is printed.
    Other(Seq<char>),
}

/// What a manifest holds.
pub type Manifest = Map<Seq<char>, TomlItem>;

/// The contents of a document.
pub uninterp spec fn manifest_items(doc: DocumentMut) -> Map<Seq<char>, TomlItem>;

/// The document that `toml_edit` reads from `text`; `None` if it is not TOML.
pub uninterp spec fn parsed_manifest(text: Seq<char>) -> Option<DocumentMut>;

/// The text of a document.
pub uninterp spec fn printed_manifest(doc: DocumentMut) -> Seq<char>;

/// `<DocumentMut as FromStr>::from_str` reads a document. The result is a
/// function of the text; the grammar is left to that crate.
#[verifier::external_body]
fn parse_document(text: &str) -> (r: Option<DocumentMut>)
    ensures
        r == parsed_manifest(text@),
{
    text.parse().ok()
}

/// `<DocumentMut as Display>::fmt` prints a document. The result is a function
/// of the document; its layout is left to that crate.
#[verifier::external_body]
fn print_document(doc: &DocumentMut) -> (r: String)
    ensures
        r@ == printed_manifest(*doc),
{
    doc.to_string()
}

/// `Table::contains_key` on the root table.
#[verifier::external_body]
fn has_item(doc: &DocumentMut, key: &str) -> (r: bool)
    ensures
        r == manifest_items(*doc).dom().contains(key@),
{
    doc.contains_key(key)
}

/// `Table::contains_table` on the root table.
#[verifier::external_body]
fn has_table(doc: &DocumentMut, key: &str) -> (r: bool)
    ensures
        r == (manifest_items(*doc).dom().contains(key@) && manifest_items(*doc)[key@] is Table),
{
    doc.contains_table(key)
}

/// `Table::insert` of an empty table into the root table replaces what stood
/// under the key and leaves the other keys.
#[verifier::external_body]
fn insert_table(doc: &mut DocumentMut, key: &str)
    ensures
        manifest_items(*final(doc)) == manifest_items(*old(doc)).insert(
            key@,
            TomlItem::Table(Map::empty()),
        ),
{
    doc.insert(key, Item::Table(Table::new()));
}

/// `Table::remove` on the root table takes the key out and leaves the others.
#[verifier::external_body]
fn remove_item(doc: &mut DocumentMut, key: &str)
    ensures
        manifest_items(*final(doc)) == manifest_items(*old(doc)).remove(key@),
{
    doc.remove(key);
}

/// `Table::insert` of a string into a table of the manifest replaces what stood
/// under the key and leaves the other keys.
#[verifier::external_body]
fn set_text(doc: &mut DocumentMut, table: &str, key: &str, text: &str)
    requires
        manifest_items(*old(doc)).dom().contains(table@),
        manifest_items(*old(doc))[table@] is Table,
    ensures
        manifest_items(*final(doc)) == manifest_items(*old(doc)).insert(
            table@,
            TomlItem::Table(
                manifest_items(*old(doc))[table@]->Table_0.insert(key@, TomlValue::Text(text@)),
            ),
        ),
{
    doc.get_mut(table).and_then(Item::as_table_mut).map(|t| t.insert(key, toml_edit::value(text)));
}

/// `Table::insert` of an array of strings into a table of the manifest replaces
/// what stood under the key and leaves the other keys.
#[verifier::external_body]
fn set_texts(doc: &mut DocumentMut, table: &str, key: &str, texts: &Vec<String>)
    requires
        manifest_items(*old(doc)).dom().contains(table@),
        manifest_items(*old(doc))[table@] is Table,
    ensures
        manifest_items(*final(doc)) == manifest_items(*old(doc)).insert(
            table@,
            TomlItem::Table(
                manifest_items(*old(doc))[table@]->Table_0.insert(
                    key@,
                    TomlValue::Texts(texts.deep_view()),
                ),
            ),
        ),
{
    let array = toml_edit::value(Array::from_iter(texts.iter().map(String::as_str)));
    doc.get_mut(table).and_then(Item::as_table_mut).map(|t| t.insert(key, array));
}

/// `Item::as_str` on what stands under a key of a table of the manifest.
#[verifier::external_body]
fn text_in_table(doc: &DocumentMut, table: &str, key: &str) -> (r: Option<String>)
    ensures
        r.deep_view() == text_at(manifest_items(*doc), table@, key@),
{
    doc.get(table)?.as_table()?.get(key)?.as_str().map(String::from)
}

/// `ArrayOfTables::get` at the first position of an array of tables.
#[verifier::external_body]
fn has_first(doc: &DocumentMut, key: &str) -> (r: bool)
    ensures
        r == has_first_table(manifest_items(*doc), key@),
{
    doc.get(key).and_then(Item::as_array_of_tables).and_then(|a| a.get(0)).is_some()
}

/// `Table::insert` of an array with one empty table into the root table
/// replaces what stood under the key and leaves the other keys.
#[verifier::external_body]
fn insert_tables(doc: &mut DocumentMut, key: &str)
    ensures
        manifest_items(*final(doc)) == manifest_items(*old(doc)).insert(
            key@,
            TomlItem::Tables(seq![Map::empty()]),
        ),
{
    doc.insert(key, Item::ArrayOfTables(ArrayOfTables::from_iter([Table::new()])));
}

/// `Table::insert` of a string into the first table of an array of tables
/// replaces what stood under the key and leaves the other keys and tables.
#[verifier::external_body]
fn set_first_text(doc: &mut DocumentMut, tables: &str, key: &str, text: &str)
    requires
        has_first_table(manifest_items(*old(doc)), tables@),
    ensures
        manifest_items(*final(doc)) == with_first_text(
            manifest_items(*old(doc)),
            tables@,
            key@,
            text@,
        ),
{
    let array = doc.get_mut(tables).and_then(Item::as_array_of_tables_mut);
    array.and_then(|a| a.get_mut(0)).map(|t| t.insert(key, toml_edit::value(text)));
}

/// The string under a key of a table of the manifest.
pub open spec fn text_at(m: Manifest, table: Seq<char>, key: Seq<char>) -> Option<Seq<char>> {
    if m.dom().contains(table) && m[table] is Table && m[table]->Table_0.dom().contains(key) {
        match m[table]->Table_0[key] {
            TomlValue::Text(s) => Some(s),
            _ => None,
        }
    } else {
        None
    }
}

/// An array of tables with at least one table stands under the key.
pub open spec fn has_first_table(m: Manifest, key: Seq<char>) -> bool {
    m.dom().contains(key) && m[key] is Tables && m[key]->Tables_0.len() > 0
}

/// With a string in the first table of an array of tables.
pub open spec fn with_first_text(
    m: Manifest,
    tables: Seq<char>,
    key: Seq<char>,
    text: Seq<char>,
) -> Manifest {
    let all = m[tables]->Tables_0;
    m.insert(
        tables,
        TomlItem::Tables(all.update(0, all[0].insert(key, TomlValue::Text(text)))),
    )
}

/// The manifest has a table under this key.
pub open spec fn is_table(m: Manifest, key: Seq<char>) -> bool {
    m.dom().contains(key) && m[key] is Table
}

/// With a value under a key of a table, if it is a table.
pub open spec fn with_value(m: Manifest, table: Seq<char>, key: Seq<char>, v: TomlValue) -> Manifest {
    if is_table(m, table) {
        m.insert(table, TomlItem::Table(m[table]->Table_0.insert(key, v)))
    } else {
        m
    }
}

/// With an empty table under the key, if nothing stands there.
pub open spec fn with_table(m: Manifest, key: Seq<char>) -> Manifest {
    if m.dom().contains(key) {
        m
    } else {
        m.insert(key, TomlItem::Table(Map::empty()))
    }
}

/// With `[lib]` naming the library and building it as a C dynamic library.
pub open spec fn with_lib(m: Manifest, name: Seq<char>) -> Manifest {
    with_value(
        with_value(with_table(m, "lib"@), "lib"@, "name"@, TomlValue::Text(name)),
        "lib"@,
        "crate-type"@,
        TomlValue::Texts(seq!["cdylib"@]),
    )
}

/// With the first `[[bin]]` named `driver`; one with `src/main.rs` if there is
/// none.
pub open spec fn with_bin_driver(m: Manifest) -> Manifest {
    if has_first_table(m, "bin"@) {
        with_first_text(m, "bin"@, "name"@, "driver"@)
    } else {
        m.insert(
            "bin"@,
            TomlItem::Tables(
                seq![
                    Map::<Seq<char>, TomlValue>::empty().insert(
                        "name"@,
                        TomlValue::Text("driver"@),
                    ).insert("path"@, TomlValue::Text("src/main.rs"@)),
                ],
            ),
        )
    }
}

/// With the list of default features.
pub open spec fn with_default_features(m: Manifest, features: Seq<Seq<char>>) -> Manifest {
    with_value(
        with_table(m, "features"@),
        "features"@,
        "default"@,
        TomlValue::Texts(features),
    )
}

/// With each of the features, enabling nothing else.
pub open spec fn with_features(m: Manifest, features: Seq<Seq<char>>) -> Manifest
    decreases features.len(),
{
    if features.len() == 0 {
        with_table(m, "features"@)
    } else {
        with_value(
            with_features(m, features.drop_last()),
            "features"@,
            features.last(),
            TomlValue::Texts(seq![]),
        )
    }
}

/// The text is what some document with these contents prints as.
pub open spec fn prints(text: Seq<char>, m: Manifest) -> bool {
    exists|doc: DocumentMut| #[trigger]
        printed_manifest(doc) == text && manifest_items(doc) == m
}

/// In-memory manifest that supports incremental edits. Only the contents are
/// stated of each edit; the layout of the text is left to `toml_edit`.
pub struct CargoToml {
    pub doc: DocumentMut,
}

impl View for CargoToml {
    type V = Map<Seq<char>, TomlItem>;

    open spec fn view(&self) -> Map<Seq<char>, TomlItem> {
        manifest_items(self.doc)
    }
}

impl CargoToml {
    /// Reads a manifest from its text.
    pub fn open(content: &str) -> (r: Option<CargoToml>)
        ensures
            match r {
                Some(m) => parsed_manifest(content@) == Some(m.doc),
                None => parsed_manifest(content@) is None,
            },
    {
        match parse_document(content) {
            Some(doc) => Some(CargoToml { doc }),
            None => None,
        }
    }

    /// The text that is to be written back.
    pub fn save(&self) -> (r: String)
        ensures
            r@ == printed_manifest(self.doc),
            prints(r@, self@),
    {
        print_document(&self.doc)
    }

    fn ensure_table(&mut self, key: &str)
        ensures
            final(self)@ == with_table(old(self)@, key@),
    {
        if !has_item(&self.doc, key) {
            insert_table(&mut self.doc, key);
        }
    }

    /// Sets `[lib]` with the given `name` and `crate-type = ["cdylib"]`.
    pub fn set_lib(&mut self, name: &str)
        ensures
            final(self)@ == with_lib(old(self)@, name@),
    {
        self.ensure_table("lib");
        if has_table(&self.doc, "lib") {
            set_text(&mut self.doc, "lib", "name", name);
            let mut kinds: Vec<String> = Vec::new();
            kinds.push("cdylib".to_owned());
            proof {
                assert(kinds.deep_view() =~= seq!["cdylib"@]);
            }
            set_texts(&mut self.doc, "lib", "crate-type", &kinds);
        }
    }

    /// Ensures there is a `[[bin]]` entry with `name = "driver"`.
    pub fn set_bin_driver(&mut self)
        ensures
            final(self)@ == with_bin_driver(old(self)@),
    {
        if has_first(&self.doc, "bin") {
            set_first_text(&mut self.doc, "bin", "name", "driver");
            return;
        }
        insert_tables(&mut self.doc, "bin");
        set_first_text(&mut self.doc, "bin", "name", "driver");
        set_first_text(&mut self.doc, "bin", "path", "src/main.rs");
        proof {
            let one = Map::<Seq<char>, TomlValue>::empty().insert(
                "name"@,
                TomlValue::Text("driver"@),
            ).insert("path"@, TomlValue::Text("src/main.rs"@));
            assert(self@["bin"@]->Tables_0 =~= seq![one]);
            assert(self@ =~= with_bin_driver(old(self)@));
        }
    }

    /// Removes all `[[bin]]` sections.
    pub fn remove_bin(&mut self)
        ensures
            final(self)@ == old(self)@.remove("bin"@),
    {
        remove_item(&mut self.doc, "bin");
    }

    /// Adds an empty `[workspace]` section if not already present. This
    /// prevents Cargo from searching parent directories for a workspace root.
    pub fn add_workspace(&mut self)
        ensures
            final(self)@ == with_table(old(self)@, "workspace"@),
    {
        self.ensure_table("workspace");
    }

    /// Replaces `default = [...]` under `[features]`.
    pub fn set_default_features(&mut self, features: &Vec<String>)
        ensures
            final(self)@ == with_default_features(old(self)@, features.deep_view()),
    {
        self.ensure_table("features");
        if has_table(&self.doc, "features") {
            set_texts(&mut self.doc, "features", "default", features);
        }
    }

    /// Adds each of the features to `[features]`, as `<name> = []`.
    pub fn add_features(&mut self, features: &Vec<String>)
        ensures
            final(self)@ == with_features(old(self)@, features.deep_view()),
    {
        let ghost start = self@;
        let ghost all = features.deep_view();
        self.ensure_table("features");
        let empty: Vec<String> = Vec::new();
        let mut i: usize = 0;
        proof {
            assert(empty.deep_view() =~= seq![]);
        }
        while i < features.len()
            invariant
                all == features.deep_view(),
                empty.deep_view() == Seq::<Seq<char>>::empty(),
                i <= features@.len(),
                self@ == with_features(start, all.take(i as int)),
            decreases features@.len() - i,
        {
            proof {
                assert(all.take(i + 1).drop_last() =~= all.take(i as int));
                assert(all.take(i + 1).last() == features@[i as int]@);
            }
            if has_table(&self.doc, "features") {
                set_texts(&mut self.doc, "features", features[i].as_str(), &empty);
            }
            i += 1;
        }
        proof {
            assert(all.take(i as int) =~= all);
        }
    }

    /// Sets a string under a key of `[package]`, if that is a table.
    pub fn set_package(&mut self, key: &str, text: &str)
        ensures
            final(self)@ == with_value(old(self)@, "package"@, key@, TomlValue::Text(text@)),
    {
        if has_table(&self.doc, "package") {
            set_text(&mut self.doc, "package", key, text);
        }
    }

    /// The name of the package.
    pub fn package_name(&self) -> (r: Option<String>)
        ensures
            r.deep_view() == text_at(self@, "package"@, "name"@),
    {
        text_in_table(&self.doc, "package", "name")
    }
}

/// Adding the workspace section twice is adding it once.
pub proof fn adding_workspace_settles(m: Manifest)
    ensures
        with_table(with_table(m, "workspace"@), "workspace"@) == with_table(m, "workspace"@),
{
}

/// Naming the driver twice is naming it once.
pub proof fn naming_driver_settles(m: Manifest)
    ensures
        with_bin_driver(with_bin_driver(m)) == with_bin_driver(m),
{
    let once = with_bin_driver(m);
    let twice = with_bin_driver(once);
    let all = once["bin"@]->Tables_0;
    assert(has_first_table(once, "bin"@));
    reveal_strlit("name");
    reveal_strlit("path");
    assert("name"@.len() == 4);
    assert("name"@[0] != "path"@[0]);
    assert(all[0].insert("name"@, TomlValue::Text("driver"@)) =~= all[0]);
    assert(all.update(0, all[0]) =~= all);
    assert(twice =~= once);
}

/// The library name that was set is the one that is read back, if `[lib]` is a
/// table or was not there.
pub proof fn lib_name_is_kept(m: Manifest, name: Seq<char>)
    requires
        !m.dom().contains("lib"@) || m["lib"@] is Table,
    ensures
        text_at(with_lib(m, name), "lib"@, "name"@) == Some(name),
{
    reveal_strlit("name");
    reveal_strlit("crate-type");
    assert("name"@.len() != "crate-type"@.len());
}

} // verus!
