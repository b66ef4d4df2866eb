//! Gives a package its own workspace and the name `driver`.
use crate::cargo_toml::{prints, with_table, with_value, Manifest, TomlValue};
use crate::emit_build_features::{manifest_error, manifest_in, read_manifest, ManifestError};
use crate::fs::RawDir;
use crate::text::bytes_of;
use vstd::prelude::*;

verus! {

/// The manifest with a workspace section, and with the package named `driver`
/// if it has a package section.
pub open spec fn normalized(m: Manifest) -> Manifest {
    with_value(
        with_table(m, "workspace"@),
        "package"@,
        "name"@,
        TomlValue::Text("driver"@),
    )
}

/// The tool that normalizes a package.
pub struct NormalizeCargo;

impl NormalizeCargo {
    /// Normalizes the manifest and leaves every other file as it is.
    pub fn run(&self, package: RawDir) -> (r: Result<RawDir, ManifestError>)
        ensures
            match r {
                Ok(dir) => manifest_error(package@) is None && exists|text: Seq<char>|
                    prints(text, normalized(manifest_in(package@))) && dir@ == package@.insert(
                        "Cargo.toml"@,
                        vstd::utf8::encode_utf8(text),
                    ),
                Err(e) => manifest_error(package@) == Some(e),
            },
    {
        let mut cargo = match read_manifest(&package) {
            Ok(c) => c,
            Err(e) => {
                return Err(e);
            },
        };
        cargo.add_workspace();
        cargo.set_package("name", "driver");
        let text = cargo.save();
        proof {
            assert(prints(text@, normalized(manifest_in(package@))));
        }
        let mut out = package;
        out.set_file("Cargo.toml", bytes_of(text.as_str()));
        Ok(out)
    }
}

/// Normalizing twice is normalizing once.
pub proof fn normalizing_settles(m: Manifest)
    ensures
        normalized(normalized(m)) == normalized(m),
{
    let w = with_table(m, "workspace"@);
    let once = normalized(m);
    assert(once.dom().contains("workspace"@));
    if crate::cargo_toml::is_table(w, "package"@) {
        let t = once["package"@]->Table_0;
        assert(t.insert("name"@, TomlValue::Text("driver"@)) =~= t);
        assert(normalized(once) =~= once);
    }
}

} // verus!
