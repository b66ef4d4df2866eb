//! Puts translated declarations together into a Cargo package.
use crate::build_project_spec::ProjectKind;
use crate::fs::RawDir;
use crate::modular_translation_llm::translation::{
    rust_code_of, RustDeclaration, RustDeclarationView, TranslationResult,
};
use crate::names::NameSet;
use crate::order::{finite_sets_have_a_listing, is_listing, list_names, listing};
use crate::text::{bytes_of, join, joined, trim, trimmed};
use crate::text_laws::joined_has_its_parts;
use vstd::prelude::*;

verus! {

/// The line that imports a dependency.
pub open spec fn import_line(dep: Seq<char>) -> Seq<char> {
    "use "@ + dep + ";"@
}

/// The import lines of these dependencies, without the blank ones.
pub open spec fn import_lines(deps: Seq<Seq<char>>) -> Set<Seq<char>>
    decreases deps.len(),
{
    if deps.len() == 0 {
        Set::empty()
    } else {
        let rest = import_lines(deps.drop_last());
        if trimmed(deps.last()).len() == 0 {
            rest
        } else {
            rest.insert(import_line(trimmed(deps.last())))
        }
    }
}

/// The import lines of all declarations.
pub open spec fn imports_of(translations: Seq<RustDeclarationView>) -> Set<Seq<char>>
    decreases translations.len(),
{
    if translations.len() == 0 {
        Set::empty()
    } else {
        imports_of(translations.drop_last()).union(
            import_lines(translations.last().dependencies),
        )
    }
}

/// The code with the imports in front, each once and in ascending order.
pub open spec fn with_imports(imports: Set<Seq<char>>, code: Seq<char>) -> Seq<char> {
    let lines = joined(listing(imports), "\n"@);
    if lines.len() == 0 {
        code
    } else if trimmed(code).len() == 0 {
        lines
    } else {
        lines + "\n\n"@ + code
    }
}

fn add_imports(set: &mut NameSet, deps: &Vec<String>)
    ensures
        final(set)@ == old(set)@.union(import_lines(deps.deep_view())),
{
    let ghost start = set@;
    let ghost all = deps.deep_view();
    let mut i: usize = 0;
    proof {
        assert(start.union(import_lines(all.take(0))) =~= start);
    }
    while i < deps.len()
        invariant
            all == deps.deep_view(),
            i <= deps@.len(),
            set@ == start.union(import_lines(all.take(i as int))),
        decreases deps@.len() - i,
    {
        let dep = trim(deps[i].as_str());
        proof {
            assert(all.take(i + 1).drop_last() =~= all.take(i as int));
            assert(all.take(i + 1).last() == deps@[i as int]@);
        }
        if !dep.is_empty() {
            let mut line = "use ".to_owned();
            line.push_str(dep);
            line.push_str(";");
            let _ = set.insert(line.as_str());
        }
        proof {
            assert(set@ =~= start.union(import_lines(all.take(i + 1))));
        }
        i += 1;
    }
    proof {
        assert(all.take(i as int) =~= all);
    }
}

/// Puts the imports that the declarations depend on in front of the code.
pub fn prepend_dependency_imports(translations: &Vec<RustDeclaration>, rust_code: String) -> (r:
    String)
    ensures
        r@ == with_imports(imports_of(translations.deep_view()), rust_code@),
{
    let ghost all = translations.deep_view();
    let mut set = NameSet::new();
    let mut i: usize = 0;
    while i < translations.len()
        invariant
            all == translations.deep_view(),
            i <= translations@.len(),
            set@ == imports_of(all.take(i as int)),
        decreases translations@.len() - i,
    {
        proof {
            assert(all.take(i + 1).drop_last() =~= all.take(i as int));
            assert(all.take(i + 1).last() == translations@[i as int].deep_view());
        }
        add_imports(&mut set, &translations[i].dependencies);
        i += 1;
    }
    proof {
        assert(all.take(i as int) =~= all);
    }
    let names = list_names(&set);
    let imports = join(names.as_slice(), "\n");
    proof {
        assert(Seq::new(names@.len(), |k: int| names@[k]@) =~= names.deep_view());
    }
    if imports.as_str().is_empty() {
        return rust_code;
    }
    if trim(rust_code.as_str()).is_empty() {
        return imports;
    }
    let mut out = imports;
    out.push_str("\n\n");
    out.push_str(rust_code.as_str());
    out
}

/// The source file of a project of this kind.
pub open spec fn source_file(kind: ProjectKind) -> Seq<char> {
    match kind {
        ProjectKind::Executable => "src/main.rs"@,
        ProjectKind::Library => "src/lib.rs"@,
    }
}

/// The text of the source file.
pub open spec fn recombined(translations: Seq<RustDeclarationView>) -> Seq<char> {
    with_imports(
        imports_of(translations),
        joined(translations.map_values(|d: RustDeclarationView| d.rust_code), "\n\n"@),
    )
}

proof fn names_differ()
    ensures
        "Cargo.toml"@ != "src/main.rs"@,
        "Cargo.toml"@ != "src/lib.rs"@,
        "src/main.rs"@ != "src/lib.rs"@,
{
    reveal_strlit("Cargo.toml");
    reveal_strlit("src/main.rs");
    reveal_strlit("src/lib.rs");
    assert("Cargo.toml"@.len() == 10);
    assert("src/main.rs"@.len() == 11);
    assert("src/lib.rs"@.len() == 10);
    assert("Cargo.toml"@[0] == 'C');
    assert("src/lib.rs"@[0] == 's');
}

/// A package has its manifest and one source file: `src/main.rs` if it is a
/// program, `src/lib.rs` if it is a library. The source file holds the code of
/// all declarations, in order with blank lines between, behind the imports.
pub proof fn packages_have_their_source(
    cargo_toml: Seq<char>,
    translations: Seq<RustDeclarationView>,
    kind: ProjectKind,
)
    ensures
        ({
            let files = Map::<Seq<char>, Seq<u8>>::empty().insert(
                "Cargo.toml"@,
                vstd::utf8::encode_utf8(cargo_toml),
            ).insert(
                source_file(kind),
                vstd::utf8::encode_utf8(recombined(translations)),
            );
            let name = if kind is Executable {
                "src/main.rs"@
            } else {
                "src/lib.rs"@
            };
            let code = joined(
                translations.map_values(|d: RustDeclarationView| d.rust_code),
                "\n\n"@,
            );
            &&& files.dom() == set!["Cargo.toml"@, name]
            &&& files["Cargo.toml"@] == vstd::utf8::encode_utf8(cargo_toml)
            &&& files[name] == vstd::utf8::encode_utf8(recombined(translations))
            &&& trimmed(code).len() > 0 ==> code.is_suffix_of(recombined(translations))
        }),
{
    names_differ();
    let code = joined(translations.map_values(|d: RustDeclarationView| d.rust_code), "\n\n"@);
    let files = Map::<Seq<char>, Seq<u8>>::empty().insert(
        "Cargo.toml"@,
        vstd::utf8::encode_utf8(cargo_toml),
    ).insert(source_file(kind), vstd::utf8::encode_utf8(recombined(translations)));
    let name = if kind is Executable {
        "src/main.rs"@
    } else {
        "src/lib.rs"@
    };
    assert(files.dom() =~= set!["Cargo.toml"@, name]);
    let all = recombined(translations);
    if trimmed(code).len() > 0 {
        assert(code =~= all.subrange(all.len() - code.len(), all.len() as int));
    }
}

proof fn import_lines_have(deps: Seq<Seq<char>>, line: Seq<char>)
    ensures
        import_lines(deps).contains(line) <==> exists|j: int|
            0 <= j < deps.len() && trimmed(#[trigger] deps[j]).len() > 0 && line == "use "@
                + trimmed(deps[j]) + ";"@,
        import_lines(deps).finite(),
    decreases deps.len(),
{
    if deps.len() > 0 {
        let rest = deps.drop_last();
        import_lines_have(rest, line);
        if exists|j: int|
            0 <= j < rest.len() && trimmed(#[trigger] rest[j]).len() > 0 && line == "use "@
                + trimmed(rest[j]) + ";"@ {
            let j = choose|j: int|
                0 <= j < rest.len() && trimmed(#[trigger] rest[j]).len() > 0 && line == "use "@
                    + trimmed(rest[j]) + ";"@;
            assert(trimmed(deps[j]).len() > 0);
        }
        if exists|j: int|
            0 <= j < deps.len() && trimmed(#[trigger] deps[j]).len() > 0 && line == "use "@
                + trimmed(deps[j]) + ";"@ {
            let j = choose|j: int|
                0 <= j < deps.len() && trimmed(#[trigger] deps[j]).len() > 0 && line == "use "@
                    + trimmed(deps[j]) + ";"@;
            if j < rest.len() {
                assert(trimmed(rest[j]).len() > 0);
            }
        }
        if trimmed(deps.last()).len() > 0 {
            assert(trimmed(deps[deps.len() - 1]).len() > 0);
        }
    }
}

/// There is a `use` line for every dependency of every declaration that is not
/// blank, and no other.
pub proof fn imports_are_those_of_the_dependencies(
    translations: Seq<RustDeclarationView>,
    line: Seq<char>,
)
    ensures
        imports_of(translations).contains(line) <==> exists|i: int, j: int|
            0 <= i < translations.len() && 0 <= j < translations[i].dependencies.len() && trimmed(
                #[trigger] translations[i].dependencies[j],
            ).len() > 0 && line == "use "@ + trimmed(translations[i].dependencies[j]) + ";"@,
        imports_of(translations).finite(),
    decreases translations.len(),
{
    if translations.len() > 0 {
        let rest = translations.drop_last();
        let last = translations.last().dependencies;
        imports_are_those_of_the_dependencies(rest, line);
        import_lines_have(last, line);
        if imports_of(rest).contains(line) {
            let (i, j) = choose|i: int, j: int|
                0 <= i < rest.len() && 0 <= j < rest[i].dependencies.len() && trimmed(
                    #[trigger] rest[i].dependencies[j],
                ).len() > 0 && line == "use "@ + trimmed(rest[i].dependencies[j]) + ";"@;
            assert(trimmed(translations[i].dependencies[j]).len() > 0);
        }
        if import_lines(last).contains(line) {
            let j = choose|j: int|
                0 <= j < last.len() && trimmed(#[trigger] last[j]).len() > 0 && line == "use "@
                    + trimmed(last[j]) + ";"@;
            assert(trimmed(translations[translations.len() - 1].dependencies[j]).len() > 0);
        }
        if exists|i: int, j: int|
            0 <= i < translations.len() && 0 <= j < translations[i].dependencies.len() && trimmed(
                #[trigger] translations[i].dependencies[j],
            ).len() > 0 && line == "use "@ + trimmed(translations[i].dependencies[j]) + ";"@ {
            let (i, j) = choose|i: int, j: int|
                0 <= i < translations.len() && 0 <= j < translations[i].dependencies.len()
                    && trimmed(#[trigger] translations[i].dependencies[j]).len() > 0 && line
                    == "use "@ + trimmed(translations[i].dependencies[j]) + ";"@;
            if i < rest.len() {
                assert(trimmed(rest[i].dependencies[j]).len() > 0);
            } else {
                assert(trimmed(last[j]).len() > 0);
            }
        }
    }
}

/// The source is the import lines, one per line and in ascending order, a blank
/// line, and the code; without imports it is the code alone.
pub proof fn imports_stand_before_the_code(translations: Seq<RustDeclarationView>)
    ensures
        ({
            let code = joined(
                translations.map_values(|d: RustDeclarationView| d.rust_code),
                "\n\n"@,
            );
            let lines = listing(imports_of(translations));
            &&& is_listing(imports_of(translations), lines)
            &&& lines.len() == 0 ==> recombined(translations) == code
            &&& lines.len() > 0 && trimmed(code).len() > 0 ==> recombined(translations) == joined(
                lines,
                "\n"@,
            ) + "\n\n"@ + code
            &&& lines.len() > 0 && trimmed(code).len() == 0 ==> recombined(translations) == joined(
                lines,
                "\n"@,
            )
        }),
{
    let s = imports_of(translations);
    let lines = listing(s);
    imports_are_those_of_the_dependencies(translations, seq![]);
    finite_sets_have_a_listing(s);
    if lines.len() > 0 {
        let first = lines[0];
        assert(lines.contains(first));
        imports_are_those_of_the_dependencies(translations, first);
        reveal_strlit("use ");
        assert(first.len() >= 4);
        joined_has_its_parts(lines, "\n"@, 0);
        let (a, b) = choose|a: Seq<char>, b: Seq<char>|
            #[trigger] (a + lines[0] + b) == joined(lines, "\n"@);
        assert(joined(lines, "\n"@).len() > 0);
    }
}

/// Recombines translated Rust declarations into a package:
/// - the manifest
/// - a src/main.rs (for executables) or src/lib.rs (for libraries) with all
///   declarations, and all imports that they depend on in front
pub fn recombine_decls(result: TranslationResult, kind: ProjectKind) -> (r: RawDir)
    ensures
        r@ == Map::<Seq<char>, Seq<u8>>::empty().insert(
            "Cargo.toml"@,
            vstd::utf8::encode_utf8(result.cargo_toml@),
        ).insert(
            source_file(kind),
            vstd::utf8::encode_utf8(recombined(result.translations.deep_view())),
        ),
        kind is Executable ==> r@.dom() == set!["Cargo.toml"@, "src/main.rs"@],
        kind is Library ==> r@.dom() == set!["Cargo.toml"@, "src/lib.rs"@],
        r@["Cargo.toml"@] == vstd::utf8::encode_utf8(result.cargo_toml@),
{
    proof {
        packages_have_their_source(result.cargo_toml@, result.translations.deep_view(), kind);
    }
    let codes = rust_code_of(&result.translations);
    proof {
        assert(Seq::new(codes@.len(), |k: int| codes@[k]@) =~= codes.deep_view());
    }
    let code = join(codes.as_slice(), "\n\n");
    let source = prepend_dependency_imports(&result.translations, code);
    let mut dir = RawDir::new();
    dir.set_file("Cargo.toml", bytes_of(result.cargo_toml.as_str()));
    match kind {
        ProjectKind::Executable => {
            dir.set_file("src/main.rs", bytes_of(source.as_str()));
        },
        ProjectKind::Library => {
            dir.set_file("src/lib.rs", bytes_of(source.as_str()));
        },
    }
    dir
}

} // verus!
