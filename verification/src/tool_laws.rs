//! What holds of the smaller tools: the linter, test runs, builds, presets and
//! sources.
use crate::agentic::{cache_flag, cache_flags, flags_in, second, second_cache};
use crate::build_project_spec::{kind_from_lines, kind_of_files, line_starts, ProjectKind};
use crate::c_build::{executable_in, shared_lib_in, CArtifact, TreeEntry};
use crate::cargo_output::CargoMessage;
use crate::clippy_lint::{
    indented_lines, lint_errors, lint_view, linter_texts, said, ClippyLintResult,
};
use crate::generate_test_suite::files_as_text;
use crate::json::{key_count, member, member_in, string_end, text_in, Json};
use crate::load_raw_source::artifact_dir;
use crate::names::lookup;
use crate::order::listing;
use crate::path::{child_path, extension_of, has_ext};
use crate::quantize_rust_spans::{count_lines, item_map, rust_files_read, spans_at, LineColumn};
use crate::raw_source_to_cargo_llm::{files_of, OutputFileView};
use crate::run_difftest::{
    failing, failure_lines, failures_in, passes, passing, so_among, DiffTestResult,
};
use crate::seqs::flat_map_last;
use crate::text::{decimal_of, joined, lines_of, lossy_text, utf8_text};

use core::cmp::Ordering;
use vstd::std_specs::cmp::PartialOrdSpec;
use vstd::prelude::*;

verus! {

// ---------------------------------------------------------------------------
// The linter
// ---------------------------------------------------------------------------

/// Every diagnostic of the linter is told, as it was rendered, in order; what is no
/// diagnostic is passed over.
pub proof fn every_lint_is_told(messages: Seq<CargoMessage>, stderr: Seq<u8>)
    ensures
        linter_texts(messages) == messages.filter_map(
            |m: CargoMessage|
                match m {
                    CargoMessage::Diagnostic(_, _, rendered) => Some(
                        "Linter Message: "@ + (match rendered {
                            Some(text) => text@,
                            None => "cargo didn't render this message"@,
                        }),
                    ),
                    _ => None,
                },
        ),
        said(messages) == messages.filter_map(
            |m: CargoMessage|
                match m {
                    CargoMessage::Diagnostic(parts, _, _) => if parts@.len() > 0 {
                        Some(parts@[0].1@)
                    } else {
                        Some(Seq::<char>::empty())
                    },
                    _ => None,
                },
        ),
        lint_errors(messages, stderr) == joined(linter_texts(messages), "\n"@) + "\n"@ + lossy_text(
            stderr,
        ),
    decreases messages.len(),
{
    let f = |m: CargoMessage|
        match m {
            CargoMessage::Diagnostic(_, _, rendered) => Some(
                "Linter Message: "@ + (match rendered {
                    Some(text) => text@,
                    None => "cargo didn't render this message"@,
                }),
            ),
            _ => None,
        };
    let g = |m: CargoMessage|
        match m {
            CargoMessage::Diagnostic(parts, _, _) => if parts@.len() > 0 {
                Some(parts@[0].1@)
            } else {
                Some(Seq::<char>::empty())
            },
            _ => None,
        };
    if messages.len() > 0 {
        every_lint_is_told(messages.drop_last(), stderr);
        assert(linter_texts(messages) =~= messages.filter_map(f));
        assert(said(messages) =~= messages.filter_map(g));
    } else {
        assert(linter_texts(messages) =~= messages.filter_map(f));
        assert(said(messages) =~= messages.filter_map(g));
    }
}

/// A list is shown with one indented line for each text, in order.
pub proof fn lists_have_a_line_per_text(texts: Seq<Seq<char>>)
    ensures
        indented_lines(texts) == texts.flat_map(|t: Seq<char>| "    "@ + t + "\n"@),
        failure_lines(texts) == texts.flat_map(|t: Seq<char>| "  "@ + t + "\n"@),
    decreases texts.len(),
{
    let f = |t: Seq<char>| "    "@ + t + "\n"@;
    let g = |t: Seq<char>| "  "@ + t + "\n"@;
    flat_map_last(texts, f);
    flat_map_last(texts, g);
    if texts.len() > 0 {
        let rest = texts.drop_last();
        lists_have_a_line_per_text(rest);
        assert(indented_lines(texts) =~= indented_lines(rest) + f(texts.last()));
        assert(failure_lines(texts) =~= failure_lines(rest) + g(texts.last()));
    } else {
        assert(indented_lines(texts) =~= texts.flat_map(f));
        assert(failure_lines(texts) =~= texts.flat_map(g));
    }
}

// ---------------------------------------------------------------------------
// Test runs
// ---------------------------------------------------------------------------

/// A test passes with a line that starts with `PASS`, and fails with one that starts
/// with `FAIL` or `WARN`; passes are counted and failures kept, in order. Any other
/// line says nothing.
pub proof fn test_lines_are_counted(lines: Seq<Seq<char>>, rest: Seq<char>)
    ensures
        passes(lines) == lines.filter(|l: Seq<char>| "PASS "@.is_prefix_of(l)).len(),
        failures_in(lines) == lines.filter(
            |l: Seq<char>| "FAIL "@.is_prefix_of(l) || "WARN "@.is_prefix_of(l),
        ),
        passing("PASS "@ + rest) && !failing("PASS "@ + rest),
        failing("FAIL "@ + rest) && !passing("FAIL "@ + rest),
        failing("WARN "@ + rest) && !passing("WARN "@ + rest),
    decreases lines.len(),
{
    reveal(Seq::filter);
    reveal_strlit("PASS ");
    reveal_strlit("FAIL ");
    reveal_strlit("WARN ");
    assert("PASS "@[0] == 'P' && "FAIL "@[0] == 'F' && "WARN "@[0] == 'W');
    assert(("PASS "@ + rest).subrange(0, 5) =~= "PASS "@);
    assert(("FAIL "@ + rest).subrange(0, 5) =~= "FAIL "@);
    assert(("WARN "@ + rest).subrange(0, 5) =~= "WARN "@);
    assert(("PASS "@ + rest)[0] == 'P' && ("FAIL "@ + rest)[0] == 'F' && ("WARN "@ + rest)[0]
        == 'W');
    starts(("FAIL "@ + rest), "PASS "@);
    starts(("WARN "@ + rest), "PASS "@);
    if lines.len() > 0 {
        test_lines_are_counted(lines.drop_last(), rest);
        let l = lines.last();
        if "PASS "@.is_prefix_of(l) {
            starts(l, "PASS "@);
            if "FAIL "@.is_prefix_of(l) {
                starts(l, "FAIL "@);
            }
            if "WARN "@.is_prefix_of(l) {
                starts(l, "WARN "@);
            }
        }
    }
}

proof fn starts(s: Seq<char>, p: Seq<char>)
    requires
        p.len() > 0,
    ensures
        p.is_prefix_of(s) ==> s.len() > 0 && s[0] == p[0],
{
    if p.is_prefix_of(s) {
        assert(s.subrange(0, p.len() as int)[0] == s[0]);
    }
}

// ---------------------------------------------------------------------------
// Builds
// ---------------------------------------------------------------------------

proof fn so_from(entries: Seq<TreeEntry>, dir: Seq<char>, i: int)
    requires
        0 <= i <= entries.len(),
    ensures
        so_among(entries, dir, i) == so_among(entries.skip(i), dir, 0),
    decreases entries.len() - i,
{
    let rest = entries.skip(i);
    if i < entries.len() {
        assert(rest[0] == entries[i]);
        so_from(entries, dir, i + 1);
        so_from(rest, dir, 1);
        assert(rest.skip(1) =~= entries.skip(i + 1));
    }
}

/// The library of a directory is its first file that ends in `.so`; directories below
/// it are not looked into.
pub proof fn first_library_is_found(
    name: String,
    executable: bool,
    below: Vec<TreeEntry>,
    rest: Seq<TreeEntry>,
    dir: Seq<char>,
)
    ensures
        has_ext(name@, "so"@) ==> so_among(seq![TreeEntry::File(name, executable)] + rest, dir, 0)
            == Some(child_path(dir, name@)),
        !has_ext(name@, "so"@) ==> so_among(seq![TreeEntry::File(name, executable)] + rest, dir, 0)
            == so_among(rest, dir, 0),
        so_among(seq![TreeEntry::Dir(name, below)] + rest, dir, 0) == so_among(rest, dir, 0),
        so_among(seq![], dir, 0) is None,
{
    let a = seq![TreeEntry::File(name, executable)] + rest;
    let b = seq![TreeEntry::Dir(name, below)] + rest;
    assert(a[0] == TreeEntry::File(name, executable));
    assert(b[0] == TreeEntry::Dir(name, below));
    so_from(a, dir, 1);
    so_from(b, dir, 1);
    assert(a.skip(1) =~= rest);
    assert(b.skip(1) =~= rest);
}

proof fn shared_from(entries: Seq<TreeEntry>, dir: Seq<char>, i: int)
    requires
        0 <= i <= entries.len(),
    ensures
        shared_lib_in(entries, dir, i) == shared_lib_in(entries.skip(i), dir, 0),
    decreases entries.len() - i,
{
    let rest = entries.skip(i);
    if i < entries.len() {
        assert(rest[0] == entries[i]);
        shared_from(entries, dir, i + 1);
        shared_from(rest, dir, 1);
        assert(rest.skip(1) =~= entries.skip(i + 1));
    }
}

/// The shared library of a build is the first file that ends in `.so`, directories
/// looked into where they stand.
pub proof fn first_shared_library_is_found(
    name: String,
    executable: bool,
    below: Vec<TreeEntry>,
    rest: Seq<TreeEntry>,
    dir: Seq<char>,
)
    ensures
        has_ext(name@, "so"@) ==> shared_lib_in(
            seq![TreeEntry::File(name, executable)] + rest,
            dir,
            0,
        ) == Some(child_path(dir, name@)),
        !has_ext(name@, "so"@) ==> shared_lib_in(
            seq![TreeEntry::File(name, executable)] + rest,
            dir,
            0,
        ) == shared_lib_in(rest, dir, 0),
        shared_lib_in(seq![TreeEntry::Dir(name, below)] + rest, dir, 0) == (match shared_lib_in(
            below@,
            child_path(dir, name@),
            0,
        ) {
            Some(p) => Some(p),
            None => shared_lib_in(rest, dir, 0),
        }),
        shared_lib_in(seq![], dir, 0) is None,
{
    let a = seq![TreeEntry::File(name, executable)] + rest;
    let b = seq![TreeEntry::Dir(name, below)] + rest;
    assert(a[0] == TreeEntry::File(name, executable));
    assert(b[0] == TreeEntry::Dir(name, below));
    shared_from(a, dir, 1);
    shared_from(b, dir, 1);
    assert(a.skip(1) =~= rest);
    assert(b.skip(1) =~= rest);
}

proof fn executable_from(entries: Seq<TreeEntry>, dir: Seq<char>, i: int)
    requires
        0 <= i <= entries.len(),
    ensures
        executable_in(entries, dir, i) == executable_in(entries.skip(i), dir, 0),
    decreases entries.len() - i,
{
    let rest = entries.skip(i);
    if i < entries.len() {
        assert(rest[0] == entries[i]);
        executable_from(entries, dir, i + 1);
        executable_from(rest, dir, 1);
        assert(rest.skip(1) =~= entries.skip(i + 1));
    }
}

/// The program of a build is the first file without an extension that can be
/// executed; directories are looked into where they stand, but for `CMakeFiles`.
pub proof fn first_program_is_found(
    name: String,
    executable: bool,
    below: Vec<TreeEntry>,
    rest: Seq<TreeEntry>,
    dir: Seq<char>,
)
    ensures
        executable && extension_of(name@) is None ==> executable_in(
            seq![TreeEntry::File(name, executable)] + rest,
            dir,
            0,
        ) == Some(child_path(dir, name@)),
        !executable || extension_of(name@) is Some ==> executable_in(
            seq![TreeEntry::File(name, executable)] + rest,
            dir,
            0,
        ) == executable_in(rest, dir, 0),
        name@ == "CMakeFiles"@ ==> executable_in(
            seq![TreeEntry::Dir(name, below)] + rest,
            dir,
            0,
        ) == executable_in(rest, dir, 0),
        name@ != "CMakeFiles"@ ==> executable_in(
            seq![TreeEntry::Dir(name, below)] + rest,
            dir,
            0,
        ) == (match executable_in(below@, child_path(dir, name@), 0) {
            Some(p) => Some(p),
            None => executable_in(rest, dir, 0),
        }),
        executable_in(seq![], dir, 0) is None,
{
    let a = seq![TreeEntry::File(name, executable)] + rest;
    let b = seq![TreeEntry::Dir(name, below)] + rest;
    assert(a[0] == TreeEntry::File(name, executable));
    assert(b[0] == TreeEntry::Dir(name, below));
    executable_from(a, dir, 1);
    executable_from(b, dir, 1);
    assert(a.skip(1) =~= rest);
    assert(b.skip(1) =~= rest);
}

/// A script with a line that adds an executable is that of a program, whatever else
/// it adds; one that only adds a library is that of a library.
pub proof fn executables_make_a_program(text: Seq<char>, i: int)
    requires
        0 <= i < lines_of(text).len(),
    ensures
        "add_executable("@.is_prefix_of(lines_of(text)[i]) ==> kind_from_lines(text) == Some(
            ProjectKind::Executable,
        ),
        "add_library("@.is_prefix_of(lines_of(text)[i]) && !line_starts(text, "add_executable("@)
            ==> kind_from_lines(text) == Some(ProjectKind::Library),
        kind_from_lines(text) is None ==> !"add_executable("@.is_prefix_of(lines_of(text)[i])
            && !"add_library("@.is_prefix_of(lines_of(text)[i]),
        forall|dir: Map<Seq<char>, Seq<u8>>|
            dir.dom().contains("CMakeLists.txt"@) ==> #[trigger] kind_of_files(dir)
                == kind_from_lines(lossy_text(dir["CMakeLists.txt"@])),
        forall|dir: Map<Seq<char>, Seq<u8>>|
            !dir.dom().contains("CMakeLists.txt"@) ==> (#[trigger] kind_of_files(dir)) is None,
{
}

/// The directories of a build are left out of the sources.
pub proof fn build_directories_are_left_out(rest: Seq<char>)
    ensures
        artifact_dir("build"@),
        artifact_dir("target"@),
        artifact_dir("build-"@ + rest),
        !artifact_dir("src"@),
{
    assert(("build-"@ + rest).subrange(0, "build-"@.len() as int) =~= "build-"@);
    reveal_strlit("src");
    reveal_strlit("build");
    reveal_strlit("target");
    reveal_strlit("build-");
    assert("src"@.len() == 3 && "build"@.len() == 5 && "target"@.len() == 6 && "build-"@.len()
        == 6);
}

// ---------------------------------------------------------------------------
// Documents
// ---------------------------------------------------------------------------

/// A member of an object is found by its name, the last one of several.
pub proof fn last_member_of_a_name_counts(members: Seq<(String, Json)>, key: Seq<char>)
    ensures
        ({
            let all = members.filter(|m: (String, Json)| m.0@ == key);
            member_in(members, key) == (if all.len() > 0 {
                Some(all.last().1)
            } else {
                None
            })
        }),
    decreases members.len(),
{
    reveal(Seq::filter);
    if members.len() > 0 {
        last_member_of_a_name_counts(members.drop_last(), key);
    }
}

/// Only an object has members, and only a text is one.
pub proof fn other_values_have_no_members(s: String, b: bool, elements: Vec<Json>, key: Seq<char>)
    ensures
        member(Json::Text(s), key) is None,
        member(Json::Bool(b), key) is None,
        member(Json::Array(elements), key) is None,
        text_in(Json::Text(s)) == Some(s@),
        text_in(Json::Bool(b)) is None,
        text_in(Json::Number(s)) is None,
        text_in(Json::Array(elements)) is None,
{
}

/// What is found under a key is what was last put there.
pub proof fn last_entry_of_a_key_counts<V: DeepView>(entries: Seq<(String, V)>, key: Seq<char>)
    ensures
        ({
            let all = entries.filter(|e: (String, V)| e.0@ == key);
            lookup(entries, key) == (if all.len() > 0 {
                Some(all.last().1.deep_view())
            } else {
                None
            })
        }),
    decreases entries.len(),
{
    reveal(Seq::filter);
    if entries.len() > 0 {
        last_entry_of_a_key_counts(entries.drop_last(), key);
    }
}

/// Every variable of the second preset is a flag of the build, in order, but for the
/// standard and the build type.
pub proof fn presets_become_flags(members: Seq<(String, Json)>)
    ensures
        cache_flags(members) == members.filter(
            |m: (String, Json)| m.0@ != "CMAKE_C_STANDARD"@ && m.0@ != "CMAKE_BUILD_TYPE"@,
        ).map_values(
            |m: (String, Json)|
                "-D"@ + m.0@ + "="@ + (match m.1 {
                    Json::Text(s) => s@,
                    _ => Seq::<char>::empty(),
                }),
        ),
    decreases members.len(),
{
    reveal(Seq::filter);
    let p = |m: (String, Json)| m.0@ != "CMAKE_C_STANDARD"@ && m.0@ != "CMAKE_BUILD_TYPE"@;
    let g = |m: (String, Json)|
        "-D"@ + m.0@ + "="@ + (match m.1 {
            Json::Text(s) => s@,
            _ => Seq::<char>::empty(),
        });
    if members.len() > 0 {
        presets_become_flags(members.drop_last());
        let kept = members.drop_last().filter(p);
        let m = members.last();
        assert(cache_flag(m.0@, m.1) =~= g(m));
        if p(m) {
            assert(kept.push(m).map_values(g) =~= kept.map_values(g).push(g(m)));
        }
    } else {
        assert(cache_flags(members) =~= members.filter(p).map_values(g));
    }
}

/// The flags are those of the variables of the second preset, separated by blanks;
/// without a second preset there are none.
pub proof fn flags_are_those_of_the_second_preset(j: Json, presets: Vec<Json>)
    requires
        member(j, "configurePresets"@) == Some(Json::Array(presets)),
    ensures
        presets@.len() < 2 ==> flags_in(j).len() == 0,
        presets@.len() >= 2 ==> second_cache(j) == member(presets@[1], "cacheVariables"@),
        presets@.len() >= 2 ==> (member(presets@[1], "cacheVariables"@) matches Some(
            Json::Object(members),
        ) ==> flags_in(j) == joined(cache_flags(members@), " "@)),
        presets@.len() >= 2 && member(presets@[1], "cacheVariables"@) is None ==> flags_in(j).len()
            == 0,
        second(Json::Array(presets)) == (if presets@.len() > 1 {
            Some(presets@[1])
        } else {
            None
        }),
{
}

// ---------------------------------------------------------------------------
// Sources
// ---------------------------------------------------------------------------

/// Every file of a directory is handed over with its text, in the order of the paths,
/// and nothing else is.
pub proof fn every_file_is_handed_over(dir: Map<Seq<char>, Seq<u8>>)
    requires
        dir.dom().finite(),
    ensures
        files_as_text(dir).len() == listing(dir.dom()).len(),
        forall|p: Seq<char>| #[trigger]
            dir.dom().contains(p) ==> files_as_text(dir).contains((p, lossy_text(dir[p]))),
        forall|f: (Seq<char>, Seq<char>)| #[trigger]
            files_as_text(dir).contains(f) ==> dir.dom().contains(f.0) && f.1 == lossy_text(
                dir[f.0],
            ),
        forall|i: int, j: int|
            0 <= i < j < files_as_text(dir).len() ==> crate::order::lex_lt(
                (#[trigger] files_as_text(dir)[i]).0,
                (#[trigger] files_as_text(dir)[j]).0,
            ),
{
    crate::order::finite_sets_have_a_listing(dir.dom());
    let list = listing(dir.dom());
    let out = files_as_text(dir);
    assert forall|p: Seq<char>| #[trigger] dir.dom().contains(p) implies out.contains(
        (p, lossy_text(dir[p])),
    ) by {
        assert(list.contains(p));
        let i = choose|i: int| 0 <= i < list.len() && list[i] == p;
        assert(out[i] == (p, lossy_text(dir[p])));
    }
    assert forall|f: (Seq<char>, Seq<char>)| #[trigger] out.contains(f) implies dir.dom().contains(
        f.0,
    ) && f.1 == lossy_text(dir[f.0]) by {
        let i = choose|i: int| 0 <= i < out.len() && out[i] == f;
        assert(list.contains(list[i]));
    }
}

/// Every file of a reply is in the package with its contents, the last one where a
/// path is given twice; nothing else is.
pub proof fn every_file_is_in_the_package(files: Seq<OutputFileView>)
    ensures
        forall|i: int|
            0 <= i < files.len() && (forall|j: int|
                i < j < files.len() ==> (#[trigger] files[j]).path != files[i].path)
                ==> files_of(files).dom().contains((#[trigger] files[i]).path) && files_of(
                files,
            )[files[i].path] == vstd::utf8::encode_utf8(files[i].contents),
        forall|p: Seq<char>| #[trigger]
            files_of(files).dom().contains(p) <==> exists|i: int|
                0 <= i < files.len() && (#[trigger] files[i]).path == p,
    decreases files.len(),
{
    if files.len() > 0 {
        let rest = files.drop_last();
        let n = files.len() - 1;
        every_file_is_in_the_package(rest);
        assert forall|i: int|
            0 <= i < files.len() && (forall|j: int|
                i < j < files.len() ==> (#[trigger] files[j]).path != files[i].path) implies
            files_of(files).dom().contains((#[trigger] files[i]).path) && files_of(
            files,
        )[files[i].path] == vstd::utf8::encode_utf8(files[i].contents) by {
            if i < n {
                assert(rest[i] == files[i]);
                assert(files[n].path != files[i].path);
                assert forall|j: int| i < j < rest.len() implies (#[trigger] rest[j]).path
                    != rest[i].path by {
                    assert(files[j].path != files[i].path);
                }
            }
        }
        assert forall|p: Seq<char>| #[trigger] files_of(files).dom().contains(p) <==> exists|i: int|
            0 <= i < files.len() && (#[trigger] files[i]).path == p by {
            if files_of(rest).dom().contains(p) {
                let i = choose|i: int| 0 <= i < rest.len() && (#[trigger] rest[i]).path == p;
                assert(files[i].path == p);
            }
            if files_of(files).dom().contains(p) && !files_of(rest).dom().contains(p) {
                assert(files[n].path == p);
            }
            if exists|i: int| 0 <= i < files.len() && (#[trigger] files[i]).path == p {
                let i = choose|i: int| 0 <= i < files.len() && (#[trigger] files[i]).path == p;
                if i < n {
                    assert(rest[i].path == p);
                }
            }
        }
    }
}

/// Every Rust file has its items, each from the line and column where it starts to
/// those where it ends; no other file has any.
pub proof fn every_rust_file_has_its_items(
    dir: Map<Seq<char>, Seq<u8>>,
    positions: Seq<(usize, usize, usize, usize)>,
    i: int,
)
    requires
        0 <= i < positions.len(),
    ensures
        forall|p: Seq<char>| #[trigger]
            item_map(dir).dom().contains(p) <==> dir.dom().contains(p) && has_ext(p, "rs"@),
        spans_at(Some(positions)).len() == positions.len(),
        spans_at(Some(positions))[i].0 == (LineColumn {
            line: positions[i].0,
            column: positions[i].1,
        }),
        spans_at(Some(positions))[i].1 == (LineColumn {
            line: positions[i].2,
            column: positions[i].3,
        }),
        spans_at(None).len() == 0,
        rust_files_read(dir) <==> forall|p: Seq<char>|
            has_ext(p, "rs"@) && #[trigger] dir.dom().contains(p) ==> utf8_text(dir[p]) is Some,
{
}

/// The items are counted file by file, one line each.
pub proof fn items_are_counted_per_file(
    paths: Seq<Seq<char>>,
    items: Map<Seq<char>, Seq<(LineColumn, LineColumn)>>,
)
    ensures
        count_lines(paths, items) == paths.flat_map(
            |p: Seq<char>| "\t"@ + p + ": "@ + decimal_of(items[p].len()) + " items\n"@,
        ),
    decreases paths.len(),
{
    let f = |p: Seq<char>| "\t"@ + p + ": "@ + decimal_of(items[p].len()) + " items\n"@;
    flat_map_last(paths, f);
    if paths.len() > 0 {
        items_are_counted_per_file(paths.drop_last(), items);
        assert(count_lines(paths, items) =~= count_lines(paths.drop_last(), items) + f(
            paths.last(),
        ));
    } else {
        assert(count_lines(paths, items) =~= paths.flat_map(f));
    }
}

/// Kinds of projects are shown by their names.
pub proof fn kinds_are_labelled()
    ensures
        ProjectKind::Library.label() == "Library"@,
        ProjectKind::Executable.label() == "Executable"@,
{
}

/// Places of a source are ordered by their lines, and on a line by their columns.
pub proof fn places_are_ordered_by_line(a: LineColumn, b: LineColumn)
    ensures
        a.line < b.line ==> a.partial_cmp_spec(&b) == Some(Ordering::Less),
        a.line > b.line ==> a.partial_cmp_spec(&b) == Some(Ordering::Greater),
        a.line == b.line && a.column < b.column ==> a.partial_cmp_spec(&b) == Some(Ordering::Less),
        a.line == b.line && a.column > b.column ==> a.partial_cmp_spec(&b) == Some(
            Ordering::Greater,
        ),
        a == b ==> a.partial_cmp_spec(&b) == Some(Ordering::Equal),
{
}

/// A text without a quote spells no key.
pub proof fn keys_stand_in_quotes(s: Seq<char>, i: int, depth: nat, key: Seq<char>)
    requires
        0 <= i,
        !s.contains('"'),
    ensures
        key_count(s, i, depth, key) == 0,
    decreases s.len() - i,
{
    if i < s.len() {
        assert(s.contains(s[i]));
        if s[i] == '{' || s[i] == '[' {
            keys_stand_in_quotes(s, i + 1, depth + 1, key);
        } else if s[i] == '}' || s[i] == ']' {
            keys_stand_in_quotes(
                s,
                i + 1,
                if depth > 0 {
                    (depth - 1) as nat
                } else {
                    0
                },
                key,
            );
        } else {
            keys_stand_in_quotes(s, i + 1, depth, key);
        }
    }
}

/// A string of a document ends at the first quote that no backslash stands before.
pub proof fn strings_end_at_their_quote(s: Seq<char>, i: int, k: int)
    requires
        0 <= i <= k < s.len(),
        forall|j: int| i <= j < k ==> #[trigger] s[j] != '"' && s[j] != '\\',
        s[k] == '"',
    ensures
        string_end(s, i) == k,
        i >= 2 && s[i - 2] == '\\' ==> string_end(s, i - 2) == k,
    decreases k - i,
{
    if i < k {
        assert(s[i] != '"');
        strings_end_at_their_quote(s, i + 1, k);
    }
}

/// A result is told by its numbers, then by its failures, one per line.
pub proof fn results_are_told(r: DiffTestResult)
    ensures
        r.description() == "DiffTestResult: "@ + decimal_of(r.passed as nat) + "/"@ + decimal_of(
            r.total as nat,
        ) + " passed\n"@ + r.failures.deep_view().flat_map(
            |t: Seq<char>| "  "@ + t + "\n"@,
        ),
{
    lists_have_a_line_per_text(r.failures.deep_view());
}

/// A C artifact is told by its library, else by its program, else as none.
pub proof fn artifacts_are_told(a: CArtifact)
    ensures
        a.so_path matches Some(p) ==> a.description() == "CArtifact(so="@ + p@ + ")"@,
        a.so_path is None ==> (a.exe_path matches Some(p) ==> a.description() == "CArtifact(exe="@
            + p@ + ")"@),
        a.so_path is None && a.exe_path is None ==> a.description() == "CArtifact(not applicable)"@,
{
}

/// An outcome of the linter is told by what it said, one line each, or by its error.
pub proof fn lints_are_told(r: ClippyLintResult)
    ensures
        lint_view(r.result) matches Ok(list) ==> r.description()
            == "Linter output artifact:\n  Linter passed. Linter output:\n"@ + list.flat_map(
            |t: Seq<char>| "    "@ + t + "\n"@,
        ),
        lint_view(r.result) matches Err(e) ==> r.description()
            == "Linter output artifact:\n  Linter failed: "@ + e + "\n"@,
{
    reveal_strlit("Linter output artifact:\n");
    reveal_strlit("  Linter passed. Linter output:\n");
    reveal_strlit("  Linter failed: ");
    reveal_strlit("Linter output artifact:\n  Linter passed. Linter output:\n");
    reveal_strlit("Linter output artifact:\n  Linter failed: ");
    assert("Linter output artifact:\n"@ + "  Linter passed. Linter output:\n"@
        =~= "Linter output artifact:\n  Linter passed. Linter output:\n"@);
    assert("Linter output artifact:\n"@ + "  Linter failed: "@
        =~= "Linter output artifact:\n  Linter failed: "@);
    if let Ok(list) = lint_view(r.result) {
        lists_have_a_line_per_text(list);
    }
}

/// A script that adds no program is that of a library where it adds one, and of
/// neither where it adds none.
pub proof fn libraries_are_no_programs(text: Seq<char>)
    requires
        forall|i: int|
            0 <= i < lines_of(text).len() ==> !"add_executable("@.is_prefix_of(
                #[trigger] lines_of(text)[i],
            ),
    ensures
        kind_from_lines(text) != Some(ProjectKind::Executable),
        (forall|i: int|
            0 <= i < lines_of(text).len() ==> !"add_library("@.is_prefix_of(
                #[trigger] lines_of(text)[i],
            )) ==> kind_from_lines(text) is None,
{
}

} // verus!
