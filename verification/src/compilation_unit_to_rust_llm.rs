//! Compilation units of a C project, one by one.
use crate::agentic::{prefer, preferred};
use crate::fs::RawDir;
use crate::names::NameSet;
use crate::order::{is_listing, list_names, listing};
use crate::path::{
    absolute, child_path, components, components_of, entry_name, file_name, file_name_of,
    find_last_dot, has_ext, has_extension, join_path, joined_names_are_components, last_dot,
    last_dot_bound, last_dot_is,
};
use crate::text::{
    after_prefix, chars_of, decimal, decimal_of, join, joined, lines, lines_of, pieces, same,
    split_once, string_of, strip_prefix, trim, trimmed,
};
use crate::text_laws::{
    blank, cut_parts_make_the_whole, cutting_finds_the_first, prefix_is_taken_off, tight,
    trimming_takes_blanks_off,
};
use vstd::prelude::*;

verus! {

/// What comes with the request for a unit.
pub const UNIT_REQUEST: &'static str = "Translate the following C source file to Rust:";

/// An entry of a compilation database.
#[derive(Debug)]
pub struct CompileCommandsEntry {
    pub directory: String,
    pub file: String,
    pub command: Option<String>,
    pub arguments: Option<Vec<String>>,
}

/// Bundle of source files for a single compilation unit: paths relative to the
/// project and texts.
#[derive(Debug)]
pub struct SourceBundle {
    /// The main .c source file.
    pub main_source: (String, String),
    /// Related header files.
    pub headers: Vec<(String, String)>,
}

/// Result of translating a single compilation unit.
#[derive(Debug)]
pub struct TranslationResult {
    /// Original C source file path.
    pub source_file: String,
    /// Generated Rust file path.
    pub output_file: String,
    /// Size of generated Rust code in bytes.
    pub output_size: usize,
}

/// How the units are translated.
#[derive(Debug)]
pub struct TranslationConfig {
    /// The text that replaces the built-in system prompt.
    pub custom_prompt: Option<String>,
    pub parallel: bool,
    pub parallelism: usize,
}

impl TranslationConfig {
    /// The system prompt: the custom one, else the built-in one.
    pub fn system_prompt(&self, builtin: &str) -> (r: String)
        ensures
            r@ == preferred(self.custom_prompt.deep_view(), builtin@),
    {
        match &self.custom_prompt {
            Some(text) => prefer(Some(text.as_str()), builtin),
            None => prefer(None, builtin),
        }
    }
}

/// The path of the source file of an entry.
pub open spec fn source_path(entry: CompileCommandsEntry) -> Seq<char> {
    if absolute(entry.file@) {
        entry.file@
    } else {
        child_path(entry.directory@, entry.file@)
    }
}

fn is_absolute(path: &str) -> (r: bool)
    ensures
        r == absolute(path@),
{
    let cs = chars_of(path);
    cs.len() > 0 && cs[0] == '/'
}

/// Resolves the path of the source file of an entry against its directory.
pub fn resolve_source(entry: &CompileCommandsEntry) -> (r: String)
    ensures
        r@ == source_path(*entry),
{
    if is_absolute(entry.file.as_str()) {
        entry.file.as_str().to_owned()
    } else {
        join_path(entry.directory.as_str(), entry.file.as_str())
    }
}

/// The path seen from `root`, if it lies below it; else its file name.
pub open spec fn relative_to(path: Seq<char>, root: Seq<char>) -> Seq<char> {
    let p = components_of(pieces(path, '/'));
    let r = components_of(pieces(root, '/'));
    if absolute(path) == absolute(root) && r.is_prefix_of(p) {
        joined(p.skip(r.len() as int), "/"@)
    } else {
        match file_name_of(path) {
            Some(name) => name,
            None => seq![],
        }
    }
}

fn prefix_of(r: &Vec<String>, p: &Vec<String>) -> (b: bool)
    ensures
        b == r.deep_view().is_prefix_of(p.deep_view()),
{
    let ghost rv = r.deep_view();
    let ghost pv = p.deep_view();
    if r.len() > p.len() {
        return false;
    }
    let mut i: usize = 0;
    while i < r.len()
        invariant
            rv == r.deep_view(),
            pv == p.deep_view(),
            i <= r@.len() <= p@.len(),
            forall|j: int| 0 <= j < i ==> rv[j] == pv[j],
        decreases r@.len() - i,
    {
        proof {
            assert(rv[i as int] == r@[i as int]@);
            assert(pv[i as int] == p@[i as int]@);
        }
        if !same(r[i].as_str(), p[i].as_str()) {
            proof {
                if rv.is_prefix_of(pv) {
                    assert(pv.subrange(0, rv.len() as int)[i as int] == pv[i as int]);
                }
            }
            return false;
        }
        i += 1;
    }
    proof {
        assert(rv =~= pv.subrange(0, rv.len() as int));
    }
    true
}

/// The path seen from `root`, if it lies below it; else its file name.
pub fn relative_path(path: &str, root: &str) -> (r: String)
    ensures
        r@ == relative_to(path@, root@),
{
    let p = components(path);
    let q = components(root);
    if is_absolute(path) == is_absolute(root) && prefix_of(&q, &p) {
        let ghost pv = p.deep_view();
        let ghost n = q@.len();
        let mut rest: Vec<String> = Vec::new();
        let mut i: usize = q.len();
        proof {
            assert(rest.deep_view() =~= pv.skip(n as int).take(0));
        }
        while i < p.len()
            invariant
                pv == p.deep_view(),
                n <= i <= p@.len(),
                rest.deep_view() == pv.skip(n as int).take(i - n),
            decreases p@.len() - i,
        {
            let ghost before = rest.deep_view();
            rest.push(p[i].as_str().to_owned());
            proof {
                assert(rest.deep_view() =~= before.push(pv[i as int]));
                assert(pv.skip(n as int).take(i + 1 - n) =~= before.push(pv[i as int]));
            }
            i += 1;
        }
        proof {
            assert(pv.skip(n as int).take(p@.len() - n) =~= pv.skip(n as int));
            assert(Seq::new(rest@.len(), |k: int| rest@[k]@) =~= rest.deep_view());
        }
        return join(rest.as_slice(), "/");
    }
    match file_name(path) {
        Some(name) => name,
        None => {
            let empty = String::new();
            proof {
                assert(empty@ =~= seq![]);
            }
            empty
        },
    }
}

/// The name that a line includes, in quotes.
pub open spec fn included_name(line: Seq<char>) -> Option<Seq<char>> {
    match after_prefix(trimmed(line), "#include \""@) {
        Some(rest) => match crate::text::cut_at(rest, '"') {
            Some((name, _)) => Some(name),
            None => None,
        },
        None => None,
    }
}

/// The names that the lines include, in quotes.
pub open spec fn included_names(all: Seq<Seq<char>>) -> Set<Seq<char>>
    decreases all.len(),
{
    if all.len() == 0 {
        Set::empty()
    } else {
        let rest = included_names(all.drop_last());
        match included_name(all.last()) {
            Some(name) => rest.insert(name),
            None => rest,
        }
    }
}

fn name_included(line: &str) -> (r: Option<String>)
    ensures
        r.deep_view() == included_name(line@),
{
    match strip_prefix(trim(line), "#include \"") {
        Some(rest) => match split_once(rest, '"') {
            Some((name, _)) => Some(name.to_owned()),
            None => None,
        },
        None => None,
    }
}

/// The headers that a source includes in quotes; system headers are not among
/// them.
pub fn include_names(source: &str) -> (r: NameSet)
    ensures
        r@ == included_names(lines_of(source@)),
{
    let all = lines(source);
    let ghost view = all.deep_view();
    let mut out = NameSet::new();
    let mut i: usize = 0;
    while i < all.len()
        invariant
            view == all.deep_view(),
            i <= all@.len(),
            out@ == included_names(view.take(i as int)),
        decreases all@.len() - i,
    {
        proof {
            assert(view.take(i + 1).drop_last() =~= view.take(i as int));
            assert(view.take(i + 1).last() == all@[i as int]@);
        }
        match name_included(all[i].as_str()) {
            Some(name) => {
                let _ = out.insert(name.as_str());
            },
            None => {},
        }
        i += 1;
    }
    proof {
        assert(view.take(i as int) =~= view);
    }
    out
}

/// The file is a header, and the source includes a header of its name.
pub open spec fn referenced(path: Seq<char>, names: Set<Seq<char>>) -> bool {
    (has_ext(path, "h"@) || has_ext(path, "hpp"@)) && match file_name_of(path) {
        Some(name) => names.contains(name),
        None => false,
    }
}

/// Whether the file is a header that the source includes.
pub fn is_referenced(path: &str, names: &NameSet) -> (r: bool)
    ensures
        r == referenced(path@, names@),
{
    if !has_extension(path, "h") && !has_extension(path, "hpp") {
        return false;
    }
    match file_name(path) {
        Some(name) => names.contains(name.as_str()),
        None => false,
    }
}

/// The headers among the files of a project that the source includes, with
/// their paths seen from the root.
pub open spec fn headers_among(
    files: Seq<(Seq<char>, Seq<char>)>,
    names: Set<Seq<char>>,
    root: Seq<char>,
) -> Seq<(Seq<char>, Seq<char>)>
    decreases files.len(),
{
    if files.len() == 0 {
        seq![]
    } else {
        let rest = headers_among(files.drop_last(), names, root);
        let (path, text) = files.last();
        if referenced(path, names) {
            rest.push((relative_to(path, root), text))
        } else {
            rest
        }
    }
}

/// Collects the source files of a single compilation unit: the source with the
/// text `main`, and the headers among the files of the project that it includes
/// in quotes. The files are given by path and text, in the order in which the
/// project is walked.
pub fn collect_sources(
    entry: &CompileCommandsEntry,
    project_root: &str,
    main: &str,
    files: &Vec<(String, String)>,
) -> (r: SourceBundle)
    ensures
        r.main_source.deep_view() == (relative_to(source_path(*entry), project_root@), main@),
        r.headers.deep_view() == headers_among(
            files.deep_view(),
            included_names(lines_of(main@)),
            project_root@,
        ),
{
    let names = include_names(main);
    let ghost all = files.deep_view();
    let mut headers: Vec<(String, String)> = Vec::new();
    let mut i: usize = 0;
    proof {
        assert(headers.deep_view() =~= headers_among(all.take(0), names@, project_root@));
    }
    while i < files.len()
        invariant
            all == files.deep_view(),
            i <= files@.len(),
            headers.deep_view() == headers_among(all.take(i as int), names@, project_root@),
        decreases files@.len() - i,
    {
        let ghost before = headers.deep_view();
        proof {
            assert(all.take(i + 1).drop_last() =~= all.take(i as int));
            assert(all.take(i + 1).last() == files@[i as int].deep_view());
        }
        let path = files[i].0.as_str();
        if is_referenced(path, &names) {
            let one = (relative_path(path, project_root), files[i].1.as_str().to_owned());
            headers.push(one);
            proof {
                assert(headers.deep_view() =~= before.push(one.deep_view()));
            }
        }
        i += 1;
    }
    proof {
        assert(all.take(i as int) =~= all);
    }
    let source = resolve_source(entry);
    SourceBundle {
        main_source: (relative_path(source.as_str(), project_root), main.to_owned()),
        headers,
    }
}

impl SourceBundle {
    /// The files of the request: the source, then its headers.
    pub fn request_files(self) -> (r: Vec<(String, String)>)
        ensures
            r.deep_view() == seq![self.main_source.deep_view()] + self.headers.deep_view(),
    {
        let mut out: Vec<(String, String)> = Vec::new();
        let mut headers = self.headers;
        out.push(self.main_source);
        out.append(&mut headers);
        proof {
            assert(out.deep_view() =~= seq![self.main_source.deep_view()]
                + self.headers.deep_view());
        }
        out
    }
}

/// A file name without its extension.
pub open spec fn stem_of(name: Seq<char>) -> Seq<char> {
    match last_dot(name, name.len() as int) {
        Some(k) => if k == 0 {
            name
        } else {
            name.take(k)
        },
        None => name,
    }
}

/// The path with the extension of its file name replaced by `rs`.
pub open spec fn rust_path(path: Seq<char>) -> Seq<char> {
    let c = components_of(pieces(path, '/'));
    match file_name_of(path) {
        Some(name) => joined(c.drop_last().push(stem_of(name) + ".rs"@), "/"@),
        None => path,
    }
}

fn stem(name: &str) -> (r: String)
    ensures
        r@ == stem_of(name@),
{
    proof {
        last_dot_bound(name@, name@.len() as int);
    }
    match find_last_dot(name) {
        Some(k) => {
            if k == 0 {
                return name.to_owned();
            }
            let cs = chars_of(name);
            let out = string_of(cs.as_slice(), 0, k);
            proof {
                assert(out@ =~= name@.take(k as int));
            }
            out
        },
        None => name.to_owned(),
    }
}

/// The path of the Rust file for a C file, both seen from the root.
pub fn output_path(rel_c: &str) -> (r: String)
    ensures
        r@ == rust_path(rel_c@),
{
    match file_name(rel_c) {
        Some(name) => {
            let mut c = components(rel_c);
            let ghost all = c.deep_view();
            let _ = c.pop();
            proof {
                assert(c.deep_view() =~= all.drop_last());
            }
            let mut last = stem(name.as_str());
            last.push_str(".rs");
            let ghost rest = c.deep_view();
            c.push(last);
            proof {
                assert(c.deep_view() =~= rest.push(last@));
                assert(Seq::new(c@.len(), |k: int| c@[k]@) =~= c.deep_view());
            }
            join(c.as_slice(), "/")
        },
        None => rel_c.to_owned(),
    }
}

/// What was made of a unit whose Rust text is `response`.
pub fn unit_result(
    entry: &CompileCommandsEntry,
    project_root: &str,
    output_dir: &str,
    response: &str,
) -> (r: TranslationResult)
    ensures
        r.source_file@ == entry.file@,
        r.output_file@ == child_path(
            output_dir@,
            rust_path(relative_to(source_path(*entry), project_root@)),
        ),
        r.output_size == vstd::utf8::encode_utf8(response@).len(),
{
    let source = resolve_source(entry);
    let rel = relative_path(source.as_str(), project_root);
    let rs = output_path(rel.as_str());
    TranslationResult {
        source_file: entry.file.as_str().to_owned(),
        output_file: join_path(output_dir, rs.as_str()),
        output_size: crate::text::bytes_of(response).len(),
    }
}

/// The units that could be translated, in order.
pub open spec fn translated(outcomes: Seq<Result<TranslationResult, String>>) -> Seq<
    TranslationResult,
>
    decreases outcomes.len(),
{
    if outcomes.len() == 0 {
        seq![]
    } else {
        let rest = translated(outcomes.drop_last());
        match outcomes.last() {
            Ok(r) => rest.push(r),
            Err(_) => rest,
        }
    }
}

/// The files that could not be translated and why, in order.
pub open spec fn failed(
    entries: Seq<CompileCommandsEntry>,
    outcomes: Seq<Result<TranslationResult, String>>,
) -> Seq<(Seq<char>, Seq<char>)>
    decreases outcomes.len(),
{
    if outcomes.len() == 0 {
        seq![]
    } else {
        let rest = failed(entries, outcomes.drop_last());
        match outcomes.last() {
            Ok(_) => rest,
            Err(e) => rest.push((entries[outcomes.len() - 1].file@, e@)),
        }
    }
}

/// What was made of a compilation database: the units that were translated, and
/// the files that failed with their errors.
#[derive(Debug)]
pub struct UnitsSummary {
    pub results: Vec<TranslationResult>,
    pub errors: Vec<(String, String)>,
}

/// Sums up the outcomes of the units of a compilation database, one per entry.
/// A unit that fails does not stop the others. `None` for a database without
/// entries.
pub fn process_compile_commands(
    entries: &Vec<CompileCommandsEntry>,
    outcomes: Vec<Result<TranslationResult, String>>,
) -> (r: Option<UnitsSummary>)
    requires
        outcomes@.len() == entries@.len(),
    ensures
        match r {
            Some(s) => entries@.len() > 0 && s.results@ == translated(outcomes@)
                && s.errors.deep_view() == failed(entries@, outcomes@),
            None => entries@.len() == 0,
        },
{
    if entries.len() == 0 {
        return None;
    }
    let ghost all = outcomes@;
    let mut results: Vec<TranslationResult> = Vec::new();
    let mut errors: Vec<(String, String)> = Vec::new();
    let mut i: usize = 0;
    let n: usize = entries.len();
    proof {
        assert(errors.deep_view() =~= seq![]);
    }
    for outcome in it: outcomes.into_iter()
        invariant
            it.seq() == all,
            all.len() == entries@.len(),
            n == all.len(),
            i == it.index(),
            results@ == translated(all.take(it.index())),
            errors.deep_view() == failed(entries@, all.take(it.index())),
    {
        let ghost before = errors.deep_view();
        proof {
            assert(all.take(i + 1).drop_last() =~= all.take(i as int));
            assert(all.take(i + 1).last() == outcome);
        }
        match outcome {
            Ok(r) => {
                results.push(r);
            },
            Err(e) => {
                let one = (entries[i].file.as_str().to_owned(), e);
                errors.push(one);
                proof {
                    assert(errors.deep_view() =~= before.push(one.deep_view()));
                }
            },
        }
        i += 1;
    }
    proof {
        assert(all.take(all.len() as int) =~= all);
    }
    Some(UnitsSummary { results, errors })
}

/// Every unit is either translated or among the errors.
pub proof fn every_unit_is_accounted_for(
    entries: Seq<CompileCommandsEntry>,
    outcomes: Seq<Result<TranslationResult, String>>,
)
    ensures
        translated(outcomes).len() + failed(entries, outcomes).len() == outcomes.len(),
    decreases outcomes.len(),
{
    if outcomes.len() > 0 {
        every_unit_is_accounted_for(entries, outcomes.drop_last());
    }
}

/// A single Rust file.
#[derive(Debug)]
pub struct SingleRustFile {
    pub path: String,
    pub contents: String,
    pub source_file: String,
}

impl SingleRustFile {
    /// The file as text: where it goes, what it was made from, and its size.
    pub fn describe(&self) -> (r: String)
        ensures
            r@ == "Single Rust file: "@ + self.path@ + " (from "@ + self.source_file@ + ", "@
                + decimal_of(vstd::utf8::encode_utf8(self.contents@).len()) + " bytes)"@,
    {
        let mut out = "Single Rust file: ".to_owned();
        out.push_str(self.path.as_str());
        out.push_str(" (from ");
        out.push_str(self.source_file.as_str());
        out.push_str(", ");
        out.push_str(
            decimal(crate::text::bytes_of(self.contents.as_str()).len()).as_str(),
        );
        out.push_str(" bytes)");
        out
    }
}

/// The first of the paths whose last component is `.c`.
pub open spec fn first_c(paths: Seq<Seq<char>>) -> Option<Seq<char>>
    decreases paths.len(),
{
    if paths.len() == 0 {
        None
    } else {
        match first_c(paths.drop_last()) {
            Some(p) => Some(p),
            None => if file_name_of(paths.last()) == Some(".c"@) {
                Some(paths.last())
            } else {
                None
            },
        }
    }
}

/// The tool that has a single unit rewritten.
pub struct CompilationUnitToRustLlm;

impl CompilationUnitToRustLlm {
    /// The file made of a reply. It is said to come from the first file named
    /// `.c`, else from `unknown.c`. `None` without a place to put it.
    pub fn output(&self, source: &RawDir, output_path: Option<&str>, response: &str) -> (r: Option<
        SingleRustFile,
    >)
        ensures
            match (r, output_path) {
                (Some(f), Some(path)) => f.path@ == path@ && f.contents@ == response@
                    && f.source_file@ == (match first_c(listing(source@.dom())) {
                    Some(p) => p,
                    None => "unknown.c"@,
                }) && is_listing(source@.dom(), listing(source@.dom())),
                (None, None) => true,
                _ => false,
            },
    {
        let path = match output_path {
            Some(p) => p,
            None => {
                return None;
            },
        };
        let paths = list_names(&source.file_paths());
        let ghost all = paths.deep_view();
        let mut found: Option<String> = None;
        let mut i: usize = 0;
        while i < paths.len()
            invariant
                all == paths.deep_view(),
                i <= paths@.len(),
                found.deep_view() == first_c(all.take(i as int)),
            decreases paths@.len() - i,
        {
            proof {
                assert(all.take(i + 1).drop_last() =~= all.take(i as int));
                assert(all.take(i + 1).last() == paths@[i as int]@);
            }
            if found.is_none() {
                match file_name(paths[i].as_str()) {
                    Some(name) => {
                        if same(name.as_str(), ".c") {
                            found = Some(paths[i].as_str().to_owned());
                        }
                    },
                    None => {},
                }
            }
            i += 1;
        }
        proof {
            assert(all.take(i as int) =~= all);
        }
        let source_file = match found {
            Some(p) => p,
            None => "unknown.c".to_owned(),
        };
        Some(
            SingleRustFile {
                path: path.to_owned(),
                contents: response.to_owned(),
                source_file,
            },
        )
    }
}

// ---------------------------------------------------------------------------
// Laws
// ---------------------------------------------------------------------------

/// Some line of the source includes the name, in quotes.
pub open spec fn includes(source: Seq<char>, name: Seq<char>) -> bool {
    exists|i: int|
        0 <= i < lines_of(source).len() && included_name(#[trigger] lines_of(source)[i]) == Some(
            name,
        )
}

proof fn included_names_have(all: Seq<Seq<char>>)
    ensures
        forall|name: Seq<char>| #[trigger]
            included_names(all).contains(name) <==> exists|i: int|
                0 <= i < all.len() && included_name(#[trigger] all[i]) == Some(name),
    decreases all.len(),
{
    if all.len() > 0 {
        let rest = all.drop_last();
        included_names_have(rest);
        assert forall|name: Seq<char>| #[trigger]
            included_names(all).contains(name) <==> exists|i: int|
                0 <= i < all.len() && included_name(#[trigger] all[i]) == Some(name) by {
            if included_names(rest).contains(name) {
                let i = choose|i: int|
                    0 <= i < rest.len() && included_name(#[trigger] rest[i]) == Some(name);
                assert(included_name(all[i]) == Some(name));
            }
            if included_name(all.last()) == Some(name) {
                assert(included_name(all[all.len() - 1]) == Some(name));
            }
            if exists|i: int| 0 <= i < all.len() && included_name(#[trigger] all[i]) == Some(name) {
                let i = choose|i: int|
                    0 <= i < all.len() && included_name(#[trigger] all[i]) == Some(name);
                if i < rest.len() {
                    assert(included_name(rest[i]) == Some(name));
                }
            }
        }
    }
}

proof fn headers_are_filtered(
    files: Seq<(Seq<char>, Seq<char>)>,
    names: Set<Seq<char>>,
    root: Seq<char>,
    wanted: spec_fn((Seq<char>, Seq<char>)) -> bool,
)
    requires
        forall|f: (Seq<char>, Seq<char>)| #[trigger] wanted(f) == referenced(f.0, names),
    ensures
        headers_among(files, names, root) == files.filter(wanted).map_values(
            |f: (Seq<char>, Seq<char>)| (relative_to(f.0, root), f.1),
        ),
    decreases files.len(),
{
    reveal(Seq::filter);
    let seen = |f: (Seq<char>, Seq<char>)| (relative_to(f.0, root), f.1);
    if files.len() > 0 {
        headers_are_filtered(files.drop_last(), names, root, wanted);
        let kept = files.drop_last().filter(wanted);
        let f = files.last();
        assert(wanted(f) == referenced(f.0, names));
        if wanted(f) {
            assert(kept.push(f).map_values(seen) =~= kept.map_values(seen).push(seen(f)));
        }
    } else {
        assert(files.filter(wanted).map_values(seen) =~= seq![]);
    }
}

/// The headers of a unit are the files of the project that end in `.h` or `.hpp`
/// and whose name the source includes in quotes, each with its path seen from
/// the root and its text, in the order of the project: every such file is among
/// them, and nothing else.
pub proof fn included_headers_are_collected(
    files: Seq<(Seq<char>, Seq<char>)>,
    source: Seq<char>,
    root: Seq<char>,
)
    ensures
        headers_among(files, included_names(lines_of(source)), root) == files.filter(
            |f: (Seq<char>, Seq<char>)|
                (has_ext(f.0, "h"@) || has_ext(f.0, "hpp"@)) && file_name_of(f.0) is Some
                    && includes(source, file_name_of(f.0)->0),
        ).map_values(|f: (Seq<char>, Seq<char>)| (relative_to(f.0, root), f.1)),
        forall|i: int|
            0 <= i < files.len() && (has_ext((#[trigger] files[i]).0, "h"@) || has_ext(
                files[i].0,
                "hpp"@,
            )) && file_name_of(files[i].0) is Some && includes(
                source,
                file_name_of(files[i].0)->0,
            ) ==> headers_among(files, included_names(lines_of(source)), root).contains(
                (relative_to(files[i].0, root), files[i].1),
            ),
        forall|h: (Seq<char>, Seq<char>)| #[trigger]
            headers_among(files, included_names(lines_of(source)), root).contains(h)
                ==> exists|i: int|
                0 <= i < files.len() && h == (
                    relative_to((#[trigger] files[i]).0, root),
                    files[i].1,
                ) && (has_ext(files[i].0, "h"@) || has_ext(files[i].0, "hpp"@)) && file_name_of(
                    files[i].0,
                ) is Some && includes(source, file_name_of(files[i].0)->0),
{
    let names = included_names(lines_of(source));
    let wanted = |f: (Seq<char>, Seq<char>)|
        (has_ext(f.0, "h"@) || has_ext(f.0, "hpp"@)) && file_name_of(f.0) is Some && includes(
            source,
            file_name_of(f.0)->0,
        );
    let seen = |f: (Seq<char>, Seq<char>)| (relative_to(f.0, root), f.1);
    included_names_have(lines_of(source));
    assert forall|f: (Seq<char>, Seq<char>)| #[trigger] wanted(f) == referenced(f.0, names) by {
        if file_name_of(f.0) is Some {
            assert(names.contains(file_name_of(f.0)->0) == includes(source, file_name_of(f.0)->0));
        }
    }
    headers_are_filtered(files, names, root, wanted);
    crate::seqs::filter_has(files, wanted);
    let kept = files.filter(wanted);
    let out = headers_among(files, names, root);
    assert(out == kept.map_values(seen));
    assert forall|i: int|
        0 <= i < files.len() && (has_ext((#[trigger] files[i]).0, "h"@) || has_ext(
            files[i].0,
            "hpp"@,
        )) && file_name_of(files[i].0) is Some && includes(
            source,
            file_name_of(files[i].0)->0,
        ) implies out.contains((relative_to(files[i].0, root), files[i].1)) by {
        assert(wanted(files[i]));
        assert(kept.contains(files[i]));
        let k = choose|k: int| 0 <= k < kept.len() && kept[k] == files[i];
        assert(out[k] == seen(files[i]));
    }
    assert forall|h: (Seq<char>, Seq<char>)| #[trigger] out.contains(h) implies exists|i: int|
        0 <= i < files.len() && h == (relative_to((#[trigger] files[i]).0, root), files[i].1)
            && (has_ext(files[i].0, "h"@) || has_ext(files[i].0, "hpp"@)) && file_name_of(
            files[i].0,
        ) is Some && includes(source, file_name_of(files[i].0)->0) by {
        let k = choose|k: int| 0 <= k < out.len() && out[k] == h;
        assert(h == seen(kept[k]));
        assert(kept.contains(kept[k]));
        assert(wanted(kept[k]));
        let i = choose|i: int| 0 <= i < files.len() && files[i] == kept[k];
        assert(wanted(files[i]));
    }
}

/// A line includes the name that stands in quotes behind `#include`, with blanks
/// around the whole or not; a line that includes a name is such a line.
pub proof fn quoted_names_are_included(
    before: Seq<char>,
    name: Seq<char>,
    rest: Seq<char>,
    after: Seq<char>,
)
    requires
        blank(before),
        blank(after),
        !name.contains('"'),
        tight("#include \""@ + name + "\""@ + rest),
    ensures
        included_name(before + ("#include \""@ + name + "\""@ + rest) + after) == Some(name),
        forall|line: Seq<char>| #[trigger]
            included_name(line) matches Some(n) ==> !n.contains('"') && ("#include \""@ + n
                + "\""@).is_prefix_of(trimmed(line)),
{
    let quote = "#include \""@;
    reveal_strlit("\"");
    assert("\""@ =~= seq!['"']);
    let text = quote + name + "\""@ + rest;
    trimming_takes_blanks_off(before, text, after);
    assert(text =~= quote + (name + seq!['"'] + rest));
    prefix_is_taken_off(quote, name + seq!['"'] + rest);
    cutting_finds_the_first(name, '"', rest);
    assert forall|line: Seq<char>| #[trigger] included_name(line) is Some implies !(
    included_name(line)->0).contains('"') && (quote + included_name(line)->0
        + "\""@).is_prefix_of(trimmed(line)) by {
        let n = included_name(line)->0;
        let t = trimmed(line);
        let behind = after_prefix(t, quote)->0;
        assert(quote + behind == t);
        cut_parts_make_the_whole(behind, '"');
        let whole = quote + n + "\""@;
        assert(t.subrange(0, whole.len() as int) =~= whole);
    }
}

/// A path below the root is seen without the root; any other is seen as its file
/// name.
pub proof fn paths_are_seen_from_the_root(root: Seq<Seq<char>>, below: Seq<Seq<char>>)
    requires
        root.len() > 0,
        below.len() > 0,
        forall|i: int| 0 <= i < root.len() ==> entry_name(#[trigger] root[i]),
        forall|i: int| 0 <= i < below.len() ==> entry_name(#[trigger] below[i]),
    ensures
        relative_to(joined(root + below, "/"@), joined(root, "/"@)) == joined(below, "/"@),
        relative_to("/"@ + joined(root + below, "/"@), "/"@ + joined(root, "/"@)) == joined(
            below,
            "/"@,
        ),
        relative_to("/"@ + joined(below, "/"@), joined(root, "/"@)) == below.last(),
        !root.is_prefix_of(below) ==> relative_to(joined(below, "/"@), joined(root, "/"@))
            == below.last(),
{
    let all = root + below;
    assert forall|i: int| 0 <= i < all.len() implies entry_name(#[trigger] all[i]) by {
        if i < root.len() {
            assert(entry_name(root[i]));
        } else {
            assert(entry_name(below[i - root.len()]));
        }
    }
    joined_names_are_components(all);
    joined_names_are_components(root);
    joined_names_are_components(below);
    assert(root.is_prefix_of(all)) by {
        assert(all.subrange(0, root.len() as int) =~= root);
    }
    assert(all.skip(root.len() as int) =~= below);
    assert(entry_name(below[below.len() - 1]));
}

/// The output of a unit stands where its source stands, under the same name with
/// the extension `.rs`.
pub proof fn output_stands_beside_its_source(
    dirs: Seq<Seq<char>>,
    stem: Seq<char>,
    ext: Seq<char>,
)
    requires
        forall|i: int| 0 <= i < dirs.len() ==> entry_name(#[trigger] dirs[i]),
        stem.len() > 0,
        !ext.contains('.'),
        entry_name(stem + "."@ + ext),
    ensures
        rust_path(joined(dirs.push(stem + "."@ + ext), "/"@)) == joined(
            dirs.push(stem + ".rs"@),
            "/"@,
        ),
{
    let name = stem + "."@ + ext;
    let all = dirs.push(name);
    assert forall|i: int| 0 <= i < all.len() implies entry_name(#[trigger] all[i]) by {
        if i < dirs.len() {
            assert(entry_name(dirs[i]));
        }
    }
    joined_names_are_components(all);
    reveal_strlit(".");
    last_dot_is(stem, ext, name.len() as int);
    assert(name.take(stem.len() as int) =~= stem);
    assert(all.drop_last() =~= dirs);
}

/// A summary holds what came back, in the order of the units: the results of
/// those that worked, and the file and the message of each that did not.
pub proof fn outcomes_are_reported(
    entries: Seq<CompileCommandsEntry>,
    outcomes: Seq<Result<TranslationResult, String>>,
)
    requires
        outcomes.len() == entries.len(),
    ensures
        translated(outcomes) == outcomes.filter_map(
            |o: Result<TranslationResult, String>|
                match o {
                    Ok(r) => Some(r),
                    Err(_) => None,
                },
        ),
        failed(entries, outcomes) == entries.zip_with(outcomes).filter_map(
            |o: (CompileCommandsEntry, Result<TranslationResult, String>)|
                match o.1 {
                    Ok(_) => None,
                    Err(e) => Some((o.0.file@, e@)),
                },
        ),
        forall|i: int|
            0 <= i < outcomes.len() ==> match #[trigger] outcomes[i] {
                Ok(r) => translated(outcomes).contains(r),
                Err(e) => failed(entries, outcomes).contains((entries[i].file@, e@)),
            },
    decreases outcomes.len(),
{
    let good = |o: Result<TranslationResult, String>|
        match o {
            Ok(r) => Some(r),
            Err(_) => None::<TranslationResult>,
        };
    let bad = |o: (CompileCommandsEntry, Result<TranslationResult, String>)|
        match o.1 {
            Ok(_) => None::<(Seq<char>, Seq<char>)>,
            Err(e) => Some((o.0.file@, e@)),
        };
    let pairs = entries.zip_with(outcomes);
    if outcomes.len() > 0 {
        let n = outcomes.len() - 1;
        let e = entries.drop_last();
        let o = outcomes.drop_last();
        outcomes_are_reported(e, o);
        failed_by_entry(entries, e, o);
        assert(pairs.drop_last() =~= e.zip_with(o));
        assert(pairs.last() == (entries[n], outcomes[n]));
        assert(translated(o) == o.filter_map(good));
        assert(failed(e, o) == e.zip_with(o).filter_map(bad));
        assert(translated(outcomes) =~= outcomes.filter_map(good));
        assert(failed(entries, outcomes) =~= pairs.filter_map(bad));
    }
    crate::seqs::filter_map_has(outcomes, good);
    crate::seqs::filter_map_has(pairs, bad);
    assert forall|i: int| 0 <= i < outcomes.len() implies match #[trigger] outcomes[i] {
        Ok(r) => translated(outcomes).contains(r),
        Err(e) => failed(entries, outcomes).contains((entries[i].file@, e@)),
    } by {
        match outcomes[i] {
            Ok(r) => {
                assert(good(outcomes[i]) == Some(r));
            },
            Err(e) => {
                assert(bad(pairs[i]) == Some((entries[i].file@, e@)));
            },
        }
    }
}

proof fn failed_by_entry(
    a: Seq<CompileCommandsEntry>,
    b: Seq<CompileCommandsEntry>,
    outcomes: Seq<Result<TranslationResult, String>>,
)
    requires
        outcomes.len() <= a.len(),
        outcomes.len() <= b.len(),
        forall|i: int| 0 <= i < outcomes.len() ==> #[trigger] a[i] == b[i],
    ensures
        failed(a, outcomes) == failed(b, outcomes),
    decreases outcomes.len(),
{
    if outcomes.len() > 0 {
        failed_by_entry(a, b, outcomes.drop_last());
        assert(a[outcomes.len() - 1] == b[outcomes.len() - 1]);
    }
}

/// The file that is named as the source is the first of those that qualify.
pub proof fn first_source_is_named(paths: Seq<Seq<char>>)
    ensures
        match first_c(paths) {
            Some(p) => exists|i: int|
                0 <= i < paths.len() && p == #[trigger] paths[i] && file_name_of(p) == Some(".c"@)
                    && forall|j: int|
                    0 <= j < i ==> file_name_of(#[trigger] paths[j]) != Some(".c"@),
            None => forall|j: int|
                0 <= j < paths.len() ==> file_name_of(#[trigger] paths[j]) != Some(".c"@),
        },
    decreases paths.len(),
{
    if paths.len() > 0 {
        let rest = paths.drop_last();
        first_source_is_named(rest);
        match first_c(rest) {
            Some(p) => {
                let i = choose|i: int|
                    0 <= i < rest.len() && p == #[trigger] rest[i] && file_name_of(p) == Some(
                        ".c"@,
                    ) && forall|j: int|
                        0 <= j < i ==> file_name_of(#[trigger] rest[j]) != Some(".c"@);
                assert(p == paths[i]);
                assert forall|j: int| 0 <= j < i implies file_name_of(#[trigger] paths[j]) != Some(
                    ".c"@,
                ) by {
                    assert(file_name_of(rest[j]) != Some(".c"@));
                }
            },
            None => {
                assert forall|j: int| 0 <= j < rest.len() implies file_name_of(
                    #[trigger] paths[j],
                ) != Some(".c"@) by {
                    assert(file_name_of(rest[j]) != Some(".c"@));
                }
                assert(paths[paths.len() - 1] == paths.last());
            },
        }
    }
}

/// An absolute source path is taken as it is, and any other is one below the
/// directory of its entry.
pub proof fn sources_stand_below_their_directory(entry: CompileCommandsEntry)
    ensures
        entry.file@.len() > 0 && entry.file@[0] == '/' ==> source_path(entry) == entry.file@,
        entry.file@.len() > 0 && entry.file@[0] != '/' && entry.directory@.len() > 0
            && entry.directory@.last() != '/' ==> source_path(entry) == entry.directory@ + "/"@
            + entry.file@,
        entry.file@.len() > 0 && entry.file@[0] != '/' && entry.directory@.len() > 0
            && entry.directory@.last() == '/' ==> source_path(entry) == entry.directory@
            + entry.file@,
{
}

} // verus!
