//! The passes: which are made, what each is given, and how their results are
//! combined. The caller obtains the replies.
use crate::build_project_spec::ProjectKind;
use crate::fs::RawDir;
use crate::modular_translation_llm::clang::ClangDeclarations;
use crate::modular_translation_llm::utils::{
    read_source_at_range, text_at_range, RangeError, SourceRange,
};
use crate::names::NameSet;
use crate::order::{is_listing, list_names, listing};
use vstd::prelude::*;

verus! {

/// Represents a translated Rust declaration.
#[derive(Debug)]
pub struct RustDeclaration {
    /// The Rust code.
    pub rust_code: String,
    /// List of dependency module paths to import.
    pub dependencies: Vec<String>,
}

#[verifier::ext_equal]
pub ghost struct RustDeclarationView {
    pub rust_code: Seq<char>,
    pub dependencies: Seq<Seq<char>>,
}

impl DeepView for RustDeclaration {
    type V = RustDeclarationView;

    open spec fn deep_view(&self) -> RustDeclarationView {
        RustDeclarationView {
            rust_code: self.rust_code@,
            dependencies: self.dependencies.deep_view(),
        }
    }
}

/// Result of the type pass.
#[derive(Debug)]
pub struct TypeTranslationResult {
    pub translations: Vec<RustDeclaration>,
}

/// Result of the interface pass: function and global variable signature lines.
#[derive(Debug)]
pub struct InterfaceTranslationResult {
    pub signatures: Vec<String>,
}

/// Result of all passes: the declarations and the manifest.
#[derive(Debug)]
pub struct TranslationResult {
    pub translations: Vec<RustDeclaration>,
    pub cargo_toml: String,
}

/// The name of the project kind in a request.
pub open spec fn kind_name(kind: ProjectKind) -> Seq<char> {
    match kind {
        ProjectKind::Executable => "executable"@,
        ProjectKind::Library => "library"@,
    }
}

pub fn project_kind_name(kind: ProjectKind) -> (r: &'static str)
    ensures
        r@ == kind_name(kind),
{
    match kind {
        ProjectKind::Executable => "executable",
        ProjectKind::Library => "library",
    }
}

/// The passes that are made over a project. A pass without declarations is left
/// out.
#[derive(Debug, Clone, Copy, PartialEq, Eq, Structural)]
pub struct Passes {
    pub types: bool,
    pub interface: bool,
    pub functions: bool,
}

/// The passes that are made over these declarations; `None` if there is nothing
/// to translate.
pub fn translate_decls(declarations: &ClangDeclarations) -> (r: Option<Passes>)
    ensures
        r == if declarations.app_types@.len() == 0 && declarations.app_globals@.len() == 0
            && declarations.app_functions@.len() == 0 {
            None::<Passes>
        } else {
            let rest = declarations.app_globals@.len() > 0 || declarations.app_functions@.len() > 0;
            Some(
                Passes {
                    types: declarations.app_types@.len() > 0,
                    interface: rest,
                    functions: rest,
                },
            )
        },
{
    let types = declarations.app_types.len() > 0;
    let rest = declarations.app_globals.len() > 0 || declarations.app_functions.len() > 0;
    if !types && !rest {
        return None;
    }
    Some(Passes { types, interface: rest, functions: rest })
}

/// A declaration in the request of the interface pass.
#[derive(Debug)]
pub struct InterfaceDeclarationInput {
    pub source: String,
    pub enforce_ffi_interface: bool,
}

#[verifier::ext_equal]
pub ghost struct InterfaceInputView {
    pub source: Seq<char>,
    pub enforce_ffi_interface: bool,
}

impl DeepView for InterfaceDeclarationInput {
    type V = InterfaceInputView;

    open spec fn deep_view(&self) -> InterfaceInputView {
        InterfaceInputView {
            source: self.source@,
            enforce_ffi_interface: self.enforce_ffi_interface,
        }
    }
}

/// The range of a declaration, and what is known of its visibility.
#[derive(Debug)]
pub struct DeclarationRange {
    pub range: SourceRange,
    pub visibility: Option<bool>,
}

/// Every range can be read forward.
pub open spec fn all_forward(decls: Seq<DeclarationRange>) -> bool {
    forall|i: int| 0 <= i < decls.len() ==> (#[trigger] decls[i]).range.forward()
}

/// The texts of the declarations, or what is wrong with the first that cannot
/// be read.
pub open spec fn declaration_texts(decls: Seq<DeclarationRange>, dir: Map<Seq<char>, Seq<u8>>) -> Result<
    Seq<Seq<char>>,
    RangeError,
>
    decreases decls.len(),
{
    if decls.len() == 0 {
        Ok(seq![])
    } else {
        match declaration_texts(decls.drop_last(), dir) {
            Err(e) => Err(e),
            Ok(rest) => match text_at_range(decls.last().range, dir) {
                Err(e) => Err(e),
                Ok(text) => Ok(rest.push(text)),
            },
        }
    }
}

proof fn texts_fail(
    decls: Seq<DeclarationRange>,
    dir: Map<Seq<char>, Seq<u8>>,
    n: int,
    e: RangeError,
)
    requires
        0 <= n <= decls.len(),
        declaration_texts(decls.take(n), dir) == Err::<Seq<Seq<char>>, RangeError>(e),
    ensures
        declaration_texts(decls, dir) == Err::<Seq<Seq<char>>, RangeError>(e),
    decreases decls.len() - n,
{
    if n < decls.len() {
        assert(decls.take(n + 1).drop_last() =~= decls.take(n));
        texts_fail(decls, dir, n + 1, e);
    } else {
        assert(decls.take(n) =~= decls);
    }
}

/// Reads the texts of the declarations.
pub fn read_declarations(decls: &Vec<DeclarationRange>, source: &RawDir) -> (r: Result<
    Vec<String>,
    RangeError,
>)
    requires
        all_forward(decls@),
    ensures
        match r {
            Ok(v) => declaration_texts(decls@, source@) == Ok::<Seq<Seq<char>>, RangeError>(
                v.deep_view(),
            ),
            Err(e) => declaration_texts(decls@, source@) == Err::<Seq<Seq<char>>, RangeError>(e),
        },
{
    let ghost all = decls@;
    let mut out: Vec<String> = Vec::new();
    let mut i: usize = 0;
    proof {
        assert(out.deep_view() =~= seq![]);
    }
    while i < decls.len()
        invariant
            all == decls@,
            all_forward(all),
            i <= all.len(),
            declaration_texts(all.take(i as int), source@) == Ok::<Seq<Seq<char>>, RangeError>(
                out.deep_view(),
            ),
        decreases all.len() - i,
    {
        let ghost before = out.deep_view();
        proof {
            assert(all[i as int].range.forward());
            assert(all.take(i + 1).drop_last() =~= all.take(i as int));
            assert(all.take(i + 1).last() == decls@[i as int]);
        }
        match read_source_at_range(&decls[i].range, source) {
            Ok(text) => {
                out.push(text);
                proof {
                    assert(out.deep_view() =~= before.push(text@));
                }
            },
            Err(e) => {
                proof {
                    texts_fail(all, source@, i + 1, e);
                }
                return Err(e);
            },
        }
        i += 1;
    }
    proof {
        assert(all.take(i as int) =~= all);
    }
    Ok(out)
}

/// The request of the interface pass for these texts: functions first, then
/// globals. A public function of a library keeps its C interface.
pub open spec fn interface_inputs(
    function_texts: Seq<Seq<char>>,
    functions: Seq<DeclarationRange>,
    global_texts: Seq<Seq<char>>,
    kind: ProjectKind,
) -> Seq<InterfaceInputView> {
    Seq::new(
        function_texts.len(),
        |i: int|
            InterfaceInputView {
                source: function_texts[i],
                enforce_ffi_interface: kind == ProjectKind::Library && functions[i].visibility
                    == Some(true),
            },
    ) + Seq::new(
        global_texts.len(),
        |i: int| InterfaceInputView { source: global_texts[i], enforce_ffi_interface: false },
    )
}

/// The declarations of the request of the interface pass.
pub fn interface_request(
    functions: &Vec<DeclarationRange>,
    globals: &Vec<DeclarationRange>,
    source: &RawDir,
    kind: ProjectKind,
) -> (r: Result<Vec<InterfaceDeclarationInput>, RangeError>)
    requires
        all_forward(functions@),
        all_forward(globals@),
    ensures
        match r {
            Ok(v) => declaration_texts(functions@, source@) is Ok && declaration_texts(
                globals@,
                source@,
            ) is Ok && v.deep_view() == interface_inputs(
                declaration_texts(functions@, source@)->Ok_0,
                functions@,
                declaration_texts(globals@, source@)->Ok_0,
                kind,
            ),
            Err(e) => match declaration_texts(functions@, source@) {
                Err(f) => e == f,
                Ok(_) => declaration_texts(globals@, source@) == Err::<Seq<Seq<char>>, RangeError>(
                    e,
                ),
            },
        },
{
    let function_texts = match read_declarations(functions, source) {
        Ok(v) => v,
        Err(e) => {
            return Err(e);
        },
    };
    let global_texts = match read_declarations(globals, source) {
        Ok(v) => v,
        Err(e) => {
            return Err(e);
        },
    };
    let ghost ft = function_texts.deep_view();
    let ghost gt = global_texts.deep_view();
    let ghost want = interface_inputs(ft, functions@, gt, kind);
    proof {
        texts_length(functions@, source@);
    }
    let library = match kind {
        ProjectKind::Library => true,
        ProjectKind::Executable => false,
    };
    let mut out: Vec<InterfaceDeclarationInput> = Vec::new();
    let mut i: usize = 0;
    while i < function_texts.len()
        invariant
            ft == function_texts.deep_view(),
            want == interface_inputs(ft, functions@, gt, kind),
            library == (kind == ProjectKind::Library),
            function_texts@.len() == functions@.len(),
            i <= function_texts@.len(),
            out@.len() == i,
            forall|j: int| 0 <= j < i ==> (#[trigger] out@[j]).deep_view() == want[j],
        decreases function_texts@.len() - i,
    {
        proof {
            assert(ft[i as int] == function_texts@[i as int]@);
        }
        let public = match functions[i].visibility {
            Some(v) => v,
            None => false,
        };
        out.push(
            InterfaceDeclarationInput {
                source: function_texts[i].as_str().to_owned(),
                enforce_ffi_interface: library && public,
            },
        );
        i += 1;
    }
    let ghost n = function_texts@.len();
    let mut k: usize = 0;
    while k < global_texts.len()
        invariant
            ft == function_texts.deep_view(),
            gt == global_texts.deep_view(),
            n == ft.len(),
            want == interface_inputs(ft, functions@, gt, kind),
            k <= global_texts@.len(),
            out@.len() == n + k,
            forall|j: int| 0 <= j < n + k ==> (#[trigger] out@[j]).deep_view() == want[j],
        decreases global_texts@.len() - k,
    {
        proof {
            assert(gt[k as int] == global_texts@[k as int]@);
        }
        out.push(
            InterfaceDeclarationInput {
                source: global_texts[k].as_str().to_owned(),
                enforce_ffi_interface: false,
            },
        );
        k += 1;
    }
    proof {
        assert(out.deep_view() =~= want);
    }
    Ok(out)
}

proof fn texts_length(decls: Seq<DeclarationRange>, dir: Map<Seq<char>, Seq<u8>>)
    ensures
        declaration_texts(decls, dir) matches Ok(v) ==> v.len() == decls.len(),
    decreases decls.len(),
{
    if decls.len() > 0 {
        texts_length(decls.drop_last(), dir);
    }
}

/// The Rust code of each declaration, as context for later passes.
pub fn rust_code_of(translations: &Vec<RustDeclaration>) -> (r: Vec<String>)
    ensures
        r.deep_view() == translations.deep_view().map_values(
            |d: RustDeclarationView| d.rust_code,
        ),
{
    let ghost want = translations.deep_view().map_values(|d: RustDeclarationView| d.rust_code);
    let mut out: Vec<String> = Vec::new();
    let mut i: usize = 0;
    while i < translations.len()
        invariant
            want == translations.deep_view().map_values(|d: RustDeclarationView| d.rust_code),
            i <= translations@.len(),
            out@.len() == i,
            forall|j: int| 0 <= j < i ==> (#[trigger] out@[j])@ == want[j],
        decreases translations@.len() - i,
    {
        out.push(translations[i].rust_code.as_str().to_owned());
        i += 1;
    }
    proof {
        assert(out.deep_view() =~= want);
    }
    out
}

/// Combines the results: types first, then functions and globals.
pub fn combine(types: TypeTranslationResult, functions: Vec<RustDeclaration>) -> (r: Vec<
    RustDeclaration,
>)
    ensures
        r@ == types.translations@ + functions@,
{
    let mut out = types.translations;
    let mut more = functions;
    out.append(&mut more);
    out
}

/// The dependencies of the declarations.
pub open spec fn dependencies_of(translations: Seq<RustDeclarationView>) -> Set<Seq<char>>
    decreases translations.len(),
{
    if translations.len() == 0 {
        Set::empty()
    } else {
        dependencies_of(translations.drop_last()).union(
            translations.last().dependencies.to_set(),
        )
    }
}

fn insert_all(set: &mut NameSet, names: &Vec<String>)
    ensures
        final(set)@ == old(set)@.union(names.deep_view().to_set()),
{
    let ghost start = set@;
    let ghost all = names.deep_view();
    let mut i: usize = 0;
    proof {
        assert(start.union(all.take(0).to_set()) =~= start);
    }
    while i < names.len()
        invariant
            all == names.deep_view(),
            i <= names@.len(),
            set@ == start.union(all.take(i as int).to_set()),
        decreases names@.len() - i,
    {
        let _ = set.insert(names[i].as_str());
        proof {
            crate::fs::seen_one_more(all, i as int);
            assert(all[i as int] == names@[i as int]@);
            let now = all.take(i + 1);
            let had = all.take(i as int);
            assert forall|p: Seq<char>| #[trigger] now.to_set().contains(p) == (
            had.to_set().contains(p) || p == all[i as int]) by {
                assert(now.contains(p) == (had.contains(p) || p == all[i as int]));
            }
            assert(set@ =~= start.union(now.to_set()));
        }
        i += 1;
    }
    proof {
        assert(all.take(i as int) =~= all);
    }
}

/// The dependencies of all declarations, in ascending order and each once.
pub fn collect_dependencies(translations: &Vec<RustDeclaration>) -> (r: Vec<String>)
    ensures
        is_listing(dependencies_of(translations.deep_view()), r.deep_view()),
        r.deep_view() == listing(dependencies_of(translations.deep_view())),
        is_listing(dependencies_of(translations.deep_view()), r.deep_view()),
{
    let ghost all = translations.deep_view();
    let mut set = NameSet::new();
    let mut i: usize = 0;
    while i < translations.len()
        invariant
            all == translations.deep_view(),
            i <= translations@.len(),
            set@ == dependencies_of(all.take(i as int)),
        decreases translations@.len() - i,
    {
        proof {
            assert(all.take(i + 1).drop_last() =~= all.take(i as int));
            assert(all.take(i + 1).last() == translations@[i as int].deep_view());
        }
        insert_all(&mut set, &translations[i].dependencies);
        i += 1;
    }
    proof {
        assert(all.take(i as int) =~= all);
    }
    list_names(&set)
}

/// The tool that rewrites a project declaration by declaration.
pub struct ModularTranslationLlm;

} // verus!
