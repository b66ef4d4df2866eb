//! The C source of a differential test suite.
use crate::generate_difftest_suite::generators::{
    all_vectors, generate_test_vectors, struct_key, struct_key_of, FnSig, FnSigView, StructMap,
    Structs, TestVector, TestVectorView,
};
use crate::generate_difftest_suite::types::{
    is_scalar_type, is_string_type, is_void_type, scalar_name, string_name, void_type,
};
use crate::names::NameMap;
use crate::order::listing;
use crate::text::{decimal, decimal_of, join, joined, replace, replaced, trim, trimmed};
use vstd::prelude::*;

verus! {

/// A generated C differential test suite that loads both the C and Rust shared
/// libraries and compares their outputs on identical inputs.
#[derive(Debug)]
pub struct DiffTestSuite {
    pub source: String,
}

impl DiffTestSuite {
    /// The suite as text.
    pub fn describe(&self) -> (r: String)
        ensures
            r@ == self.source@,
    {
        self.source.as_str().to_owned()
    }
}

/// The templates that the suite is made of.
#[derive(Debug)]
pub struct Templates {
    pub header: String,
    pub prologue: String,
    pub body_scalar: String,
    pub body_void: String,
    pub body_string: String,
    pub body_warn: String,
    pub main: String,
}

/// A placeholder and its text.
pub type Sub = (Seq<char>, Seq<char>);

/// The template with each placeholder `{name}` replaced in turn.
pub open spec fn filled(template: Seq<char>, subs: Seq<Sub>) -> Seq<char>
    decreases subs.len(),
{
    if subs.len() == 0 {
        template
    } else {
        replaced(
            filled(template, subs.drop_last()),
            "{"@ + subs.last().0 + "}"@,
            subs.last().1,
        )
    }
}

/// Fills in the placeholders of a template, one after the other.
pub fn fill(template: &str, subs: &Vec<(String, String)>) -> (r: String)
    ensures
        r@ == filled(template@, subs.deep_view()),
{
    let ghost all = subs.deep_view();
    let mut out = template.to_owned();
    let mut i: usize = 0;
    while i < subs.len()
        invariant
            all == subs.deep_view(),
            i <= subs@.len(),
            out@ == filled(template@, all.take(i as int)),
        decreases subs@.len() - i,
    {
        let mut key = "{".to_owned();
        key.push_str(subs[i].0.as_str());
        key.push_str("}");
        proof {
            assert(all.take(i + 1).drop_last() =~= all.take(i as int));
            assert(all.take(i + 1).last() == subs@[i as int].deep_view());
            reveal_strlit("{");
            assert(key@.len() > 0);
        }
        out = replace(out.as_str(), key.as_str(), subs[i].1.as_str());
        i += 1;
    }
    proof {
        assert(all.take(i as int) =~= all);
    }
    out
}

/// A number with at least three digits.
pub open spec fn three_digits(n: nat) -> Seq<char> {
    let d = decimal_of(n);
    if d.len() == 1 {
        "00"@ + d
    } else if d.len() == 2 {
        "0"@ + d
    } else {
        d
    }
}

/// The identifier of the test at position `i`.
pub open spec fn test_id(i: nat) -> Seq<char> {
    "T"@ + three_digits(i + 1)
}

fn id_of(i: usize) -> (r: String)
    requires
        i < usize::MAX,
    ensures
        r@ == test_id(i as nat),
{
    let digits = decimal(i + 1);
    let mut out = "T".to_owned();
    let n: usize = digits.as_str().unicode_len();
    if n == 1 {
        out.push_str("00");
    } else if n == 2 {
        out.push_str("0");
    }
    out.push_str(digits.as_str());
    proof {
        assert(out@ =~= test_id(i as nat));
    }
    out
}

/// The list of parameter types.
pub open spec fn parameter_list(params: Seq<Seq<char>>) -> Seq<char> {
    if params.len() == 0 {
        "void"@
    } else {
        joined(params, ", "@)
    }
}

/// The argument at position `j`; `0` for one that is missing.
pub open spec fn argument(args: Seq<Seq<char>>, j: int) -> Seq<char> {
    if 0 <= j < args.len() {
        args[j]
    } else {
        "0"@
    }
}

/// The name of the argument at position `j`.
pub open spec fn arg_name(j: nat) -> Seq<char> {
    "arg"@ + decimal_of(j)
}

/// The declarations of the first `n` arguments.
pub open spec fn arg_decls(params: Seq<Seq<char>>, args: Seq<Seq<char>>, n: nat) -> Seq<char>
    decreases n,
{
    if n == 0 {
        seq![]
    } else {
        arg_decls(params, args, (n - 1) as nat) + "    "@ + trimmed(params[n - 1]) + " "@
            + arg_name((n - 1) as nat) + " = "@ + argument(args, n - 1) + ";\n"@
    }
}

/// The list of the argument names.
pub open spec fn arg_list(n: nat) -> Seq<char> {
    joined(Seq::new(n, |j: int| arg_name(j as nat)), ", "@)
}

/// What the placeholders of a test stand for.
pub open spec fn test_subs(i: nat, t: TestVectorView, sig: FnSigView) -> Seq<Sub> {
    seq![
        ("TEST_ID"@, test_id(i)),
        ("FN_NAME"@, t.function),
        ("RET"@, trimmed(sig.return_type)),
        ("PARAM_TYPES"@, parameter_list(sig.param_types)),
        ("ARG_DECLS"@, arg_decls(sig.param_types, t.args, sig.param_types.len())),
        ("ARGS"@, arg_list(sig.param_types.len())),
    ]
}

/// The code of one test: a comparison by the type of the result, or a warning
/// where the function is unknown or its result cannot be compared.
pub open spec fn test_code(
    i: nat,
    t: TestVectorView,
    sigs: Map<Seq<char>, FnSigView>,
    tm: Templates,
) -> Seq<char> {
    if !sigs.dom().contains(t.function) {
        filled(
            tm.body_warn@,
            seq![("TEST_ID"@, test_id(i)), ("FN_NAME"@, t.function)],
        )
    } else {
        let sig = sigs[t.function];
        let subs = test_subs(i, t, sig);
        let ret = trimmed(sig.return_type);
        if void_type(ret) {
            filled(tm.prologue@, subs) + filled(tm.body_void@, subs)
        } else if scalar_name(trimmed(ret)) {
            filled(tm.prologue@, subs) + filled(tm.body_scalar@, subs)
        } else if string_name(trimmed(ret)) {
            filled(tm.prologue@, subs) + filled(tm.body_string@, subs)
        } else {
            filled(tm.body_warn@, subs)
        }
    }
}

/// The code of the tests, one after another.
pub open spec fn tests_code(
    tests: Seq<TestVectorView>,
    sigs: Map<Seq<char>, FnSigView>,
    tm: Templates,
) -> Seq<char>
    decreases tests.len(),
{
    if tests.len() == 0 {
        seq![]
    } else {
        tests_code(tests.drop_last(), sigs, tm) + test_code(
            (tests.len() - 1) as nat,
            tests.last(),
            sigs,
            tm,
        )
    }
}

/// The calls of the first `n` tests.
pub open spec fn test_calls(n: nat) -> Seq<char>
    decreases n,
{
    if n == 0 {
        seq![]
    } else {
        test_calls((n - 1) as nat) + "    diff_"@ + test_id((n - 1) as nat)
            + "(&passed, &failed);\n"@
    }
}

/// The C source of the suite.
pub open spec fn suite_code(
    tests: Seq<TestVectorView>,
    sigs: Map<Seq<char>, FnSigView>,
    tm: Templates,
) -> Seq<char> {
    tm.header@ + tests_code(tests, sigs, tm) + filled(
        tm.main@,
        seq![("TEST_CALLS"@, test_calls(tests.len()))],
    )
}

fn declare_args(params: &Vec<String>, args: &Vec<String>) -> (r: String)
    ensures
        r@ == arg_decls(params.deep_view(), args.deep_view(), params@.len()),
{
    let ghost all = params.deep_view();
    let ghost given = args.deep_view();
    let mut out = String::new();
    let mut j: usize = 0;
    proof {
        assert(out@ =~= arg_decls(all, given, 0));
    }
    while j < params.len()
        invariant
            all == params.deep_view(),
            given == args.deep_view(),
            j <= params@.len(),
            out@ == arg_decls(all, given, j as nat),
        decreases params@.len() - j,
    {
        let ghost before = out@;
        proof {
            assert(all[j as int] == params@[j as int]@);
        }
        out.push_str("    ");
        out.push_str(trim(params[j].as_str()));
        out.push_str(" ");
        out.push_str("arg");
        out.push_str(decimal(j).as_str());
        out.push_str(" = ");
        if j < args.len() {
            proof {
                assert(given[j as int] == args@[j as int]@);
            }
            out.push_str(args[j].as_str());
        } else {
            out.push_str("0");
        }
        out.push_str(";\n");
        proof {
            assert(out@ =~= before + "    "@ + trimmed(all[j as int]) + " "@ + arg_name(j as nat)
                + " = "@ + argument(given, j as int) + ";\n"@);
        }
        j += 1;
    }
    out
}

fn list_args(n: usize) -> (r: String)
    ensures
        r@ == arg_list(n as nat),
{
    let ghost want = Seq::new(n as nat, |j: int| arg_name(j as nat));
    let mut names: Vec<String> = Vec::new();
    let mut j: usize = 0;
    while j < n
        invariant
            want == Seq::new(n as nat, |j: int| arg_name(j as nat)),
            j <= n,
            names@.len() == j,
            forall|k: int| 0 <= k < j ==> (#[trigger] names@[k])@ == want[k],
        decreases n - j,
    {
        let mut name = "arg".to_owned();
        name.push_str(decimal(j).as_str());
        names.push(name);
        j += 1;
    }
    proof {
        assert(Seq::new(names@.len(), |k: int| names@[k]@) =~= want);
    }
    join(names.as_slice(), ", ")
}

fn pair(a: &str, b: &str) -> (r: (String, String))
    ensures
        r.deep_view() == (a@, b@),
{
    (a.to_owned(), b.to_owned())
}

fn code_of(i: usize, test: &TestVector, sigs: &NameMap<FnSig>, tm: &Templates) -> (r: String)
    requires
        i < usize::MAX,
    ensures
        r@ == test_code(i as nat, test.deep_view(), sigs@, *tm),
{
    let id = id_of(i);
    let mut subs: Vec<(String, String)> = Vec::new();
    subs.push(pair("TEST_ID", id.as_str()));
    subs.push(pair("FN_NAME", test.function.as_str()));
    let sig = match sigs.get(test.function.as_str()) {
        Some(s) => s,
        None => {
            proof {
                assert(subs.deep_view() =~= seq![
                    ("TEST_ID"@, test_id(i as nat)),
                    ("FN_NAME"@, test.function@),
                ]);
            }
            return fill(tm.body_warn.as_str(), &subs);
        },
    };
    let ret = trim(sig.return_type.as_str());
    subs.push(pair("RET", ret));
    let params = if sig.param_types.len() == 0 {
        "void".to_owned()
    } else {
        join(sig.param_types.as_slice(), ", ")
    };
    proof {
        assert(Seq::new(sig.param_types@.len(), |k: int| sig.param_types@[k]@)
            =~= sig.param_types.deep_view());
    }
    subs.push(pair("PARAM_TYPES", params.as_str()));
    subs.push(pair("ARG_DECLS", declare_args(&sig.param_types, &test.args).as_str()));
    subs.push(pair("ARGS", list_args(sig.param_types.len()).as_str()));
    proof {
        assert(subs.deep_view() =~= test_subs(i as nat, test.deep_view(), sig.deep_view()));
    }
    if is_void_type(ret) {
        let mut out = fill(tm.prologue.as_str(), &subs);
        out.push_str(fill(tm.body_void.as_str(), &subs).as_str());
        out
    } else if is_scalar_type(ret) {
        let mut out = fill(tm.prologue.as_str(), &subs);
        out.push_str(fill(tm.body_scalar.as_str(), &subs).as_str());
        out
    } else if is_string_type(ret) {
        let mut out = fill(tm.prologue.as_str(), &subs);
        out.push_str(fill(tm.body_string.as_str(), &subs).as_str());
        out
    } else {
        fill(tm.body_warn.as_str(), &subs)
    }
}

/// The C source of the suite with these tests: the header, each test, and the
/// main function that calls them.
pub fn generate_difftest_c(
    tests: &Vec<TestVector>,
    sigs: &NameMap<FnSig>,
    templates: &Templates,
) -> (r: String)
    ensures
        r@ == suite_code(tests.deep_view(), sigs@, *templates),
{
    let ghost all = tests.deep_view();
    let mut out = templates.header.as_str().to_owned();
    let mut calls = String::new();
    let mut i: usize = 0;
    proof {
        assert(calls@ =~= test_calls(0));
        assert(out@ =~= templates.header@ + tests_code(all.take(0), sigs@, *templates));
    }
    while i < tests.len()
        invariant
            all == tests.deep_view(),
            i <= tests@.len(),
            out@ == templates.header@ + tests_code(all.take(i as int), sigs@, *templates),
            calls@ == test_calls(i as nat),
        decreases tests@.len() - i,
    {
        proof {
            assert(all.take(i + 1).drop_last() =~= all.take(i as int));
            assert(all.take(i + 1).last() == tests@[i as int].deep_view());
        }
        out.push_str(code_of(i, &tests[i], sigs, templates).as_str());
        let ghost before = calls@;
        calls.push_str("    diff_");
        calls.push_str(id_of(i).as_str());
        calls.push_str("(&passed, &failed);\n");
        proof {
            assert(out@ =~= templates.header@ + tests_code(all.take(i + 1), sigs@, *templates));
        }
        i += 1;
    }
    proof {
        assert(all.take(i as int) =~= all);
    }
    let mut subs: Vec<(String, String)> = Vec::new();
    subs.push(pair("TEST_CALLS", calls.as_str()));
    proof {
        assert(subs.deep_view() =~= seq![("TEST_CALLS"@, test_calls(all.len()))]);
    }
    out.push_str(fill(templates.main.as_str(), &subs).as_str());
    out
}

/// A function of the API.
#[derive(Debug)]
pub struct ApiFunction {
    pub name: String,
    pub return_type: String,
    pub param_types: Vec<String>,
}

/// A struct of the API: its name and its fields.
#[derive(Debug)]
pub struct ApiStruct {
    pub name: String,
    pub fields: Vec<(String, String)>,
}

/// The signatures by name; of functions with one name the last counts.
pub open spec fn signatures(functions: Seq<ApiFunction>) -> Map<Seq<char>, FnSigView>
    decreases functions.len(),
{
    if functions.len() == 0 {
        Map::empty()
    } else {
        let f = functions.last();
        signatures(functions.drop_last()).insert(
            f.name@,
            FnSigView { return_type: f.return_type@, param_types: f.param_types.deep_view() },
        )
    }
}

/// The structs by their unqualified names; of structs with one name the last
/// counts.
pub open spec fn struct_table(structs: Seq<ApiStruct>) -> Structs
    decreases structs.len(),
{
    if structs.len() == 0 {
        Map::empty()
    } else {
        let s = structs.last();
        struct_table(structs.drop_last()).insert(
            struct_key(s.name@),
            (s.name@, s.fields.deep_view()),
        )
    }
}

/// The signatures and the structs of an API by name.
pub fn index_api(functions: Vec<ApiFunction>, structs: Vec<ApiStruct>) -> (r: (
    NameMap<FnSig>,
    StructMap,
))
    ensures
        r.0@ == signatures(functions@),
        r.1@ == struct_table(structs@),
{
    let ghost all = functions@;
    let mut sigs: NameMap<FnSig> = NameMap::new();
    for f in it: functions.into_iter()
        invariant
            it.seq() == all,
            sigs@ == signatures(all.take(it.index())),
    {
        proof {
            assert(all.take(it.index() + 1).drop_last() =~= all.take(it.index()));
            assert(all.take(it.index() + 1).last() == f);
        }
        let sig = FnSig { return_type: f.return_type, param_types: f.param_types };
        sigs.insert(f.name.as_str(), sig);
    }
    let ghost every = structs@;
    let mut table: StructMap = NameMap::new();
    for s in it: structs.into_iter()
        invariant
            it.seq() == every,
            table@ == struct_table(every.take(it.index())),
    {
        proof {
            assert(every.take(it.index() + 1).drop_last() =~= every.take(it.index()));
            assert(every.take(it.index() + 1).last() == s);
        }
        let key = struct_key_of(s.name.as_str()).to_owned();
        table.insert(key.as_str(), (s.name, s.fields));
    }
    proof {
        assert(all.take(all.len() as int) =~= all);
        assert(every.take(every.len() as int) =~= every);
    }
    (sigs, table)
}

/// The tool that generates a differential test suite.
pub struct GenerateDiffTestSuite;

impl GenerateDiffTestSuite {
    /// The suite for an API: the test vectors of its functions, compared.
    pub fn generate(
        &self,
        sigs: &NameMap<FnSig>,
        structs: &StructMap,
        templates: &Templates,
    ) -> (r: DiffTestSuite)
        ensures
            r.source@ == suite_code(
                all_vectors(listing(sigs@.dom()), sigs@, structs@),
                sigs@,
                *templates,
            ),
    {
        let tests = generate_test_vectors(sigs, structs);
        DiffTestSuite { source: generate_difftest_c(&tests, sigs, templates) }
    }
}

} // verus!
