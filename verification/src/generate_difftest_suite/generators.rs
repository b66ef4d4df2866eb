//! Boundary values of C types, and the test vectors made of them.
use crate::generate_difftest_suite::types::{is_string_name, string_name};
use crate::names::NameMap;
use crate::order::{is_listing, list_names, listing};
use crate::text::{chars_of, join, joined, same, string_of, strip_prefix, trim, trimmed};
use vstd::prelude::*;

verus! {

/// The signature of a C function.
#[derive(Debug)]
pub struct FnSig {
    pub return_type: String,
    pub param_types: Vec<String>,
}

#[verifier::ext_equal]
pub ghost struct FnSigView {
    pub return_type: Seq<char>,
    pub param_types: Seq<Seq<char>>,
}

impl DeepView for FnSig {
    type V = FnSigView;

    open spec fn deep_view(&self) -> FnSigView {
        FnSigView {
            return_type: self.return_type@,
            param_types: self.param_types.deep_view(),
        }
    }
}

/// Map from unqualified struct name to its compound-literal name and its fields.
/// The compound-literal name is the typedef name when one exists (e.g. `Point`),
/// or `struct Tag` for a plain struct tag. A field is a name and a type.
pub type StructMap = NameMap<(String, Vec<(String, String)>)>;

/// The view of a struct map.
pub type Structs = Map<Seq<char>, (Seq<char>, Seq<(Seq<char>, Seq<char>)>)>;

/// A call of a function.
#[derive(Debug)]
pub struct TestVector {
    pub function: String,
    pub args: Vec<String>,
}

#[verifier::ext_equal]
pub ghost struct TestVectorView {
    pub function: Seq<char>,
    pub args: Seq<Seq<char>>,
}

impl DeepView for TestVector {
    type V = TestVectorView;

    open spec fn deep_view(&self) -> TestVectorView {
        TestVectorView { function: self.function@, args: self.args.deep_view() }
    }
}

/// `s` without the repetitions of `part` at its start.
pub open spec fn without_leading(s: Seq<char>, part: Seq<char>) -> Seq<char>
    decreases s.len(),
{
    if part.len() > 0 && part.is_prefix_of(s) {
        without_leading(s.skip(part.len() as int), part)
    } else {
        s
    }
}

/// Strips the repetitions of `part` at the start.
pub fn trim_start_matches<'a>(s: &'a str, part: &str) -> (r: &'a str)
    requires
        part@.len() > 0,
    ensures
        r@ == without_leading(s@, part@),
{
    let mut rest: &'a str = s;
    loop
        invariant_except_break
            part@.len() > 0,
            without_leading(rest@, part@) == without_leading(s@, part@),
        ensures
            rest@ == without_leading(s@, part@),
        decreases rest@.len(),
    {
        match strip_prefix(rest, part) {
            Some(r) => {
                rest = r;
            },
            None => {
                break;
            },
        }
    }
    rest
}

/// The name by which a struct type is looked up.
pub open spec fn struct_key(ty: Seq<char>) -> Seq<char> {
    trimmed(without_leading(ty, "struct"@))
}

pub fn struct_key_of<'a>(ty: &'a str) -> (r: &'a str)
    ensures
        r@ == struct_key(ty@),
{
    proof {
        reveal_strlit("struct");
    }
    trim(trim_start_matches(ty, "struct"))
}

/// The values of a primitive type, the neutral one first; none for any other.
pub open spec fn primitive_values(ty: Seq<char>) -> Seq<Seq<char>> {
    if ty == "int"@ || ty == "signed int"@ || ty == "signed"@ {
        seq!["0"@, "1"@, "-1"@, "INT_MAX"@, "INT_MIN"@]
    } else if ty == "unsigned int"@ || ty == "unsigned"@ {
        seq!["0"@, "1"@, "UINT_MAX"@]
    } else if ty == "long"@ || ty == "signed long"@ || ty == "long int"@ {
        seq!["0"@, "1"@, "-1"@, "LONG_MAX"@, "LONG_MIN"@]
    } else if ty == "unsigned long"@ || ty == "unsigned long int"@ {
        seq!["0"@, "1"@, "ULONG_MAX"@]
    } else if ty == "long long"@ || ty == "signed long long"@ || ty == "long long int"@ {
        seq!["0"@, "1"@, "-1"@, "LLONG_MAX"@, "LLONG_MIN"@]
    } else if ty == "unsigned long long"@ || ty == "unsigned long long int"@ {
        seq!["0"@, "1"@, "ULLONG_MAX"@]
    } else if ty == "short"@ || ty == "signed short"@ || ty == "short int"@ {
        seq!["0"@, "1"@, "-1"@, "SHRT_MAX"@, "SHRT_MIN"@]
    } else if ty == "unsigned short"@ || ty == "unsigned short int"@ {
        seq!["0"@, "1"@, "USHRT_MAX"@]
    } else if ty == "char"@ {
        seq!["0"@, "'a'"@, "CHAR_MAX"@, "CHAR_MIN"@]
    } else if ty == "signed char"@ {
        seq!["0"@, "1"@, "-1"@, "SCHAR_MAX"@, "SCHAR_MIN"@]
    } else if ty == "unsigned char"@ {
        seq!["0"@, "'a'"@, "UCHAR_MAX"@]
    } else if ty == "float"@ {
        seq!["0.0f"@, "1.0f"@, "-1.0f"@]
    } else if ty == "double"@ {
        seq!["0.0"@, "1.0"@, "-1.0"@]
    } else if ty == "long double"@ {
        seq!["0.0L"@, "1.0L"@, "-1.0L"@]
    } else if ty == "size_t"@ {
        seq!["0"@, "1"@, "SIZE_MAX"@]
    } else if ty == "ssize_t"@ || ty == "ptrdiff_t"@ || ty == "intptr_t"@ {
        seq!["0"@, "1"@, "-1"@]
    } else if ty == "uintptr_t"@ {
        seq!["0"@, "1"@]
    } else if ty == "bool"@ || ty == "_Bool"@ {
        seq!["0"@, "1"@]
    } else if ty == "int8_t"@ || ty == "int_least8_t"@ || ty == "int_fast8_t"@ {
        seq!["0"@, "1"@, "-1"@, "INT8_MAX"@, "INT8_MIN"@]
    } else if ty == "int16_t"@ || ty == "int_least16_t"@ || ty == "int_fast16_t"@ {
        seq!["0"@, "1"@, "-1"@, "INT16_MAX"@, "INT16_MIN"@]
    } else if ty == "int32_t"@ || ty == "int_least32_t"@ || ty == "int_fast32_t"@ {
        seq!["0"@, "1"@, "-1"@, "INT32_MAX"@, "INT32_MIN"@]
    } else if ty == "int64_t"@ || ty == "int_least64_t"@ || ty == "int_fast64_t"@ {
        seq!["0"@, "1"@, "-1"@, "INT64_MAX"@, "INT64_MIN"@]
    } else if ty == "uint8_t"@ || ty == "uint_least8_t"@ || ty == "uint_fast8_t"@ {
        seq!["0"@, "1"@, "UINT8_MAX"@]
    } else if ty == "uint16_t"@ || ty == "uint_least16_t"@ || ty == "uint_fast16_t"@ {
        seq!["0"@, "1"@, "UINT16_MAX"@]
    } else if ty == "uint32_t"@ || ty == "uint_least32_t"@ || ty == "uint_fast32_t"@ {
        seq!["0"@, "1"@, "UINT32_MAX"@]
    } else if ty == "uint64_t"@ || ty == "uint_least64_t"@ || ty == "uint_fast64_t"@ {
        seq!["0"@, "1"@, "UINT64_MAX"@]
    } else {
        seq![]
    }
}

fn texts1(a: &str) -> (r: Vec<String>)
    ensures
        r.deep_view() == seq![a@],
{
    let mut out: Vec<String> = Vec::new();
    out.push(a.to_owned());
    proof {
        assert(out.deep_view() =~= seq![a@]);
    }
    out
}

fn texts2(a: &str, b: &str) -> (r: Vec<String>)
    ensures
        r.deep_view() == seq![a@, b@],
{
    let mut out: Vec<String> = Vec::new();
    out.push(a.to_owned());
    out.push(b.to_owned());
    proof {
        assert(out.deep_view() =~= seq![a@, b@]);
    }
    out
}

fn texts3(a: &str, b: &str, c: &str) -> (r: Vec<String>)
    ensures
        r.deep_view() == seq![a@, b@, c@],
{
    let mut out: Vec<String> = Vec::new();
    out.push(a.to_owned());
    out.push(b.to_owned());
    out.push(c.to_owned());
    proof {
        assert(out.deep_view() =~= seq![a@, b@, c@]);
    }
    out
}

fn texts4(a: &str, b: &str, c: &str, d: &str) -> (r: Vec<String>)
    ensures
        r.deep_view() == seq![a@, b@, c@, d@],
{
    let mut out: Vec<String> = Vec::new();
    out.push(a.to_owned());
    out.push(b.to_owned());
    out.push(c.to_owned());
    out.push(d.to_owned());
    proof {
        assert(out.deep_view() =~= seq![a@, b@, c@, d@]);
    }
    out
}

fn texts5(a: &str, b: &str, c: &str, d: &str, e: &str) -> (r: Vec<String>)
    ensures
        r.deep_view() == seq![a@, b@, c@, d@, e@],
{
    let mut out: Vec<String> = Vec::new();
    out.push(a.to_owned());
    out.push(b.to_owned());
    out.push(c.to_owned());
    out.push(d.to_owned());
    out.push(e.to_owned());
    proof {
        assert(out.deep_view() =~= seq![a@, b@, c@, d@, e@]);
    }
    out
}

fn primitives(ty: &str) -> (r: Vec<String>)
    ensures
        r.deep_view() == primitive_values(ty@),
{
    if same(ty, "int") || same(ty, "signed int") || same(ty, "signed") {
        texts5("0", "1", "-1", "INT_MAX", "INT_MIN")
    } else if same(ty, "unsigned int") || same(ty, "unsigned") {
        texts3("0", "1", "UINT_MAX")
    } else if same(ty, "long") || same(ty, "signed long") || same(ty, "long int") {
        texts5("0", "1", "-1", "LONG_MAX", "LONG_MIN")
    } else if same(ty, "unsigned long") || same(ty, "unsigned long int") {
        texts3("0", "1", "ULONG_MAX")
    } else if same(ty, "long long") || same(ty, "signed long long") || same(ty, "long long int") {
        texts5("0", "1", "-1", "LLONG_MAX", "LLONG_MIN")
    } else if same(ty, "unsigned long long") || same(ty, "unsigned long long int") {
        texts3("0", "1", "ULLONG_MAX")
    } else if same(ty, "short") || same(ty, "signed short") || same(ty, "short int") {
        texts5("0", "1", "-1", "SHRT_MAX", "SHRT_MIN")
    } else if same(ty, "unsigned short") || same(ty, "unsigned short int") {
        texts3("0", "1", "USHRT_MAX")
    } else if same(ty, "char") {
        texts4("0", "'a'", "CHAR_MAX", "CHAR_MIN")
    } else if same(ty, "signed char") {
        texts5("0", "1", "-1", "SCHAR_MAX", "SCHAR_MIN")
    } else if same(ty, "unsigned char") {
        texts3("0", "'a'", "UCHAR_MAX")
    } else if same(ty, "float") {
        texts3("0.0f", "1.0f", "-1.0f")
    } else if same(ty, "double") {
        texts3("0.0", "1.0", "-1.0")
    } else if same(ty, "long double") {
        texts3("0.0L", "1.0L", "-1.0L")
    } else if same(ty, "size_t") {
        texts3("0", "1", "SIZE_MAX")
    } else if same(ty, "ssize_t") || same(ty, "ptrdiff_t") || same(ty, "intptr_t") {
        texts3("0", "1", "-1")
    } else if same(ty, "uintptr_t") {
        texts2("0", "1")
    } else if same(ty, "bool") || same(ty, "_Bool") {
        texts2("0", "1")
    } else if same(ty, "int8_t") || same(ty, "int_least8_t") || same(ty, "int_fast8_t") {
        texts5("0", "1", "-1", "INT8_MAX", "INT8_MIN")
    } else if same(ty, "int16_t") || same(ty, "int_least16_t") || same(ty, "int_fast16_t") {
        texts5("0", "1", "-1", "INT16_MAX", "INT16_MIN")
    } else if same(ty, "int32_t") || same(ty, "int_least32_t") || same(ty, "int_fast32_t") {
        texts5("0", "1", "-1", "INT32_MAX", "INT32_MIN")
    } else if same(ty, "int64_t") || same(ty, "int_least64_t") || same(ty, "int_fast64_t") {
        texts5("0", "1", "-1", "INT64_MAX", "INT64_MIN")
    } else if same(ty, "uint8_t") || same(ty, "uint_least8_t") || same(ty, "uint_fast8_t") {
        texts3("0", "1", "UINT8_MAX")
    } else if same(ty, "uint16_t") || same(ty, "uint_least16_t") || same(ty, "uint_fast16_t") {
        texts3("0", "1", "UINT16_MAX")
    } else if same(ty, "uint32_t") || same(ty, "uint_least32_t") || same(ty, "uint_fast32_t") {
        texts3("0", "1", "UINT32_MAX")
    } else if same(ty, "uint64_t") || same(ty, "uint_least64_t") || same(ty, "uint_fast64_t") {
        texts3("0", "1", "UINT64_MAX")
    } else {
        let none: Vec<String> = Vec::new();
        proof {
            assert(none.deep_view() =~= seq![]);
        }
        none
    }
}

/// What a pointer type points to.
pub open spec fn pointee(ty: Seq<char>) -> Seq<char> {
    trimmed(without_leading(trimmed(ty.drop_last()), "const"@))
}

/// The expression for the address of a value.
pub open spec fn address_of(ty: Seq<char>, value: Seq<char>) -> Seq<char> {
    "&("@ + ty + "){"@ + value + "}"@
}

/// The initializer of a field.
pub open spec fn field_init(name: Seq<char>, value: Seq<char>) -> Seq<char> {
    "."@ + name + " = "@ + value
}

/// The compound literal with these initializers.
pub open spec fn literal_of(name: Seq<char>, inits: Seq<Seq<char>>) -> Seq<char> {
    if inits.len() == 0 {
        "("@ + name + "){0}"@
    } else {
        "("@ + name + "){"@ + joined(inits, ", "@) + "}"@
    }
}

/// C expressions for the boundary values of a type, the neutral one first: none
/// for an unknown type, and none below a nesting of four.
pub open spec fn boundary(ty: Seq<char>, structs: Structs, depth: nat) -> Seq<Seq<char>>
    decreases 6 - depth, 0nat, 0nat,
{
    if depth > 4 {
        seq![]
    } else {
        let ty = trimmed(ty);
        if string_name(ty) {
            seq!["NULL"@, "\"\""@, "\"hello\""@]
        } else if ty.len() > 0 && ty.last() == '*' {
            let inner = pointee(ty);
            if inner == "void"@ {
                seq!["NULL"@]
            } else if structs.dom().contains(struct_key(inner)) {
                seq!["&"@ + struct_literal(structs[struct_key(inner)], structs, depth + 1), "NULL"@]
            } else {
                let values = boundary(inner, structs, depth + 1);
                if values.len() > 0 {
                    seq![address_of(inner, values[0]), "NULL"@]
                } else {
                    seq!["NULL"@]
                }
            }
        } else if structs.dom().contains(struct_key(ty)) {
            seq![struct_literal(structs[struct_key(ty)], structs, depth + 1)]
        } else if structs.dom().contains(ty) {
            seq![struct_literal(structs[ty], structs, depth + 1)]
        } else {
            primitive_values(ty)
        }
    }
}

/// The compound literal of a struct: each field with its neutral value, without
/// the fields of unknown type.
pub open spec fn struct_literal(
    s: (Seq<char>, Seq<(Seq<char>, Seq<char>)>),
    structs: Structs,
    depth: nat,
) -> Seq<char>
    decreases 6 - depth, 2nat, 0nat,
{
    literal_of(s.0, field_inits(s.1, structs, depth))
}

/// The initializers of the fields.
pub open spec fn field_inits(
    fields: Seq<(Seq<char>, Seq<char>)>,
    structs: Structs,
    depth: nat,
) -> Seq<Seq<char>>
    decreases 6 - depth, 1nat, fields.len(),
{
    if fields.len() == 0 {
        seq![]
    } else {
        let rest = field_inits(fields.drop_last(), structs, depth);
        let values = boundary(fields.last().1, structs, depth);
        if values.len() > 0 {
            rest.push(field_init(fields.last().0, values[0]))
        } else {
            rest
        }
    }
}

fn boundary_values_inner(ty: &str, structs: &StructMap, depth: usize) -> (r: Vec<String>)
    ensures
        r.deep_view() == boundary(ty@, structs@, depth as nat),
    decreases 6 - depth, 0nat,
{
    if depth > 4 {
        let none: Vec<String> = Vec::new();
        proof {
            assert(none.deep_view() =~= seq![]);
        }
        return none;
    }
    let ty = trim(ty);
    if is_string_name(ty) {
        return texts3("NULL", "\"\"", "\"hello\"");
    }
    let cs = chars_of(ty);
    let n: usize = cs.len();
    if n > 0 && cs[n - 1] == '*' {
        let before = string_of(cs.as_slice(), 0, n - 1);
        proof {
            assert(before@ =~= ty@.drop_last());
            reveal_strlit("const");
        }
        let inner = trim(trim_start_matches(trim(before.as_str()), "const"));
        if same(inner, "void") {
            return texts1("NULL");
        }
        match structs.get(struct_key_of(inner)) {
            Some(s) => {
                let mut address = "&".to_owned();
                address.push_str(struct_compound_literal(s, structs, depth + 1).as_str());
                return texts2(address.as_str(), "NULL");
            },
            None => {},
        }
        let values = boundary_values_inner(inner, structs, depth + 1);
        if values.len() > 0 {
            let mut address = "&(".to_owned();
            address.push_str(inner);
            address.push_str("){");
            address.push_str(values[0].as_str());
            address.push_str("}");
            return texts2(address.as_str(), "NULL");
        }
        return texts1("NULL");
    }
    match structs.get(struct_key_of(ty)) {
        Some(s) => {
            return texts1(struct_compound_literal(s, structs, depth + 1).as_str());
        },
        None => {},
    }
    match structs.get(ty) {
        Some(s) => {
            return texts1(struct_compound_literal(s, structs, depth + 1).as_str());
        },
        None => {},
    }
    primitives(ty)
}

/// Builds a C99 compound literal for a struct, using the neutral (first)
/// boundary value for each field. Fields with unresolvable types are omitted (C
/// zero-initializes them).
fn struct_compound_literal(
    s: &(String, Vec<(String, String)>),
    structs: &StructMap,
    depth: usize,
) -> (r: String)
    ensures
        r@ == struct_literal(s.deep_view(), structs@, depth as nat),
    decreases 6 - depth, 1nat,
{
    let fields = &s.1;
    let ghost all = fields.deep_view();
    let mut inits: Vec<String> = Vec::new();
    let mut i: usize = 0;
    proof {
        assert(inits.deep_view() =~= field_inits(all.take(0), structs@, depth as nat));
    }
    while i < fields.len()
        invariant
            all == fields.deep_view(),
            i <= fields@.len(),
            inits.deep_view() == field_inits(all.take(i as int), structs@, depth as nat),
        decreases fields@.len() - i,
    {
        let ghost before = inits.deep_view();
        proof {
            assert(all.take(i + 1).drop_last() =~= all.take(i as int));
            assert(all.take(i + 1).last() == fields@[i as int].deep_view());
        }
        let values = boundary_values_inner(fields[i].1.as_str(), structs, depth);
        if values.len() > 0 {
            let mut init = ".".to_owned();
            init.push_str(fields[i].0.as_str());
            init.push_str(" = ");
            init.push_str(values[0].as_str());
            inits.push(init);
            proof {
                assert(inits.deep_view() =~= before.push(init@));
            }
        }
        i += 1;
    }
    proof {
        assert(all.take(i as int) =~= all);
        assert(Seq::new(inits@.len(), |k: int| inits@[k]@) =~= inits.deep_view());
    }
    let mut out = "(".to_owned();
    out.push_str(s.0.as_str());
    if inits.len() == 0 {
        out.push_str("){0}");
    } else {
        out.push_str("){");
        out.push_str(join(inits.as_slice(), ", ").as_str());
        out.push_str("}");
    }
    out
}

/// C expressions representing interesting boundary values for a C type, the
/// neutral one first. Returns an empty list for unknown types.
pub fn boundary_values(ty: &str, structs: &StructMap) -> (r: Vec<String>)
    ensures
        r.deep_view() == boundary(ty@, structs@, 0),
{
    boundary_values_inner(ty, structs, 0)
}

// ---------------------------------------------------------------------------
// Test vectors
// ---------------------------------------------------------------------------

/// The boundary values of each parameter.
pub open spec fn value_sets(params: Seq<Seq<char>>, structs: Structs) -> Seq<Seq<Seq<char>>> {
    Seq::new(params.len(), |i: int| boundary(params[i], structs, 0))
}

/// Every parameter has a value.
pub open spec fn resolvable(values: Seq<Seq<Seq<char>>>) -> bool {
    forall|i: int| 0 <= i < values.len() ==> (#[trigger] values[i]).len() > 0
}

/// Every parameter at its neutral value.
pub open spec fn neutral_args(values: Seq<Seq<Seq<char>>>) -> Seq<Seq<char>> {
    Seq::new(values.len(), |i: int| values[i][0])
}

/// The call with one parameter at another value, all others neutral.
pub open spec fn one_varied(name: Seq<char>, values: Seq<Seq<Seq<char>>>, i: int, k: int) -> TestVectorView {
    TestVectorView { function: name, args: neutral_args(values).update(i, values[i][k]) }
}

/// The calls with parameter `i` at each of its other values.
pub open spec fn variations(name: Seq<char>, values: Seq<Seq<Seq<char>>>, i: int) -> Seq<
    TestVectorView,
> {
    Seq::new((values[i].len() - 1) as nat, |k: int| one_varied(name, values, i, k + 1))
}

/// The neutral call, then the variations of the first `n` parameters.
pub open spec fn ovat(name: Seq<char>, values: Seq<Seq<Seq<char>>>, n: int) -> Seq<TestVectorView>
    decreases n,
{
    if n <= 0 {
        seq![TestVectorView { function: name, args: neutral_args(values) }]
    } else {
        ovat(name, values, n - 1) + variations(name, values, n - 1)
    }
}

/// The calls of one function: one without arguments if it takes none, none if a
/// parameter has no value, else one value varied at a time.
pub open spec fn vectors_of(name: Seq<char>, sig: FnSigView, structs: Structs) -> Seq<
    TestVectorView,
> {
    let values = value_sets(sig.param_types, structs);
    if sig.param_types.len() == 0 {
        seq![TestVectorView { function: name, args: seq![] }]
    } else if !resolvable(values) {
        seq![]
    } else {
        ovat(name, values, values.len() as int)
    }
}

/// The calls of the named functions, one function after the other.
pub open spec fn all_vectors(
    names: Seq<Seq<char>>,
    sigs: Map<Seq<char>, FnSigView>,
    structs: Structs,
) -> Seq<TestVectorView>
    decreases names.len(),
{
    if names.len() == 0 {
        seq![]
    } else {
        all_vectors(names.drop_last(), sigs, structs) + vectors_of(
            names.last(),
            sigs[names.last()],
            structs,
        )
    }
}

fn push_vector(tests: &mut Vec<TestVector>, function: &str, args: Vec<String>)
    ensures
        final(tests).deep_view() == old(tests).deep_view().push(
            TestVectorView { function: function@, args: args.deep_view() },
        ),
{
    let ghost before = tests.deep_view();
    let one = TestVector { function: function.to_owned(), args };
    tests.push(one);
    proof {
        assert(tests.deep_view() =~= before.push(one.deep_view()));
    }
}

fn collect_values(params: &Vec<String>, structs: &StructMap) -> (r: Vec<Vec<String>>)
    ensures
        r.deep_view() == value_sets(params.deep_view(), structs@),
{
    let ghost want = value_sets(params.deep_view(), structs@);
    let mut out: Vec<Vec<String>> = Vec::new();
    let mut i: usize = 0;
    while i < params.len()
        invariant
            want == value_sets(params.deep_view(), structs@),
            i <= params@.len(),
            out@.len() == i,
            forall|j: int| 0 <= j < i ==> (#[trigger] out@[j]).deep_view() == want[j],
        decreases params@.len() - i,
    {
        proof {
            assert(params.deep_view()[i as int] == params@[i as int]@);
        }
        out.push(boundary_values(params[i].as_str(), structs));
        i += 1;
    }
    proof {
        assert(out.deep_view() =~= want);
    }
    out
}

fn all_resolved(values: &Vec<Vec<String>>) -> (r: bool)
    ensures
        r == resolvable(values.deep_view()),
{
    let ghost all = values.deep_view();
    let mut i: usize = 0;
    while i < values.len()
        invariant
            all == values.deep_view(),
            i <= values@.len(),
            forall|j: int| 0 <= j < i ==> (#[trigger] all[j]).len() > 0,
        decreases values@.len() - i,
    {
        proof {
            assert(all[i as int].len() == values@[i as int]@.len());
        }
        if values[i].len() == 0 {
            return false;
        }
        i += 1;
    }
    true
}

fn neutral_of(values: &Vec<Vec<String>>) -> (r: Vec<String>)
    requires
        resolvable(values.deep_view()),
    ensures
        r.deep_view() == neutral_args(values.deep_view()),
{
    let ghost all = values.deep_view();
    let mut out: Vec<String> = Vec::new();
    let mut i: usize = 0;
    while i < values.len()
        invariant
            all == values.deep_view(),
            resolvable(all),
            i <= values@.len(),
            out@.len() == i,
            forall|j: int| 0 <= j < i ==> (#[trigger] out@[j])@ == all[j][0],
        decreases values@.len() - i,
    {
        proof {
            assert(all[i as int].len() == values@[i as int]@.len());
            assert(all[i as int][0] == values@[i as int]@[0]@);
        }
        out.push(values[i][0].as_str().to_owned());
        i += 1;
    }
    proof {
        assert(out.deep_view() =~= neutral_args(all));
    }
    out
}

fn push_variations(tests: &mut Vec<TestVector>, name: &str, values: &Vec<Vec<String>>, i: usize)
    requires
        resolvable(values.deep_view()),
        i < values@.len(),
    ensures
        final(tests).deep_view() == old(tests).deep_view() + variations(
            name@,
            values.deep_view(),
            i as int,
        ),
{
    let ghost all = values.deep_view();
    let ghost start = tests.deep_view();
    let ghost want = variations(name@, all, i as int);
    let list = &values[i];
    proof {
        assert(all[i as int] == list.deep_view());
        assert(all[i as int].len() > 0);
        assert(tests.deep_view() =~= start + want.take(0));
    }
    let mut k: usize = 1;
    while k < list.len()
        invariant
            all == values.deep_view(),
            resolvable(all),
            want == variations(name@, all, i as int),
            i < values@.len(),
            list == values@[i as int],
            all[i as int] == list.deep_view(),
            1 <= k <= list@.len(),
            tests.deep_view() == start + want.take(k - 1),
        decreases list@.len() - k,
    {
        let ghost before = tests.deep_view();
        let mut args = neutral_of(values);
        let ghost base = args.deep_view();
        proof {
            assert(base.len() == values@.len());
            assert(args@.len() == base.len());
        }
        args.set(i, list[k].as_str().to_owned());
        proof {
            assert(all[i as int][k as int] == list@[k as int]@);
            assert(args.deep_view() =~= base.update(i as int, all[i as int][k as int]));
        }
        push_vector(tests, name, args);
        proof {
            assert(want[k - 1] == one_varied(name@, all, i as int, k as int));
            assert(want.take(k as int) =~= want.take(k - 1).push(want[k - 1]));
            assert(tests.deep_view() =~= start + want.take(k as int));
        }
        k += 1;
    }
    proof {
        assert(want.take(k - 1) =~= want);
    }
}

fn push_function(tests: &mut Vec<TestVector>, name: &str, sig: &FnSig, structs: &StructMap)
    ensures
        final(tests).deep_view() == old(tests).deep_view() + vectors_of(
            name@,
            sig.deep_view(),
            structs@,
        ),
{
    let ghost start = tests.deep_view();
    if sig.param_types.len() == 0 {
        let none: Vec<String> = Vec::new();
        proof {
            assert(none.deep_view() =~= seq![]);
        }
        push_vector(tests, name, none);
        proof {
            assert(tests.deep_view() =~= start + vectors_of(name@, sig.deep_view(), structs@));
        }
        return;
    }
    let values = collect_values(&sig.param_types, structs);
    let ghost all = values.deep_view();
    if !all_resolved(&values) {
        proof {
            assert(tests.deep_view() =~= start + vectors_of(name@, sig.deep_view(), structs@));
        }
        return;
    }
    push_vector(tests, name, neutral_of(&values));
    let mut i: usize = 0;
    proof {
        assert(tests.deep_view() =~= start + ovat(name@, all, 0));
    }
    while i < values.len()
        invariant
            all == values.deep_view(),
            resolvable(all),
            i <= values@.len(),
            tests.deep_view() == start + ovat(name@, all, i as int),
        decreases values@.len() - i,
    {
        push_variations(tests, name, &values, i);
        proof {
            assert(tests.deep_view() =~= start + ovat(name@, all, i + 1));
        }
        i += 1;
    }
}

/// Generates one-value-at-a-time test vectors for all functions whose parameter
/// types are fully resolvable, in the order of the function names.
pub fn generate_test_vectors(sigs: &NameMap<FnSig>, structs: &StructMap) -> (r: Vec<TestVector>)
    ensures
        r.deep_view() == all_vectors(listing(sigs@.dom()), sigs@, structs@),
        is_listing(sigs@.dom(), listing(sigs@.dom())),
{
    let names = list_names(&sigs.keys());
    let ghost all = names.deep_view();
    let mut tests: Vec<TestVector> = Vec::new();
    let mut i: usize = 0;
    proof {
        assert(tests.deep_view() =~= all_vectors(all.take(0), sigs@, structs@));
    }
    while i < names.len()
        invariant
            all == names.deep_view(),
            is_listing(sigs@.dom(), all),
            i <= names@.len(),
            tests.deep_view() == all_vectors(all.take(i as int), sigs@, structs@),
        decreases names@.len() - i,
    {
        proof {
            assert(all.take(i + 1).drop_last() =~= all.take(i as int));
            assert(all[i as int] == names@[i as int]@);
            assert(all.contains(all[i as int]));
        }
        match sigs.get(names[i].as_str()) {
            Some(sig) => {
                push_function(&mut tests, names[i].as_str(), sig, structs);
            },
            None => {},
        }
        i += 1;
    }
    proof {
        assert(all.take(i as int) =~= all);
    }
    tests
}

/// The number of values of the first `n` parameters besides the neutral ones.
pub open spec fn other_values(values: Seq<Seq<Seq<char>>>, n: int) -> int
    decreases n,
{
    if n <= 0 {
        0
    } else {
        other_values(values, n - 1) + values[n - 1].len() - 1
    }
}

/// A function with values for all its parameters is called once with neutral
/// values and once for each other value of a parameter.
pub proof fn number_of_vectors(name: Seq<char>, values: Seq<Seq<Seq<char>>>, n: int)
    requires
        resolvable(values),
        0 <= n <= values.len(),
    ensures
        ovat(name, values, n).len() == 1 + other_values(values, n),
    decreases n,
{
    if n > 0 {
        number_of_vectors(name, values, n - 1);
        assert(values[n - 1].len() > 0);
    }
}

/// Every argument other than `i` is neutral.
pub open spec fn neutral_but(v: TestVectorView, values: Seq<Seq<Seq<char>>>, i: int) -> bool {
    forall|j: int| 0 <= j < values.len() && j != i ==> #[trigger] v.args[j] == values[j][0]
}

/// Every call has one argument per parameter, and differs from the neutral one
/// in at most one argument.
pub proof fn at_most_one_value_varies(name: Seq<char>, values: Seq<Seq<Seq<char>>>, n: int, t: int)
    requires
        resolvable(values),
        0 <= n <= values.len(),
        0 <= t < ovat(name, values, n).len(),
    ensures
        ({
            let v = ovat(name, values, n)[t];
            v.function == name && v.args.len() == values.len() && exists|i: int|
                #[trigger] neutral_but(v, values, i)
        }),
    decreases n,
{
    let v = ovat(name, values, n)[t];
    if n == 0 {
        assert(neutral_but(v, values, -1));
    } else {
        let rest = ovat(name, values, n - 1);
        if t < rest.len() {
            at_most_one_value_varies(name, values, n - 1, t);
            assert(v == rest[t]);
        } else {
            assert(v == variations(name, values, n - 1)[t - rest.len()]);
            assert(neutral_but(v, values, n - 1));
        }
    }
}

} // verus!
