//! What holds of the generated test vectors and boundary values.
use crate::generate_difftest_suite::generators::{
    all_vectors, boundary, field_inits, neutral_args, one_varied, ovat, primitive_values,
    resolvable, struct_key, struct_literal, value_sets, variations, vectors_of, without_leading,
    FnSigView, Structs, TestVectorView,
};
use crate::generate_difftest_suite::types::string_name;

use crate::seqs::{flat_map_has, flat_map_last};
use crate::text::{joined, trimmed};
use crate::text_laws::{
    blank, tight, tight_is_trimmed, trimming_leaves_the_middle, trimming_takes_blanks_off,
};
use vstd::prelude::*;

verus! {

/// The call has one argument per parameter, each of them a boundary value of the
/// type of its parameter.
pub open spec fn fits_signature(v: TestVectorView, params: Seq<Seq<char>>, structs: Structs) -> bool {
    v.args.len() == params.len() && forall|k: int|
        0 <= k < params.len() ==> boundary(params[k], structs, 0).contains(#[trigger] v.args[k])
}

proof fn ovat_takes_values(name: Seq<char>, values: Seq<Seq<Seq<char>>>, n: int, t: int)
    requires
        resolvable(values),
        0 <= n <= values.len(),
        0 <= t < ovat(name, values, n).len(),
    ensures
        ovat(name, values, n)[t].function == name,
        ovat(name, values, n)[t].args.len() == values.len(),
        forall|k: int|
            0 <= k < values.len() ==> values[k].contains(
                #[trigger] ovat(name, values, n)[t].args[k],
            ),
    decreases n,
{
    let v = ovat(name, values, n)[t];
    if n == 0 {
        assert forall|k: int| 0 <= k < values.len() implies values[k].contains(
            #[trigger] v.args[k],
        ) by {
            assert(values[k].len() > 0);
            assert(v.args[k] == values[k][0]);
        }
    } else {
        let rest = ovat(name, values, n - 1);
        if t < rest.len() {
            ovat_takes_values(name, values, n - 1, t);
            assert(v == rest[t]);
        } else {
            let j = t - rest.len();
            assert(v == one_varied(name, values, n - 1, j + 1));
            assert forall|k: int| 0 <= k < values.len() implies values[k].contains(
                #[trigger] v.args[k],
            ) by {
                assert(values[k].len() > 0);
                if k == n - 1 {
                    assert(v.args[k] == values[k][j + 1]);
                } else {
                    assert(v.args[k] == values[k][0]);
                }
            }
        }
    }
}

/// Every call of a function has exactly as many arguments as the function has
/// parameters, each a boundary value of its parameter's type. So a function with
/// a parameter without boundary values is never called.
pub proof fn calls_fit_the_signature(name: Seq<char>, sig: FnSigView, structs: Structs)
    ensures
        forall|t: int|
            0 <= t < vectors_of(name, sig, structs).len() ==> (#[trigger] vectors_of(
                name,
                sig,
                structs,
            )[t]).function == name && fits_signature(
                vectors_of(name, sig, structs)[t],
                sig.param_types,
                structs,
            ),
        (exists|k: int|
            0 <= k < sig.param_types.len() && boundary(
                #[trigger] sig.param_types[k],
                structs,
                0,
            ).len() == 0) ==> vectors_of(name, sig, structs).len() == 0,
{
    let values = value_sets(sig.param_types, structs);
    let all = vectors_of(name, sig, structs);
    assert forall|t: int| 0 <= t < all.len() implies (#[trigger] all[t]).function == name
        && fits_signature(all[t], sig.param_types, structs) by {
        if sig.param_types.len() > 0 {
            ovat_takes_values(name, values, values.len() as int, t);
            assert forall|k: int| 0 <= k < sig.param_types.len() implies boundary(
                sig.param_types[k],
                structs,
                0,
            ).contains(#[trigger] all[t].args[k]) by {
                assert(values[k] == boundary(sig.param_types[k], structs, 0));
            }
        }
    }
    if exists|k: int|
        0 <= k < sig.param_types.len() && boundary(#[trigger] sig.param_types[k], structs, 0).len()
            == 0 {
        let k = choose|k: int|
            0 <= k < sig.param_types.len() && boundary(
                #[trigger] sig.param_types[k],
                structs,
                0,
            ).len() == 0;
        assert(values[k].len() == 0);
    }
}

proof fn ovat_has(name: Seq<char>, values: Seq<Seq<Seq<char>>>, n: int, v: TestVectorView, i: int)
    requires
        0 <= i < n <= values.len(),
        variations(name, values, i).contains(v),
    ensures
        ovat(name, values, n).contains(v),
    decreases n,
{
    let rest = ovat(name, values, n - 1);
    let last = variations(name, values, n - 1);
    let all = ovat(name, values, n);
    if i < n - 1 {
        ovat_has(name, values, n - 1, v, i);
        let k = choose|k: int| 0 <= k < rest.len() && rest[k] == v;
        assert(all[k] == v);
    } else {
        let k = choose|k: int| 0 <= k < last.len() && last[k] == v;
        assert(all[rest.len() + k] == v);
    }
}

proof fn ovat_starts_neutral(name: Seq<char>, values: Seq<Seq<Seq<char>>>, n: int)
    requires
        0 <= n <= values.len(),
    ensures
        ovat(name, values, n).len() > 0,
        ovat(name, values, n)[0] == (TestVectorView { function: name, args: neutral_args(values) }),
    decreases n,
{
    if n > 0 {
        ovat_starts_neutral(name, values, n - 1);
    }
}

/// Every boundary value of every parameter is tried: with values for all its
/// parameters, a function is called with value `k` of parameter `i` and the first
/// value of every other parameter.
pub proof fn every_value_is_tried(
    name: Seq<char>,
    sig: FnSigView,
    structs: Structs,
    i: int,
    k: int,
)
    requires
        forall|p: int|
            0 <= p < sig.param_types.len() ==> boundary(
                #[trigger] sig.param_types[p],
                structs,
                0,
            ).len() > 0,
        0 <= i < sig.param_types.len(),
        0 <= k < boundary(sig.param_types[i], structs, 0).len(),
    ensures
        vectors_of(name, sig, structs).contains(
            TestVectorView {
                function: name,
                args: Seq::new(
                    sig.param_types.len(),
                    |p: int|
                        if p == i {
                            boundary(sig.param_types[i], structs, 0)[k]
                        } else {
                            boundary(sig.param_types[p], structs, 0)[0]
                        },
                ),
            },
        ),
{
    let values = value_sets(sig.param_types, structs);
    let want = TestVectorView {
        function: name,
        args: Seq::new(
            sig.param_types.len(),
            |p: int|
                if p == i {
                    boundary(sig.param_types[i], structs, 0)[k]
                } else {
                    boundary(sig.param_types[p], structs, 0)[0]
                },
        ),
    };
    assert forall|p: int| 0 <= p < values.len() implies (#[trigger] values[p]).len() > 0 by {
        assert(values[p] == boundary(sig.param_types[p], structs, 0));
    }
    let n = values.len() as int;
    if k == 0 {
        ovat_starts_neutral(name, values, n);
        assert(want.args =~= neutral_args(values));
        assert(ovat(name, values, n)[0] == want);
    } else {
        let v = one_varied(name, values, i, k);
        assert(want.args =~= v.args);
        assert(variations(name, values, i)[k - 1] == v);
        ovat_has(name, values, n, v, i);
    }
}

/// A function without parameters is called once, without arguments.
pub proof fn functions_without_parameters_are_called_once(
    name: Seq<char>,
    sig: FnSigView,
    structs: Structs,
)
    requires
        sig.param_types.len() == 0,
    ensures
        vectors_of(name, sig, structs) == seq![
            TestVectorView { function: name, args: Seq::<Seq<char>>::empty() },
        ],
{
}

/// The calls of the functions stand one after another, those of every function
/// and of no other.
pub proof fn every_function_has_its_calls(
    names: Seq<Seq<char>>,
    sigs: Map<Seq<char>, FnSigView>,
    structs: Structs,
)
    ensures
        all_vectors(names, sigs, structs) == names.flat_map(
            |n: Seq<char>| vectors_of(n, sigs[n], structs),
        ),
        forall|i: int, v: TestVectorView|
            0 <= i < names.len() && #[trigger] vectors_of(
                names[i],
                sigs[names[i]],
                structs,
            ).contains(v) ==> all_vectors(names, sigs, structs).contains(v),
        forall|t: int|
            0 <= t < all_vectors(names, sigs, structs).len() ==> names.contains(
                (#[trigger] all_vectors(names, sigs, structs)[t]).function,
            ) && fits_signature(
                all_vectors(names, sigs, structs)[t],
                sigs[all_vectors(names, sigs, structs)[t].function].param_types,
                structs,
            ),
    decreases names.len(),
{
    let f = |n: Seq<char>| vectors_of(n, sigs[n], structs);
    let all = all_vectors(names, sigs, structs);
    flat_map_last(names, f);
    if names.len() > 0 {
        every_function_has_its_calls(names.drop_last(), sigs, structs);
    }
    flat_map_has(names, f);
    assert forall|i: int, v: TestVectorView|
        0 <= i < names.len() && #[trigger] vectors_of(
            names[i],
            sigs[names[i]],
            structs,
        ).contains(v) implies all.contains(v) by {
        assert(f(names[i]).contains(v));
    }
    assert forall|t: int| 0 <= t < all.len() implies names.contains((#[trigger] all[t]).function)
        && fits_signature(all[t], sigs[all[t].function].param_types, structs) by {
        assert(names.flat_map(f).contains(all[t]));
        let i = choose|i: int| 0 <= i < names.len() && f(#[trigger] names[i]).contains(all[t]);
        let own = vectors_of(names[i], sigs[names[i]], structs);
        let k = choose|k: int| 0 <= k < own.len() && own[k] == all[t];
        calls_fit_the_signature(names[i], sigs[names[i]], structs);
        assert(own[k].function == names[i]);
    }
}

/// White space around a type changes nothing.
pub proof fn spaces_around_a_type_do_not_matter(ty: Seq<char>, structs: Structs, depth: nat)
    ensures
        boundary(ty, structs, depth) == boundary(trimmed(ty), structs, depth),
{
    trimming_leaves_the_middle(ty);
    tight_is_trimmed(trimmed(ty));
}

/// A pointer can be null: every type that ends in `*` has the value `NULL`, and a
/// pointer to a value that is known has its address before it.
pub proof fn pointers_can_be_null(ty: Seq<char>, structs: Structs, depth: nat)
    requires
        depth <= 4,
        trimmed(ty).len() > 0,
        trimmed(ty).last() == '*',
    ensures
        boundary(ty, structs, depth).contains("NULL"@),
{
    let b = boundary(ty, structs, depth);
    let t = trimmed(ty);
    if string_name(t) {
        assert(b[0] == "NULL"@);
    } else {
        assert(b.last() == "NULL"@);
    }
}

/// Nothing has a value below a nesting of four.
pub proof fn nesting_is_limited(ty: Seq<char>, structs: Structs, depth: nat)
    requires
        depth > 4,
    ensures
        boundary(ty, structs, depth).len() == 0,
{
}

/// The initializers of a struct are one for every field whose type has a value,
/// in order: a dot, the name, and the first value.
pub proof fn fields_take_their_first_value(
    fields: Seq<(Seq<char>, Seq<char>)>,
    structs: Structs,
    depth: nat,
)
    ensures
        field_inits(fields, structs, depth) == fields.filter_map(
            |f: (Seq<char>, Seq<char>)|
                if boundary(f.1, structs, depth).len() > 0 {
                    Some("."@ + f.0 + " = "@ + boundary(f.1, structs, depth)[0])
                } else {
                    None
                },
        ),
    decreases fields.len(),
{
    if fields.len() > 0 {
        fields_take_their_first_value(fields.drop_last(), structs, depth);
        assert(field_inits(fields, structs, depth) =~= fields.filter_map(
            |f: (Seq<char>, Seq<char>)|
                if boundary(f.1, structs, depth).len() > 0 {
                    Some("."@ + f.0 + " = "@ + boundary(f.1, structs, depth)[0])
                } else {
                    None
                },
        ));
    }
}

/// The literal of a struct is its name in parentheses and its initializers in
/// braces, or a zero where there is none.
pub proof fn struct_literals_name_the_struct(
    s: (Seq<char>, Seq<(Seq<char>, Seq<char>)>),
    structs: Structs,
    depth: nat,
)
    ensures
        ({
            let inits = field_inits(s.1, structs, depth);
            struct_literal(s, structs, depth) == "("@ + s.0 + "){"@ + (if inits.len() > 0 {
                joined(inits, ", "@)
            } else {
                "0"@
            }) + "}"@
        }),
{
    let inits = field_inits(s.1, structs, depth);
    reveal_strlit("){0}");
    reveal_strlit("){");
    reveal_strlit("}");
    reveal_strlit("0");
    if inits.len() == 0 {
        assert("){0}"@ =~= "){"@ + "0"@ + "}"@);
        assert("("@ + s.0 + "){0}"@ =~= "("@ + s.0 + "){"@ + "0"@ + "}"@);
    }
}

proof fn type_names_differ()
    ensures
        "int"@.len() == 3,
        "long"@.len() == 4 && "long"@[0] == 'l',
        "char"@.len() == 4 && "char"@[0] == 'c',
        "bool"@.len() == 4 && "bool"@[0] == 'b',
        "short"@.len() == 5 && "short"@[0] == 's',
        "float"@.len() == 5 && "float"@[0] == 'f',
        "_Bool"@.len() == 5 && "_Bool"@[0] == '_',
        "signed"@.len() == 6 && "signed"@[0] == 's' && "signed"@[2] == 'g',
        "double"@.len() == 6 && "double"@[0] == 'd' && "double"@[2] == 'u',
        "size_t"@.len() == 6 && "size_t"@[0] == 's' && "size_t"@[2] == 'z',
        "int8_t"@.len() == 6 && "int8_t"@[0] == 'i' && "int8_t"@[2] == 't',
        "ssize_t"@.len() == 7 && "ssize_t"@[0] == 's' && "ssize_t"@[3] == 'z',
        "uint8_t"@.len() == 7 && "uint8_t"@[0] == 'u' && "uint8_t"@[3] == 't',
        "int16_t"@.len() == 7 && "int16_t"@[0] == 'i' && "int16_t"@[3] == '1',
        "int32_t"@.len() == 7 && "int32_t"@[0] == 'i' && "int32_t"@[3] == '3',
        "int64_t"@.len() == 7 && "int64_t"@[0] == 'i' && "int64_t"@[3] == '6',
        "unsigned"@.len() == 8 && "unsigned"@[0] == 'u' && "unsigned"@[1] == 'n'
            && "unsigned"@[4] == 'g',
        "long int"@.len() == 8 && "long int"@[0] == 'l' && "long int"@[1] == 'o'
            && "long int"@[4] == ' ',
        "intptr_t"@.len() == 8 && "intptr_t"@[0] == 'i' && "intptr_t"@[1] == 'n'
            && "intptr_t"@[4] == 't',
        "uint16_t"@.len() == 8 && "uint16_t"@[0] == 'u' && "uint16_t"@[1] == 'i'
            && "uint16_t"@[4] == '1',
        "uint32_t"@.len() == 8 && "uint32_t"@[0] == 'u' && "uint32_t"@[1] == 'i'
            && "uint32_t"@[4] == '3',
        "uint64_t"@.len() == 8 && "uint64_t"@[0] == 'u' && "uint64_t"@[1] == 'i'
            && "uint64_t"@[4] == '6',
        "long long"@.len() == 9 && "long long"@[0] == 'l',
        "short int"@.len() == 9 && "short int"@[0] == 's',
        "ptrdiff_t"@.len() == 9 && "ptrdiff_t"@[0] == 'p',
        "uintptr_t"@.len() == 9 && "uintptr_t"@[0] == 'u',
        "signed int"@.len() == 10,
        "signed long"@.len() == 11 && "signed long"@[7] == 'l',
        "signed char"@.len() == 11 && "signed char"@[7] == 'c',
        "long double"@.len() == 11 && "long double"@[7] == 'u',
        "int_fast8_t"@.len() == 11 && "int_fast8_t"@[7] == 't',
        "unsigned int"@.len() == 12 && "unsigned int"@[0] == 'u' && "unsigned int"@[1] == 'n'
            && "unsigned int"@[4] == 'g' && "unsigned int"@[8] == ' ',
        "signed short"@.len() == 12 && "signed short"@[0] == 's' && "signed short"@[1] == 'i'
            && "signed short"@[4] == 'e' && "signed short"@[8] == 'h',
        "int_least8_t"@.len() == 12 && "int_least8_t"@[0] == 'i' && "int_least8_t"@[1] == 'n'
            && "int_least8_t"@[4] == 'l' && "int_least8_t"@[8] == 't',
        "uint_fast8_t"@.len() == 12 && "uint_fast8_t"@[0] == 'u' && "uint_fast8_t"@[1] == 'i'
            && "uint_fast8_t"@[4] == '_' && "uint_fast8_t"@[8] == 't',
        "int_fast16_t"@.len() == 12 && "int_fast16_t"@[0] == 'i' && "int_fast16_t"@[1] == 'n'
            && "int_fast16_t"@[4] == 'f' && "int_fast16_t"@[8] == '1',
        "int_fast32_t"@.len() == 12 && "int_fast32_t"@[0] == 'i' && "int_fast32_t"@[1] == 'n'
            && "int_fast32_t"@[4] == 'f' && "int_fast32_t"@[8] == '3',
        "int_fast64_t"@.len() == 12 && "int_fast64_t"@[0] == 'i' && "int_fast64_t"@[1] == 'n'
            && "int_fast64_t"@[4] == 'f' && "int_fast64_t"@[8] == '6',
        "unsigned long"@.len() == 13 && "unsigned long"@[0] == 'u' && "unsigned long"@[9] == 'l',
        "long long int"@.len() == 13 && "long long int"@[0] == 'l' && "long long int"@[9] == ' ',
        "unsigned char"@.len() == 13 && "unsigned char"@[0] == 'u' && "unsigned char"@[9] == 'c',
        "uint_least8_t"@.len() == 13 && "uint_least8_t"@[0] == 'u' && "uint_least8_t"@[9] == 't',
        "int_least16_t"@.len() == 13 && "int_least16_t"@[0] == 'i' && "int_least16_t"@[9] == '1',
        "uint_fast16_t"@.len() == 13 && "uint_fast16_t"@[0] == 'u' && "uint_fast16_t"@[9] == '1',
        "int_least32_t"@.len() == 13 && "int_least32_t"@[0] == 'i' && "int_least32_t"@[9] == '3',
        "uint_fast32_t"@.len() == 13 && "uint_fast32_t"@[0] == 'u' && "uint_fast32_t"@[9] == '3',
        "int_least64_t"@.len() == 13 && "int_least64_t"@[0] == 'i' && "int_least64_t"@[9] == '6',
        "uint_fast64_t"@.len() == 13 && "uint_fast64_t"@[0] == 'u' && "uint_fast64_t"@[9] == '6',
        "unsigned short"@.len() == 14 && "unsigned short"@[1] == 'n'
            && "unsigned short"@[10] == 'h',
        "uint_least16_t"@.len() == 14 && "uint_least16_t"@[1] == 'i'
            && "uint_least16_t"@[10] == '1',
        "uint_least32_t"@.len() == 14 && "uint_least32_t"@[1] == 'i'
            && "uint_least32_t"@[10] == '3',
        "uint_least64_t"@.len() == 14 && "uint_least64_t"@[1] == 'i'
            && "uint_least64_t"@[10] == '6',
        "signed long long"@.len() == 16,
        "unsigned long int"@.len() == 17,
        "unsigned long long"@.len() == 18 && "unsigned long long"@[9] == 'l',
        "unsigned short int"@.len() == 18 && "unsigned short int"@[9] == 's',
        "unsigned long long int"@.len() == 22,
{
    reveal_strlit("int");
    reveal_strlit("signed int");
    reveal_strlit("signed");
    reveal_strlit("unsigned int");
    reveal_strlit("unsigned");
    reveal_strlit("long");
    reveal_strlit("signed long");
    reveal_strlit("long int");
    reveal_strlit("unsigned long");
    reveal_strlit("unsigned long int");
    reveal_strlit("long long");
    reveal_strlit("signed long long");
    reveal_strlit("long long int");
    reveal_strlit("unsigned long long");
    reveal_strlit("unsigned long long int");
    reveal_strlit("short");
    reveal_strlit("signed short");
    reveal_strlit("short int");
    reveal_strlit("unsigned short");
    reveal_strlit("unsigned short int");
    reveal_strlit("char");
    reveal_strlit("signed char");
    reveal_strlit("unsigned char");
    reveal_strlit("float");
    reveal_strlit("double");
    reveal_strlit("long double");
    reveal_strlit("size_t");
    reveal_strlit("ssize_t");
    reveal_strlit("ptrdiff_t");
    reveal_strlit("intptr_t");
    reveal_strlit("uintptr_t");
    reveal_strlit("bool");
    reveal_strlit("_Bool");
    reveal_strlit("int8_t");
    reveal_strlit("uint8_t");
    reveal_strlit("int_least8_t");
    reveal_strlit("uint_least8_t");
    reveal_strlit("int_fast8_t");
    reveal_strlit("uint_fast8_t");
    reveal_strlit("int16_t");
    reveal_strlit("uint16_t");
    reveal_strlit("int_least16_t");
    reveal_strlit("uint_least16_t");
    reveal_strlit("int_fast16_t");
    reveal_strlit("uint_fast16_t");
    reveal_strlit("int32_t");
    reveal_strlit("uint32_t");
    reveal_strlit("int_least32_t");
    reveal_strlit("uint_least32_t");
    reveal_strlit("int_fast32_t");
    reveal_strlit("uint_fast32_t");
    reveal_strlit("int64_t");
    reveal_strlit("uint64_t");
    reveal_strlit("int_least64_t");
    reveal_strlit("uint_least64_t");
    reveal_strlit("int_fast64_t");
    reveal_strlit("uint_fast64_t");
}

/// A signed integer is tried at zero, one, minus one and both its limits; all
/// spellings of one type are tried alike.
pub proof fn signed_integers_are_tried_at_their_limits()
    ensures
        primitive_values("int"@) == seq!["0"@, "1"@, "-1"@, "INT_MAX"@, "INT_MIN"@],
        primitive_values("signed"@) == seq!["0"@, "1"@, "-1"@, "INT_MAX"@, "INT_MIN"@],
        primitive_values("signed int"@) == seq!["0"@, "1"@, "-1"@, "INT_MAX"@, "INT_MIN"@],
        primitive_values("long"@) == seq!["0"@, "1"@, "-1"@, "LONG_MAX"@, "LONG_MIN"@],
        primitive_values("long int"@) == seq!["0"@, "1"@, "-1"@, "LONG_MAX"@, "LONG_MIN"@],
        primitive_values("signed long"@) == seq!["0"@, "1"@, "-1"@, "LONG_MAX"@, "LONG_MIN"@],
        primitive_values("long long"@) == seq!["0"@, "1"@, "-1"@, "LLONG_MAX"@, "LLONG_MIN"@],
        primitive_values("long long int"@) == seq!["0"@, "1"@, "-1"@, "LLONG_MAX"@, "LLONG_MIN"@],
        primitive_values("signed long long"@) == seq!["0"@, "1"@, "-1"@, "LLONG_MAX"@, "LLONG_MIN"@],
        primitive_values("short"@) == seq!["0"@, "1"@, "-1"@, "SHRT_MAX"@, "SHRT_MIN"@],
        primitive_values("short int"@) == seq!["0"@, "1"@, "-1"@, "SHRT_MAX"@, "SHRT_MIN"@],
        primitive_values("signed short"@) == seq!["0"@, "1"@, "-1"@, "SHRT_MAX"@, "SHRT_MIN"@],
        primitive_values("signed char"@) == seq!["0"@, "1"@, "-1"@, "SCHAR_MAX"@, "SCHAR_MIN"@],
        primitive_values("int8_t"@) == seq!["0"@, "1"@, "-1"@, "INT8_MAX"@, "INT8_MIN"@],
        primitive_values("int_least8_t"@) == seq!["0"@, "1"@, "-1"@, "INT8_MAX"@, "INT8_MIN"@],
        primitive_values("int_fast8_t"@) == seq!["0"@, "1"@, "-1"@, "INT8_MAX"@, "INT8_MIN"@],
        primitive_values("int16_t"@) == seq!["0"@, "1"@, "-1"@, "INT16_MAX"@, "INT16_MIN"@],
        primitive_values("int_least16_t"@) == seq!["0"@, "1"@, "-1"@, "INT16_MAX"@, "INT16_MIN"@],
        primitive_values("int_fast16_t"@) == seq!["0"@, "1"@, "-1"@, "INT16_MAX"@, "INT16_MIN"@],
        primitive_values("int32_t"@) == seq!["0"@, "1"@, "-1"@, "INT32_MAX"@, "INT32_MIN"@],
        primitive_values("int_least32_t"@) == seq!["0"@, "1"@, "-1"@, "INT32_MAX"@, "INT32_MIN"@],
        primitive_values("int_fast32_t"@) == seq!["0"@, "1"@, "-1"@, "INT32_MAX"@, "INT32_MIN"@],
        primitive_values("int64_t"@) == seq!["0"@, "1"@, "-1"@, "INT64_MAX"@, "INT64_MIN"@],
        primitive_values("int_least64_t"@) == seq!["0"@, "1"@, "-1"@, "INT64_MAX"@, "INT64_MIN"@],
        primitive_values("int_fast64_t"@) == seq!["0"@, "1"@, "-1"@, "INT64_MAX"@, "INT64_MIN"@],
{
    type_names_differ();
}

/// An unsigned integer is tried at zero, one and its limit; all spellings of one
/// type are tried alike.
pub proof fn unsigned_integers_are_tried_at_their_limit()
    ensures
        primitive_values("unsigned"@) == seq!["0"@, "1"@, "UINT_MAX"@],
        primitive_values("unsigned int"@) == seq!["0"@, "1"@, "UINT_MAX"@],
        primitive_values("unsigned long"@) == seq!["0"@, "1"@, "ULONG_MAX"@],
        primitive_values("unsigned long int"@) == seq!["0"@, "1"@, "ULONG_MAX"@],
        primitive_values("unsigned long long"@) == seq!["0"@, "1"@, "ULLONG_MAX"@],
        primitive_values("unsigned long long int"@) == seq!["0"@, "1"@, "ULLONG_MAX"@],
        primitive_values("unsigned short"@) == seq!["0"@, "1"@, "USHRT_MAX"@],
        primitive_values("unsigned short int"@) == seq!["0"@, "1"@, "USHRT_MAX"@],
        primitive_values("size_t"@) == seq!["0"@, "1"@, "SIZE_MAX"@],
        primitive_values("uint8_t"@) == seq!["0"@, "1"@, "UINT8_MAX"@],
        primitive_values("uint_least8_t"@) == seq!["0"@, "1"@, "UINT8_MAX"@],
        primitive_values("uint_fast8_t"@) == seq!["0"@, "1"@, "UINT8_MAX"@],
        primitive_values("uint16_t"@) == seq!["0"@, "1"@, "UINT16_MAX"@],
        primitive_values("uint_least16_t"@) == seq!["0"@, "1"@, "UINT16_MAX"@],
        primitive_values("uint_fast16_t"@) == seq!["0"@, "1"@, "UINT16_MAX"@],
        primitive_values("uint32_t"@) == seq!["0"@, "1"@, "UINT32_MAX"@],
        primitive_values("uint_least32_t"@) == seq!["0"@, "1"@, "UINT32_MAX"@],
        primitive_values("uint_fast32_t"@) == seq!["0"@, "1"@, "UINT32_MAX"@],
        primitive_values("uint64_t"@) == seq!["0"@, "1"@, "UINT64_MAX"@],
        primitive_values("uint_least64_t"@) == seq!["0"@, "1"@, "UINT64_MAX"@],
        primitive_values("uint_fast64_t"@) == seq!["0"@, "1"@, "UINT64_MAX"@],
{
    type_names_differ();
}

proof fn type_names_start()
    ensures
        "int"@[0] == 'i' && "int"@[1] == 'n',
        "signed int"@[0] == 's' && "signed int"@[1] == 'i',
        "signed"@[0] == 's' && "signed"@[1] == 'i',
        "unsigned int"@[0] == 'u' && "unsigned int"@[1] == 'n',
        "unsigned"@[0] == 'u' && "unsigned"@[1] == 'n',
        "long"@[0] == 'l' && "long"@[1] == 'o',
        "signed long"@[0] == 's' && "signed long"@[1] == 'i',
        "long int"@[0] == 'l' && "long int"@[1] == 'o',
        "unsigned long"@[0] == 'u' && "unsigned long"@[1] == 'n',
        "unsigned long int"@[0] == 'u' && "unsigned long int"@[1] == 'n',
        "long long"@[0] == 'l' && "long long"@[1] == 'o',
        "signed long long"@[0] == 's' && "signed long long"@[1] == 'i',
        "long long int"@[0] == 'l' && "long long int"@[1] == 'o',
        "unsigned long long"@[0] == 'u' && "unsigned long long"@[1] == 'n',
        "unsigned long long int"@[0] == 'u' && "unsigned long long int"@[1] == 'n',
        "short"@[0] == 's' && "short"@[1] == 'h',
        "signed short"@[0] == 's' && "signed short"@[1] == 'i',
        "short int"@[0] == 's' && "short int"@[1] == 'h',
        "unsigned short"@[0] == 'u' && "unsigned short"@[1] == 'n',
        "unsigned short int"@[0] == 'u' && "unsigned short int"@[1] == 'n',
        "char"@[0] == 'c' && "char"@[1] == 'h',
        "signed char"@[0] == 's' && "signed char"@[1] == 'i',
        "unsigned char"@[0] == 'u' && "unsigned char"@[1] == 'n',
        "float"@[0] == 'f' && "float"@[1] == 'l',
        "double"@[0] == 'd' && "double"@[1] == 'o',
        "long double"@[0] == 'l' && "long double"@[1] == 'o',
        "size_t"@[0] == 's' && "size_t"@[1] == 'i',
        "ssize_t"@[0] == 's' && "ssize_t"@[1] == 's',
        "ptrdiff_t"@[0] == 'p' && "ptrdiff_t"@[1] == 't',
        "intptr_t"@[0] == 'i' && "intptr_t"@[1] == 'n',
        "uintptr_t"@[0] == 'u' && "uintptr_t"@[1] == 'i',
        "bool"@[0] == 'b' && "bool"@[1] == 'o',
        "_Bool"@[0] == '_' && "_Bool"@[1] == 'B',
        "int8_t"@[0] == 'i' && "int8_t"@[1] == 'n',
        "uint8_t"@[0] == 'u' && "uint8_t"@[1] == 'i',
        "int_least8_t"@[0] == 'i' && "int_least8_t"@[1] == 'n',
        "uint_least8_t"@[0] == 'u' && "uint_least8_t"@[1] == 'i',
        "int_fast8_t"@[0] == 'i' && "int_fast8_t"@[1] == 'n',
        "uint_fast8_t"@[0] == 'u' && "uint_fast8_t"@[1] == 'i',
        "int16_t"@[0] == 'i' && "int16_t"@[1] == 'n',
        "uint16_t"@[0] == 'u' && "uint16_t"@[1] == 'i',
        "int_least16_t"@[0] == 'i' && "int_least16_t"@[1] == 'n',
        "uint_least16_t"@[0] == 'u' && "uint_least16_t"@[1] == 'i',
        "int_fast16_t"@[0] == 'i' && "int_fast16_t"@[1] == 'n',
        "uint_fast16_t"@[0] == 'u' && "uint_fast16_t"@[1] == 'i',
        "int32_t"@[0] == 'i' && "int32_t"@[1] == 'n',
        "uint32_t"@[0] == 'u' && "uint32_t"@[1] == 'i',
        "int_least32_t"@[0] == 'i' && "int_least32_t"@[1] == 'n',
        "uint_least32_t"@[0] == 'u' && "uint_least32_t"@[1] == 'i',
        "int_fast32_t"@[0] == 'i' && "int_fast32_t"@[1] == 'n',
        "uint_fast32_t"@[0] == 'u' && "uint_fast32_t"@[1] == 'i',
        "int64_t"@[0] == 'i' && "int64_t"@[1] == 'n',
        "uint64_t"@[0] == 'u' && "uint64_t"@[1] == 'i',
        "int_least64_t"@[0] == 'i' && "int_least64_t"@[1] == 'n',
        "uint_least64_t"@[0] == 'u' && "uint_least64_t"@[1] == 'i',
        "int_fast64_t"@[0] == 'i' && "int_fast64_t"@[1] == 'n',
        "uint_fast64_t"@[0] == 'u' && "uint_fast64_t"@[1] == 'i',
{
    reveal_strlit("int");
    reveal_strlit("signed int");
    reveal_strlit("signed");
    reveal_strlit("unsigned int");
    reveal_strlit("unsigned");
    reveal_strlit("long");
    reveal_strlit("signed long");
    reveal_strlit("long int");
    reveal_strlit("unsigned long");
    reveal_strlit("unsigned long int");
    reveal_strlit("long long");
    reveal_strlit("signed long long");
    reveal_strlit("long long int");
    reveal_strlit("unsigned long long");
    reveal_strlit("unsigned long long int");
    reveal_strlit("short");
    reveal_strlit("signed short");
    reveal_strlit("short int");
    reveal_strlit("unsigned short");
    reveal_strlit("unsigned short int");
    reveal_strlit("char");
    reveal_strlit("signed char");
    reveal_strlit("unsigned char");
    reveal_strlit("float");
    reveal_strlit("double");
    reveal_strlit("long double");
    reveal_strlit("size_t");
    reveal_strlit("ssize_t");
    reveal_strlit("ptrdiff_t");
    reveal_strlit("intptr_t");
    reveal_strlit("uintptr_t");
    reveal_strlit("bool");
    reveal_strlit("_Bool");
    reveal_strlit("int8_t");
    reveal_strlit("uint8_t");
    reveal_strlit("int_least8_t");
    reveal_strlit("uint_least8_t");
    reveal_strlit("int_fast8_t");
    reveal_strlit("uint_fast8_t");
    reveal_strlit("int16_t");
    reveal_strlit("uint16_t");
    reveal_strlit("int_least16_t");
    reveal_strlit("uint_least16_t");
    reveal_strlit("int_fast16_t");
    reveal_strlit("uint_fast16_t");
    reveal_strlit("int32_t");
    reveal_strlit("uint32_t");
    reveal_strlit("int_least32_t");
    reveal_strlit("uint_least32_t");
    reveal_strlit("int_fast32_t");
    reveal_strlit("uint_fast32_t");
    reveal_strlit("int64_t");
    reveal_strlit("uint64_t");
    reveal_strlit("int_least64_t");
    reveal_strlit("uint_least64_t");
    reveal_strlit("int_fast64_t");
    reveal_strlit("uint_fast64_t");
}

/// A number with a fraction is tried at zero, one and minus one, a truth value at
/// both its values. A type that is none of the known ones has no values.
pub proof fn other_numbers_are_tried_around_zero(ty: Seq<char>)
    ensures
        primitive_values("float"@) == seq!["0.0f"@, "1.0f"@, "-1.0f"@],
        primitive_values("double"@) == seq!["0.0"@, "1.0"@, "-1.0"@],
        primitive_values("long double"@) == seq!["0.0L"@, "1.0L"@, "-1.0L"@],
        primitive_values("bool"@) == seq!["0"@, "1"@],
        primitive_values("_Bool"@) == seq!["0"@, "1"@],
        primitive_values("char"@) == seq!["0"@, "'a'"@, "CHAR_MAX"@, "CHAR_MIN"@],
        primitive_values("unsigned char"@) == seq!["0"@, "'a'"@, "UCHAR_MAX"@],
        ty.len() > 6 && ty.take(7) == "struct "@ ==> primitive_values(ty).len() == 0,
{
    type_names_differ();
    reveal_strlit("struct ");
    if ty.len() > 6 && ty.take(7) == "struct "@ {
        assert(ty[0] == ty.take(7)[0] && ty[1] == ty.take(7)[1]);
        type_names_start();
    }
}

/// A word is taken off in front of a text as often as it stands there; a text that
/// does not start with it stays.
pub proof fn leading_words_are_taken_off(word: Seq<char>, rest: Seq<char>)
    requires
        word.len() > 0,
    ensures
        without_leading(word + rest, word) == without_leading(rest, word),
        !word.is_prefix_of(rest) ==> without_leading(rest, word) == rest,
{
    assert((word + rest).subrange(0, word.len() as int) =~= word);
    assert((word + rest).skip(word.len() as int) =~= rest);
}

/// A struct is known by its name, with `struct` in front or not.
pub proof fn structs_are_known_by_their_name(name: Seq<char>)
    requires
        tight(name),
        name.len() > 0,
        !"struct"@.is_prefix_of(name),
    ensures
        struct_key("struct "@ + name) == name,
        struct_key(name) == name,
{
    reveal_strlit("struct ");
    reveal_strlit("struct");
    reveal_strlit(" ");
    let blank_name = " "@ + name;
    assert("struct "@ + name =~= "struct"@ + blank_name);
    leading_words_are_taken_off("struct"@, blank_name);
    assert(!"struct"@.is_prefix_of(blank_name)) by {
        if "struct"@.is_prefix_of(blank_name) {
            assert(blank_name.subrange(0, 6)[0] == blank_name[0]);
        }
    }
    let none = Seq::<char>::empty();
    assert(" "@ + name + none =~= blank_name);
    assert(blank(" "@)) by {
        assert(" "@[0] == ' ');
    }
    trimming_takes_blanks_off(" "@, name, none);
    tight_is_trimmed(name);
}

/// A pointer to a type with values is tried with the address of its first value and
/// with none; one to `void` or to a type without values only with none.
pub proof fn pointers_point_to_a_first_value(
    inner: Seq<char>,
    structs: Structs,
    depth: nat,
)
    requires
        depth <= 4,
        tight(inner),
        inner.len() > 0,
        !"const"@.is_prefix_of(inner),
        inner != "char"@,
        !"struct"@.is_prefix_of(inner),
        !structs.dom().contains(inner),
    ensures
        inner == "void"@ ==> boundary(inner + "*"@, structs, depth) == seq!["NULL"@],
        inner != "void"@ && boundary(inner, structs, depth + 1).len() > 0 ==> boundary(
            inner + "*"@,
            structs,
            depth,
        ) == seq!["&("@ + inner + "){"@ + boundary(inner, structs, depth + 1)[0] + "}"@, "NULL"@],
        inner != "void"@ && boundary(inner, structs, depth + 1).len() == 0 ==> boundary(
            inner + "*"@,
            structs,
            depth,
        ) == seq!["NULL"@],
{
    reveal_strlit("*");
    reveal_strlit("char *");
    reveal_strlit("char*");
    reveal_strlit("const char *");
    reveal_strlit("const char*");
    reveal_strlit("char");
    reveal_strlit("const");
    let ty = inner + "*"@;
    assert(ty.last() == '*' && ty[0] == inner[0]);
    tight_is_trimmed(ty);
    assert(ty.drop_last() =~= inner);
    tight_is_trimmed(inner);
    leading_words_are_taken_off("const"@, inner);
    structs_are_known_by_their_name(inner);
    assert(!string_name(ty)) by {
        if ty == "char*"@ {
            assert(inner =~= "char"@);
        }
        if ty == "char *"@ {
            assert(inner.last() == ty[4]);
            assert("char *"@[4] == ' ');
        }
        if ty == "const char *"@ || ty == "const char*"@ {
            assert(inner.subrange(0, 5) =~= "const"@) by {
                assert forall|i: int| 0 <= i < 5 implies inner[i] == "const"@[i] by {
                    assert(inner[i] == ty[i]);
                    assert("const char *"@[i] == "const"@[i]);
                    assert("const char*"@[i] == "const"@[i]);
                }
            }
        }
    }
}

/// A struct is tried with one value, made of its fields, and a pointer to it with the
/// address of that value and with none.
pub proof fn structs_are_tried_with_one_value(name: Seq<char>, structs: Structs, depth: nat)
    requires
        depth <= 4,
        tight(name),
        name.len() > 0,
        name.last() != '*',
        !"struct"@.is_prefix_of(name),
        !"const"@.is_prefix_of(name),
        name != "void"@,
        name != "char"@,
        structs.dom().contains(name),
    ensures
        boundary(name, structs, depth) == seq![struct_literal(structs[name], structs, depth + 1)],
        boundary(name + "*"@, structs, depth) == seq![
            "&"@ + struct_literal(structs[name], structs, depth + 1),
            "NULL"@,
        ],
{
    reveal_strlit("*");
    reveal_strlit("char *");
    reveal_strlit("char*");
    reveal_strlit("const char *");
    reveal_strlit("const char*");
    reveal_strlit("char");
    reveal_strlit("const");
    tight_is_trimmed(name);
    structs_are_known_by_their_name(name);
    assert(!string_name(name)) by {
        assert("char *"@.last() == '*' && "char*"@.last() == '*' && "const char *"@.last() == '*'
            && "const char*"@.last() == '*');
    }
    let ty = name + "*"@;
    assert(ty.last() == '*' && ty[0] == name[0]);
    tight_is_trimmed(ty);
    assert(ty.drop_last() =~= name);
    leading_words_are_taken_off("const"@, name);
    assert(!string_name(ty)) by {
        if ty == "char*"@ {
            assert(name =~= "char"@);
        }
        if ty == "char *"@ {
            assert(name.last() == ty[4]);
            assert("char *"@[4] == ' ');
        }
        if ty == "const char *"@ || ty == "const char*"@ {
            assert(name.subrange(0, 5) =~= "const"@) by {
                assert forall|i: int| 0 <= i < 5 implies name[i] == "const"@[i] by {
                    assert(name[i] == ty[i]);
                    assert("const char *"@[i] == "const"@[i]);
                    assert("const char*"@[i] == "const"@[i]);
                }
            }
        }
    }
}

/// Strings are tried with none, the empty one and a word, however they are spelled.
pub proof fn strings_are_tried_with_and_without_text(structs: Structs, depth: nat)
    requires
        depth <= 4,
    ensures
        boundary("char *"@, structs, depth) == seq!["NULL"@, "\"\""@, "\"hello\""@],
        boundary("char*"@, structs, depth) == seq!["NULL"@, "\"\""@, "\"hello\""@],
        boundary("const char *"@, structs, depth) == seq!["NULL"@, "\"\""@, "\"hello\""@],
        boundary("const char*"@, structs, depth) == seq!["NULL"@, "\"\""@, "\"hello\""@],
{
    reveal_strlit("char *");
    reveal_strlit("char*");
    reveal_strlit("const char *");
    reveal_strlit("const char*");
    assert("char *"@[0] == 'c' && "char *"@.last() == '*');
    assert("char*"@[0] == 'c' && "char*"@.last() == '*');
    assert("const char *"@[0] == 'c' && "const char *"@.last() == '*');
    assert("const char*"@[0] == 'c' && "const char*"@.last() == '*');
    tight_is_trimmed("char *"@);
    tight_is_trimmed("char*"@);
    tight_is_trimmed("const char *"@);
    tight_is_trimmed("const char*"@);
}

} // verus!
