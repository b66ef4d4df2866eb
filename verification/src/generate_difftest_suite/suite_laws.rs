//! What holds of the generated suite.
use crate::generate_difftest_suite::generators::{struct_key, FnSigView, TestVectorView};
use crate::generate_difftest_suite::suite::{
    arg_decls, arg_list, filled, parameter_list, signatures, struct_table, suite_code, test_calls,
    test_code, test_id, test_subs, tests_code, three_digits, ApiFunction, ApiStruct, Sub, Templates,
};
use crate::text::{all_digits, decimal_of, digits_value, has_part, joined, occurs_at, trimmed};
use crate::text_laws::{
    decimals_denote_their_number, first_occurrence_is_replaced, joined_has_its_parts, joining_few,
    joining_lists, nothing_to_replace, parts_are_found,
};
use vstd::prelude::*;

verus! {

// ---------------------------------------------------------------------------
// Templates
// ---------------------------------------------------------------------------

/// Filling in one list of values after another is filling in both.
pub proof fn values_are_filled_in_one_by_one(template: Seq<char>, a: Seq<Sub>, b: Seq<Sub>)
    ensures
        filled(template, a + b) == filled(filled(template, a), b),
        filled(template, seq![]) == template,
    decreases b.len(),
{
    if b.len() == 0 {
        assert(a + b =~= a);
    } else {
        values_are_filled_in_one_by_one(template, a, b.drop_last());
        assert((a + b).drop_last() =~= a + b.drop_last());
        assert((a + b).last() == b.last());
    }
}

/// The place of a name in a template, the name in braces, is taken by its value;
/// the text around it stays. A template without the place stays as it is.
pub proof fn names_in_braces_are_replaced(
    before: Seq<char>,
    name: Seq<char>,
    after: Seq<char>,
    value: Seq<char>,
)
    requires
        forall|i: int|
            0 <= i < before.len() ==> !#[trigger] occurs_at(
                before + ("{"@ + name + "}"@) + after,
                "{"@ + name + "}"@,
                i,
            ),
    ensures
        filled(before + ("{"@ + name + "}"@) + after, seq![(name, value)]) == before + value
            + filled(after, seq![(name, value)]),
        !has_part(after, "{"@ + name + "}"@) ==> filled(after, seq![(name, value)]) == after,
{
    reveal_strlit("{");
    let mark = "{"@ + name + "}"@;
    let subs = seq![(name, value)];
    assert(subs.drop_last() =~= Seq::<Sub>::empty());
    assert(subs.last() == (name, value));
    assert(filled(after, Seq::<Sub>::empty()) == after);
    assert(filled(before + mark + after, Seq::<Sub>::empty()) == before + mark + after);
    first_occurrence_is_replaced(before, mark, after, value);
    if !has_part(after, mark) {
        nothing_to_replace(after, mark, value);
    }
}

// ---------------------------------------------------------------------------
// Tests
// ---------------------------------------------------------------------------

proof fn zero_in_front(d: Seq<char>)
    ensures
        digits_value("0"@ + d) == digits_value(d),
        digits_value("00"@ + d) == digits_value(d),
        all_digits(d) ==> all_digits("0"@ + d) && all_digits("00"@ + d),
    decreases d.len(),
{
    reveal_strlit("0");
    reveal_strlit("00");
    let a = "0"@ + d;
    let b = "00"@ + d;
    if d.len() == 0 {
        assert(a.drop_last() =~= seq![]);
        assert(b.drop_last() =~= "0"@);
        assert("0"@.drop_last() =~= seq![]);
        assert(digits_value(Seq::<char>::empty()) == 0);
        assert(digits_value("0"@) == 0);
        assert(a =~= "0"@);
    } else {
        zero_in_front(d.drop_last());
        assert(a.drop_last() =~= "0"@ + d.drop_last());
        assert(b.drop_last() =~= "00"@ + d.drop_last());
        assert(a.last() == d.last() && b.last() == d.last());
    }
    if all_digits(d) {
        assert forall|i: int| 0 <= i < a.len() implies crate::text::digit_char(
            #[trigger] a[i],
        ) by {
            if i > 0 {
                assert(a[i] == d[i - 1]);
            }
        }
        assert forall|i: int| 0 <= i < b.len() implies crate::text::digit_char(
            #[trigger] b[i],
        ) by {
            if i > 1 {
                assert(b[i] == d[i - 2]);
            }
        }
    }
}

/// Tests are numbered from one, with at least three digits: the number behind the
/// `T` is the place of the test, so that no two tests share an identifier.
pub proof fn tests_are_numbered(i: nat, j: nat)
    ensures
        test_id(i)[0] == 'T',
        test_id(i).len() >= 4,
        all_digits(test_id(i).skip(1)),
        digits_value(test_id(i).skip(1)) == i + 1,
        test_id(i) == test_id(j) ==> i == j,
{
    number_behind(i);
    number_behind(j);
}

proof fn number_behind(i: nat)
    ensures
        test_id(i)[0] == 'T',
        test_id(i).len() >= 4,
        all_digits(test_id(i).skip(1)),
        digits_value(test_id(i).skip(1)) == i + 1,
{
    reveal_strlit("T");
    reveal_strlit("0");
    reveal_strlit("00");
    let d = decimal_of(i + 1);
    decimals_denote_their_number(i + 1);
    zero_in_front(d);
    assert(test_id(i).skip(1) =~= three_digits(i + 1));
    assert(d.len() > 0);
}

proof fn code_of_tests(tests: Seq<TestVectorView>, sigs: Map<Seq<char>, FnSigView>, tm: Templates)
    ensures
        tests_code(tests, sigs, tm) == Seq::new(
            tests.len(),
            |i: int| test_code(i as nat, tests[i], sigs, tm),
        ).flatten(),
    decreases tests.len(),
{
    let parts = Seq::new(tests.len(), |i: int| test_code(i as nat, tests[i], sigs, tm));
    if tests.len() > 0 {
        let rest = tests.drop_last();
        let n = (tests.len() - 1) as nat;
        code_of_tests(rest, sigs, tm);
        assert(parts.drop_last() =~= Seq::new(
            rest.len(),
            |i: int| test_code(i as nat, rest[i], sigs, tm),
        ));
        parts.lemma_flatten_and_flatten_alt_are_equivalent();
        parts.drop_last().lemma_flatten_and_flatten_alt_are_equivalent();
        assert(parts.last() == test_code(n, tests.last(), sigs, tm));
    } else {
        assert(tests_code(tests, sigs, tm) =~= parts.flatten());
    }
}

/// The suite holds the code of every test, in order, numbered by its place, behind
/// the header.
pub proof fn suites_hold_every_test(
    tests: Seq<TestVectorView>,
    sigs: Map<Seq<char>, FnSigView>,
    tm: Templates,
)
    ensures
        tests_code(tests, sigs, tm) == Seq::new(
            tests.len(),
            |i: int| test_code(i as nat, tests[i], sigs, tm),
        ).flatten(),
        (tm.header@ + tests_code(tests, sigs, tm)).is_prefix_of(suite_code(tests, sigs, tm)),
        tm.main@ == "{TEST_CALLS}"@ ==> suite_code(tests, sigs, tm) == tm.header@ + tests_code(
            tests,
            sigs,
            tm,
        ) + test_calls(tests.len()),
{
    code_of_tests(tests, sigs, tm);
    let head = tm.header@ + tests_code(tests, sigs, tm);
    assert(head =~= suite_code(tests, sigs, tm).subrange(0, head.len() as int));
    if tm.main@ == "{TEST_CALLS}"@ {
        reveal_strlit("{TEST_CALLS}");
        reveal_strlit("TEST_CALLS");
        reveal_strlit("{");
        reveal_strlit("}");
        let none = Seq::<char>::empty();
        let mark = "{"@ + "TEST_CALLS"@ + "}"@;
        assert(mark =~= "{TEST_CALLS}"@);
        assert(none + mark + none =~= tm.main@);
        names_in_braces_are_replaced(none, "TEST_CALLS"@, none, test_calls(tests.len()));
        assert(!has_part(none, mark)) by {
            if has_part(none, mark) {
                crate::text_laws::found_parts_stand_there(none, mark);
                let (a, b) = choose|a: Seq<char>, b: Seq<char>| #[trigger] (a + mark + b) == none;
                assert((a + mark + b).len() > 0);
            }
        }
        assert(none + test_calls(tests.len()) + none =~= test_calls(tests.len()));
    }
}

/// The main program calls every test once, by its identifier, in order.
pub proof fn every_test_is_called(n: nat, i: nat)
    requires
        i < n,
    ensures
        has_part(test_calls(n), "    diff_"@ + test_id(i) + "(&passed, &failed);\n"@),
        test_calls(n) == Seq::new(
            n,
            |k: int| "    diff_"@ + test_id(k as nat) + "(&passed, &failed);\n"@,
        ).flatten(),
    decreases n,
{
    calls_stand(n, i);
    calls_flat(n);
}

proof fn calls_flat(n: nat)
    ensures
        test_calls(n) == Seq::new(
            n,
            |k: int| "    diff_"@ + test_id(k as nat) + "(&passed, &failed);\n"@,
        ).flatten(),
    decreases n,
{
    let parts = Seq::new(
        n,
        |k: int| "    diff_"@ + test_id(k as nat) + "(&passed, &failed);\n"@,
    );
    if n > 0 {
        let m = (n - 1) as nat;
        calls_flat(m);
        assert(parts.drop_last() =~= Seq::new(
            m,
            |k: int| "    diff_"@ + test_id(k as nat) + "(&passed, &failed);\n"@,
        ));
        parts.lemma_flatten_and_flatten_alt_are_equivalent();
        parts.drop_last().lemma_flatten_and_flatten_alt_are_equivalent();
        assert(test_calls(n) =~= test_calls(m) + parts.last());
    } else {
        assert(test_calls(n) =~= parts.flatten());
    }
}

proof fn calls_stand(n: nat, i: nat)
    requires
        i < n,
    ensures
        ({
            let call = "    diff_"@ + test_id(i) + "(&passed, &failed);\n"@;
            has_part(test_calls(n), call) && exists|a: Seq<char>, b: Seq<char>| #[trigger]
                (a + call + b) == test_calls(n)
        }),
    decreases n,
{
    let call = "    diff_"@ + test_id(i) + "(&passed, &failed);\n"@;
    let none = Seq::<char>::empty();
    let m = (n - 1) as nat;
    if i == m {
        assert(test_calls(m) + call + none =~= test_calls(n));
        parts_are_found(test_calls(m), call, none);
    } else {
        calls_stand(m, i);
        let (a, b) = choose|a: Seq<char>, b: Seq<char>| #[trigger] (a + call + b) == test_calls(m);
        let c = b + "    diff_"@ + test_id(m) + "(&passed, &failed);\n"@;
        assert(a + call + c =~= test_calls(n));
        parts_are_found(a, call, c);
    }
}

/// A test passes every argument by its own variable: each parameter is declared
/// with its type and the value of its argument, and handed over in order.
pub proof fn every_argument_is_declared(
    params: Seq<Seq<char>>,
    args: Seq<Seq<char>>,
    n: nat,
    j: nat,
)
    requires
        j < n <= params.len(),
        n <= args.len(),
    ensures
        ({
            let decl = "    "@ + trimmed(params[j as int]) + " arg"@ + decimal_of(j) + " = "@
                + args[j as int] + ";\n"@;
            has_part(arg_decls(params, args, n), decl) && exists|a: Seq<char>, b: Seq<char>|
                #[trigger] (a + decl + b) == arg_decls(params, args, n)
        }),
        has_part(arg_list(n), "arg"@ + decimal_of(j)),
        arg_list(n) == joined(Seq::new(n, |k: int| "arg"@ + decimal_of(k as nat)), ", "@),
    decreases n,
{
    reveal_strlit(" arg");
    reveal_strlit(" ");
    reveal_strlit("arg");
    let decl = "    "@ + trimmed(params[j as int]) + " arg"@ + decimal_of(j) + " = "@
        + args[j as int] + ";\n"@;
    let none = Seq::<char>::empty();
    let m = (n - 1) as nat;
    assert(" "@ + "arg"@ =~= " arg"@);
    let names = Seq::new(n, |k: int| "arg"@ + decimal_of(k as nat));
    assert(Seq::new(n, |k: int| crate::generate_difftest_suite::suite::arg_name(k as nat))
        =~= names);
    joined_has_its_parts(names, ", "@, j as int);
    if j == m {
        assert(arg_decls(params, args, m) + decl + none =~= arg_decls(params, args, n));
        parts_are_found(arg_decls(params, args, m), decl, none);
    } else {
        every_argument_is_declared(params, args, m, j);
        let (a, b) = choose|a: Seq<char>, b: Seq<char>| #[trigger]
            (a + decl + b) == arg_decls(params, args, m);
        let c = b + "    "@ + trimmed(params[m as int]) + " "@
            + crate::generate_difftest_suite::suite::arg_name(m) + " = "@
            + crate::generate_difftest_suite::suite::argument(args, m as int) + ";\n"@;
        assert(a + decl + c =~= arg_decls(params, args, n));
        parts_are_found(a, decl, c);
    }
}

/// How a result is compared follows from the return type: nothing for `void`, the
/// value for a number, the text for a string. A function whose result cannot be
/// compared, or that has no signature, gets a warning in the place of a call.
pub proof fn results_are_compared_by_type(
    i: nat,
    t: TestVectorView,
    sigs: Map<Seq<char>, FnSigView>,
    tm: Templates,
)
    ensures
        ({
            let code = test_code(i, t, sigs, tm);
            let sig = sigs[t.function];
            let subs = test_subs(i, t, sig);
            let ret = sig.return_type;
            if sigs.dom().contains(t.function) {
                &&& ret == "void"@ ==> code == filled(tm.prologue@, subs) + filled(
                    tm.body_void@,
                    subs,
                )
                &&& (ret == "int"@ || ret == "double"@ || ret == "size_t"@ || ret == "bool"@)
                    ==> code == filled(tm.prologue@, subs) + filled(tm.body_scalar@, subs)
                &&& (ret == "char *"@ || ret == "char*"@ || ret == "const char *"@ || ret
                    == "const char*"@) ==> code == filled(tm.prologue@, subs) + filled(
                    tm.body_string@,
                    subs,
                )
                &&& (trimmed(ret).len() > 6 && trimmed(ret).take(7) == "struct "@) ==> code
                    == filled(tm.body_warn@, subs)
            } else {
                code == filled(
                    tm.body_warn@,
                    seq![("TEST_ID"@, test_id(i)), ("FN_NAME"@, t.function)],
                )
            }
        }),
{
    let ret = sigs[t.function].return_type;
    plain_types_are_tight();
    crate::text_laws::trimming_leaves_the_middle(ret);
    crate::text_laws::tight_is_trimmed(trimmed(ret));
    type_names_told_apart(trimmed(ret));
}

proof fn plain_types_are_tight()
    ensures
        trimmed("void"@) == "void"@,
        trimmed("int"@) == "int"@,
        trimmed("double"@) == "double"@,
        trimmed("size_t"@) == "size_t"@,
        trimmed("bool"@) == "bool"@,
        trimmed("char *"@) == "char *"@,
        trimmed("char*"@) == "char*"@,
        trimmed("const char *"@) == "const char *"@,
        trimmed("const char*"@) == "const char*"@,
{
    reveal_strlit("void");
    reveal_strlit("int");
    reveal_strlit("double");
    reveal_strlit("size_t");
    reveal_strlit("bool");
    reveal_strlit("char *");
    reveal_strlit("char*");
    reveal_strlit("const char *");
    reveal_strlit("const char*");
    crate::text_laws::tight_is_trimmed("void"@);
    crate::text_laws::tight_is_trimmed("int"@);
    crate::text_laws::tight_is_trimmed("double"@);
    crate::text_laws::tight_is_trimmed("size_t"@);
    crate::text_laws::tight_is_trimmed("bool"@);
    crate::text_laws::tight_is_trimmed("char *"@);
    crate::text_laws::tight_is_trimmed("char*"@);
    crate::text_laws::tight_is_trimmed("const char *"@);
    crate::text_laws::tight_is_trimmed("const char*"@);
}

proof fn reveal_types()
    ensures
        "void"@.len() == 4 && "void"@[0] == 'v',
        forall|t: Seq<char>|
            #[trigger] crate::generate_difftest_suite::types::scalar_name(t) ==> t.len() > 0
                && t.last() != '*' && t != "void"@ && !(t.len() > 6 && t.take(7) == "struct "@),
        forall|t: Seq<char>|
            #[trigger] crate::generate_difftest_suite::types::string_name(t) ==> t.len() > 0
                && t.last() == '*' && t != "void"@ && !(t.len() > 6 && t.take(7) == "struct "@),
{
    reveal_strlit("void");
    reveal_strlit("struct ");
    reveal_strlit("int");
    reveal_strlit("unsigned int");
    reveal_strlit("long");
    reveal_strlit("unsigned long");
    reveal_strlit("long long");
    reveal_strlit("unsigned long long");
    reveal_strlit("short");
    reveal_strlit("unsigned short");
    reveal_strlit("char");
    reveal_strlit("unsigned char");
    reveal_strlit("signed char");
    reveal_strlit("float");
    reveal_strlit("double");
    reveal_strlit("long double");
    reveal_strlit("size_t");
    reveal_strlit("ssize_t");
    reveal_strlit("int8_t");
    reveal_strlit("int16_t");
    reveal_strlit("int32_t");
    reveal_strlit("int64_t");
    reveal_strlit("uint8_t");
    reveal_strlit("uint16_t");
    reveal_strlit("uint32_t");
    reveal_strlit("uint64_t");
    reveal_strlit("ptrdiff_t");
    reveal_strlit("intptr_t");
    reveal_strlit("uintptr_t");
    reveal_strlit("bool");
    reveal_strlit("_Bool");
    reveal_strlit("char *");
    reveal_strlit("char*");
    reveal_strlit("const char *");
    reveal_strlit("const char*");
    assert forall|t: Seq<char>|
        #[trigger] crate::generate_difftest_suite::types::scalar_name(t) implies t.len() > 0
        && t.last() != '*' && t != "void"@ && !(t.len() > 6 && t.take(7) == "struct "@) by {
        if t.len() > 6 && t.take(7) == "struct "@ {
            assert(t.take(7)[0] == t[0] && t.take(7)[1] == t[1]);
        }
    }
    assert forall|t: Seq<char>|
        #[trigger] crate::generate_difftest_suite::types::string_name(t) implies t.len() > 0
        && t.last() == '*' && t != "void"@ && !(t.len() > 6 && t.take(7) == "struct "@) by {
        if t.len() > 6 && t.take(7) == "struct "@ {
            assert(t.take(7)[0] == t[0] && t.take(7)[1] == t[1]);
        }
    }
}

proof fn type_names_told_apart(t: Seq<char>)
    ensures
        t == "void"@ ==> !crate::generate_difftest_suite::types::scalar_name(t),
        (t == "char *"@ || t == "char*"@ || t == "const char *"@ || t == "const char*"@)
            ==> !crate::generate_difftest_suite::types::scalar_name(t) && t != "void"@,
        (t == "int"@ || t == "double"@ || t == "size_t"@ || t == "bool"@) ==> t != "void"@,
        (t.len() > 6 && t.take(7) == "struct "@)
            ==> !crate::generate_difftest_suite::types::scalar_name(t)
            && !crate::generate_difftest_suite::types::string_name(t) && t != "void"@,
{
    reveal_types();
    reveal_strlit("void");
    reveal_strlit("char *");
    reveal_strlit("char*");
    reveal_strlit("const char *");
    reveal_strlit("const char*");
    reveal_strlit("int");
    reveal_strlit("double");
    reveal_strlit("size_t");
    reveal_strlit("bool");
}

// ---------------------------------------------------------------------------
// The interface
// ---------------------------------------------------------------------------

/// Every function of the interface is known by its name with its types, where
/// names are used once; nothing else is known.
pub proof fn every_function_has_its_signature(functions: Seq<ApiFunction>)
    requires
        forall|i: int, j: int|
            0 <= i < j < functions.len() ==> (#[trigger] functions[i]).name@ != (
            #[trigger] functions[j]).name@,
    ensures
        forall|i: int|
            0 <= i < functions.len() ==> signatures(functions).dom().contains(
                (#[trigger] functions[i]).name@,
            ) && signatures(functions)[functions[i].name@].return_type
                == functions[i].return_type@ && signatures(
                functions,
            )[functions[i].name@].param_types == functions[i].param_types.deep_view(),
        forall|n: Seq<char>| #[trigger]
            signatures(functions).dom().contains(n) ==> exists|i: int|
                0 <= i < functions.len() && (#[trigger] functions[i]).name@ == n,
    decreases functions.len(),
{
    if functions.len() > 0 {
        let rest = functions.drop_last();
        let n = functions.len() - 1;
        assert forall|i: int, j: int| 0 <= i < j < rest.len() implies (#[trigger] rest[i]).name@
            != (#[trigger] rest[j]).name@ by {
            assert(functions[i].name@ != functions[j].name@);
        }
        every_function_has_its_signature(rest);
        assert forall|i: int| 0 <= i < functions.len() implies signatures(
            functions,
        ).dom().contains((#[trigger] functions[i]).name@) && signatures(
            functions,
        )[functions[i].name@].return_type == functions[i].return_type@ && signatures(
            functions,
        )[functions[i].name@].param_types == functions[i].param_types.deep_view() by {
            if i < n {
                assert(rest[i] == functions[i]);
                assert(functions[i].name@ != functions[n].name@);
            }
        }
        assert forall|name: Seq<char>| #[trigger]
            signatures(functions).dom().contains(name) implies exists|i: int|
            0 <= i < functions.len() && (#[trigger] functions[i]).name@ == name by {
            if name == functions.last().name@ {
                assert(functions[n].name@ == name);
            } else {
                assert(signatures(rest).dom().contains(name));
                let i = choose|i: int| 0 <= i < rest.len() && (#[trigger] rest[i]).name@ == name;
                assert(functions[i].name@ == name);
            }
        }
    }
}

/// Every struct of the interface is known by its key with its name and fields,
/// where keys are used once; nothing else is known.
pub proof fn every_struct_has_its_fields(structs: Seq<ApiStruct>)
    requires
        forall|i: int, j: int|
            0 <= i < j < structs.len() ==> struct_key((#[trigger] structs[i]).name@) != struct_key(
                (#[trigger] structs[j]).name@,
            ),
    ensures
        forall|i: int|
            0 <= i < structs.len() ==> struct_table(structs).dom().contains(
                struct_key((#[trigger] structs[i]).name@),
            ) && struct_table(structs)[struct_key(structs[i].name@)] == (
                structs[i].name@,
                structs[i].fields.deep_view(),
            ),
        forall|k: Seq<char>| #[trigger]
            struct_table(structs).dom().contains(k) ==> exists|i: int|
                0 <= i < structs.len() && struct_key((#[trigger] structs[i]).name@) == k,
    decreases structs.len(),
{
    if structs.len() > 0 {
        let rest = structs.drop_last();
        let n = structs.len() - 1;
        assert forall|i: int, j: int| 0 <= i < j < rest.len() implies struct_key(
            (#[trigger] rest[i]).name@,
        ) != struct_key((#[trigger] rest[j]).name@) by {
            assert(struct_key(structs[i].name@) != struct_key(structs[j].name@));
        }
        every_struct_has_its_fields(rest);
        assert forall|i: int| 0 <= i < structs.len() implies struct_table(
            structs,
        ).dom().contains(struct_key((#[trigger] structs[i]).name@)) && struct_table(
            structs,
        )[struct_key(structs[i].name@)] == (structs[i].name@, structs[i].fields.deep_view()) by {
            if i < n {
                assert(rest[i] == structs[i]);
                assert(struct_key(structs[i].name@) != struct_key(structs[n].name@));
            }
        }
        assert forall|k: Seq<char>| #[trigger]
            struct_table(structs).dom().contains(k) implies exists|i: int|
            0 <= i < structs.len() && struct_key((#[trigger] structs[i]).name@) == k by {
            if k == struct_key(structs.last().name@) {
                assert(struct_key(structs[n].name@) == k);
            } else {
                assert(struct_table(rest).dom().contains(k));
                let i = choose|i: int|
                    0 <= i < rest.len() && struct_key((#[trigger] rest[i]).name@) == k;
                assert(struct_key(structs[i].name@) == k);
            }
        }
    }
}

/// The parameters of a function stand in order between commas; `void` stands for none.
pub proof fn parameters_stand_between_commas(
    one: Seq<char>,
    a: Seq<Seq<char>>,
    b: Seq<Seq<char>>,
)
    requires
        a.len() > 0,
        b.len() > 0,
    ensures
        parameter_list(seq![]) == "void"@,
        parameter_list(seq![one]) == one,
        parameter_list(a + b) == parameter_list(a) + ", "@ + parameter_list(b),
{
    joining_few(one, ", "@);
    joining_lists(a, b, ", "@);
}

/// The placeholders of a test are told apart by their names, and each stands for its
/// part of the test.
pub proof fn placeholders_stand_for_their_part(i: nat, t: TestVectorView, sig: FnSigView, sub: Sub)
    requires
        test_subs(i, t, sig).contains(sub),
    ensures
        sub.0 == "TEST_ID"@ ==> sub.1 == test_id(i),
        sub.0 == "FN_NAME"@ ==> sub.1 == t.function,
        sub.0 == "RET"@ ==> sub.1 == trimmed(sig.return_type),
        sub.0 == "PARAM_TYPES"@ ==> sub.1 == parameter_list(sig.param_types),
        sub.0 == "ARG_DECLS"@ ==> sub.1 == arg_decls(
            sig.param_types,
            t.args,
            sig.param_types.len(),
        ),
        sub.0 == "ARGS"@ ==> sub.1 == arg_list(sig.param_types.len()),
        sub.0 == "TEST_ID"@ || sub.0 == "FN_NAME"@ || sub.0 == "RET"@ || sub.0 == "PARAM_TYPES"@
            || sub.0 == "ARG_DECLS"@ || sub.0 == "ARGS"@,
        test_subs(i, t, sig).len() == 6,
        test_subs(i, t, sig).map_values(|s: Sub| s.0).no_duplicates(),
{
    reveal_strlit("TEST_ID");
    reveal_strlit("FN_NAME");
    reveal_strlit("RET");
    reveal_strlit("PARAM_TYPES");
    reveal_strlit("ARG_DECLS");
    reveal_strlit("ARGS");
    assert("TEST_ID"@[0] == 'T' && "FN_NAME"@[0] == 'F');
    assert("TEST_ID"@.len() == 7 && "FN_NAME"@.len() == 7 && "RET"@.len() == 3);
    assert("PARAM_TYPES"@.len() == 11 && "ARG_DECLS"@.len() == 9 && "ARGS"@.len() == 4);
    let subs = test_subs(i, t, sig);
    let k = choose|k: int| 0 <= k < subs.len() && subs[k] == sub;
    assert(k == 0 || k == 1 || k == 2 || k == 3 || k == 4 || k == 5);
    assert(subs[0].0 == "TEST_ID"@ && subs[1].0 == "FN_NAME"@ && subs[2].0 == "RET"@);
    assert(subs[3].0 == "PARAM_TYPES"@ && subs[4].0 == "ARG_DECLS"@ && subs[5].0 == "ARGS"@);
    assert(subs[k] == sub);
}

} // verus!
