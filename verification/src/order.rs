//! The order of strings by their code points, and lists kept in that order.
use crate::text::chars_of;
use crate::names::NameSet;
use vstd::prelude::*;

verus! {

/// `a` comes before `b`, or they are equal, in the lexicographic order of
/// code points.
pub open spec fn lex_le(a: Seq<char>, b: Seq<char>) -> bool
    decreases a.len(),
{
    if a.len() == 0 {
        true
    } else if b.len() == 0 {
        false
    } else if a[0] != b[0] {
        a[0] < b[0]
    } else {
        lex_le(a.skip(1), b.skip(1))
    }
}

/// `a` comes strictly before `b`.
pub open spec fn lex_lt(a: Seq<char>, b: Seq<char>) -> bool {
    lex_le(a, b) && a != b
}

/// Any two strings compare.
pub proof fn lex_total(a: Seq<char>, b: Seq<char>)
    ensures
        lex_le(a, b) || lex_le(b, a),
    decreases a.len(),
{
    if a.len() > 0 && b.len() > 0 && a[0] == b[0] {
        lex_total(a.skip(1), b.skip(1));
    }
}

/// Strings that come before one another are equal.
pub proof fn lex_antisymmetric(a: Seq<char>, b: Seq<char>)
    requires
        lex_le(a, b),
        lex_le(b, a),
    ensures
        a == b,
    decreases a.len(),
{
    if a.len() > 0 && b.len() > 0 {
        lex_antisymmetric(a.skip(1), b.skip(1));
        assert(a =~= seq![a[0]] + a.skip(1));
        assert(b =~= seq![b[0]] + b.skip(1));
    } else {
        assert(a =~= b);
    }
}

/// The order is transitive.
pub proof fn lex_transitive(a: Seq<char>, b: Seq<char>, c: Seq<char>)
    requires
        lex_le(a, b),
        lex_le(b, c),
    ensures
        lex_le(a, c),
    decreases a.len(),
{
    if a.len() > 0 && b.len() > 0 && c.len() > 0 && a[0] == b[0] && b[0] == c[0] {
        lex_transitive(a.skip(1), b.skip(1), c.skip(1));
    }
}

/// Neighbours and all later elements stand in order.
pub open spec fn lex_sorted(s: Seq<Seq<char>>) -> bool {
    forall|i: int, j: int| 0 <= i < j < s.len() ==> lex_le(#[trigger] s[i], #[trigger] s[j])
}

/// In order, and nothing occurs twice.
pub open spec fn lex_ascending(s: Seq<Seq<char>>) -> bool {
    forall|i: int, j: int| 0 <= i < j < s.len() ==> lex_lt(#[trigger] s[i], #[trigger] s[j])
}

pub fn text_le(a: &str, b: &str) -> (r: bool)
    ensures
        r == lex_le(a@, b@),
{
    let x = chars_of(a);
    let y = chars_of(b);
    let mut i: usize = 0;
    proof {
        assert(a@.skip(0) =~= a@);
        assert(b@.skip(0) =~= b@);
    }
    while i < x.len() && i < y.len()
        invariant
            x@ == a@,
            y@ == b@,
            i <= x@.len(),
            i <= y@.len(),
            lex_le(a@.skip(i as int), b@.skip(i as int)) == lex_le(a@, b@),
        decreases x@.len() - i,
    {
        if x[i] != y[i] {
            return x[i] < y[i];
        }
        proof {
            assert(a@.skip(i as int).skip(1) =~= a@.skip(i + 1));
            assert(b@.skip(i as int).skip(1) =~= b@.skip(i + 1));
        }
        i += 1;
    }
    i >= x.len()
}

/// The elements of `s`, each as often as it occurs, in order.
pub open spec fn is_sorting(s: Seq<Seq<char>>, sorted: Seq<Seq<char>>) -> bool {
    lex_sorted(sorted) && sorted.to_multiset() == s.to_multiset()
}

/// Two sortings of the same list are equal.
pub proof fn sorting_is_unique(s: Seq<Seq<char>>, a: Seq<Seq<char>>, b: Seq<Seq<char>>)
    requires
        is_sorting(s, a),
        is_sorting(s, b),
    ensures
        a == b,
    decreases a.len(),
{
    broadcast use vstd::seq_lib::group_to_multiset_ensures;

    assert(a.to_multiset().len() == a.len());
    assert(b.to_multiset().len() == b.len());
    if a.len() == 0 {
        assert(a =~= b);
    } else {
        let x = a.last();
        let y = b.last();
        assert(a.to_multiset().count(x) > 0);
        assert(b.contains(x));
        assert(b.to_multiset().count(y) > 0);
        assert(a.contains(y));
        let i = choose|i: int| 0 <= i < b.len() && b[i] == x;
        let j = choose|j: int| 0 <= j < a.len() && a[j] == y;
        if i < b.len() - 1 {
            assert(lex_le(b[i], b[b.len() - 1]));
        } else {
            lex_total(x, x);
        }
        if j < a.len() - 1 {
            assert(lex_le(a[j], a[a.len() - 1]));
        } else {
            lex_total(y, y);
        }
        lex_antisymmetric(x, y);
        assert(a =~= a.drop_last().push(x));
        assert(b =~= b.drop_last().push(x));
        assert(a.drop_last().to_multiset() =~= b.drop_last().to_multiset()) by {
            assert(a.to_multiset() =~= a.drop_last().to_multiset().insert(x));
            assert(b.to_multiset() =~= b.drop_last().to_multiset().insert(x));
            assert forall|z: Seq<char>|
                a.drop_last().to_multiset().count(z) == b.drop_last().to_multiset().count(z) by {
                assert(a.to_multiset().count(z) == b.to_multiset().count(z));
            }
        }
        sorting_is_unique(a.drop_last(), a.drop_last(), b.drop_last());
    }
}

/// `l` lists the elements of `s` in ascending order.
pub open spec fn is_listing(s: Set<Seq<char>>, l: Seq<Seq<char>>) -> bool {
    lex_ascending(l) && forall|x: Seq<char>| #[trigger] l.contains(x) == s.contains(x)
}

/// The elements of `s` in ascending order.
pub open spec fn listing(s: Set<Seq<char>>) -> Seq<Seq<char>> {
    choose|l: Seq<Seq<char>>| is_listing(s, l)
}

/// There is only one way to list a set in ascending order.
pub proof fn listing_is_unique(s: Set<Seq<char>>, a: Seq<Seq<char>>, b: Seq<Seq<char>>)
    requires
        is_listing(s, a),
        is_listing(s, b),
    ensures
        a == b,
    decreases a.len(),
{
    if a.len() == 0 {
        if b.len() > 0 {
            assert(b.contains(b[0]));
            assert(a.contains(b[0]));
        }
        assert(a =~= b);
    } else {
        assert(a.contains(a[0]));
        assert(b.contains(a[0]));
        let x = a.last();
        let y = b.last();
        assert(a.contains(x));
        assert(b.contains(y));
        assert(b.contains(x));
        assert(a.contains(y));
        let i = choose|i: int| 0 <= i < b.len() && b[i] == x;
        let j = choose|j: int| 0 <= j < a.len() && a[j] == y;
        if i < b.len() - 1 {
            assert(lex_lt(b[i], b[b.len() - 1]));
            if j < a.len() - 1 {
                assert(lex_lt(a[j], a[a.len() - 1]));
                lex_antisymmetric(x, y);
            }
        }
        assert(x == y);
        let t = s.remove(x);
        assert forall|z: Seq<char>| #[trigger] a.drop_last().contains(z) == t.contains(z) by {
            if a.drop_last().contains(z) {
                let k = choose|k: int| 0 <= k < a.len() - 1 && a[k] == z;
                assert(a.contains(z));
                assert(lex_lt(a[k], a[a.len() - 1]));
            }
            if t.contains(z) {
                assert(a.contains(z));
                let k = choose|k: int| 0 <= k < a.len() && a[k] == z;
                assert(a.drop_last()[k] == z);
            }
        }
        assert forall|z: Seq<char>| #[trigger] b.drop_last().contains(z) == t.contains(z) by {
            if b.drop_last().contains(z) {
                let k = choose|k: int| 0 <= k < b.len() - 1 && b[k] == z;
                assert(b.contains(z));
                assert(lex_lt(b[k], b[b.len() - 1]));
            }
            if t.contains(z) {
                assert(b.contains(z));
                let k = choose|k: int| 0 <= k < b.len() && b[k] == z;
                assert(b.drop_last()[k] == z);
            }
        }
        listing_is_unique(t, a.drop_last(), b.drop_last());
        assert(a =~= a.drop_last().push(x));
        assert(b =~= b.drop_last().push(x));
    }
}

/// A list that lists `s` is [`listing`] of `s`.
pub proof fn listing_is(s: Set<Seq<char>>, l: Seq<Seq<char>>)
    requires
        is_listing(s, l),
    ensures
        listing(s) == l,
{
    listing_is_unique(s, listing(s), l);
}

/// The sorting of `s`.
pub open spec fn sorting(s: Seq<Seq<char>>) -> Seq<Seq<char>> {
    choose|t: Seq<Seq<char>>| is_sorting(s, t)
}

/// A list that sorts `s` is [`sorting`] of `s`.
pub proof fn sorting_is(s: Seq<Seq<char>>, t: Seq<Seq<char>>)
    requires
        is_sorting(s, t),
    ensures
        sorting(s) == t,
{
    sorting_is_unique(s, sorting(s), t);
}

proof fn sorted_place(v: Seq<Seq<char>>, x: Seq<char>) -> (i: int)
    requires
        lex_sorted(v),
    ensures
        0 <= i <= v.len(),
        forall|j: int| 0 <= j < i ==> lex_le(#[trigger] v[j], x),
        forall|j: int| i <= j < v.len() ==> lex_lt(x, #[trigger] v[j]),
    decreases v.len(),
{
    if v.len() == 0 {
        0
    } else if lex_le(v.last(), x) {
        assert forall|j: int| 0 <= j < v.len() implies lex_le(#[trigger] v[j], x) by {
            if j < v.len() - 1 {
                assert(lex_le(v[j], v[v.len() - 1]));
                lex_transitive(v[j], v.last(), x);
            }
        }
        v.len() as int
    } else {
        let rest = v.drop_last();
        let i = sorted_place(rest, x);
        lex_total(v.last(), x);
        assert forall|j: int| 0 <= j < i implies lex_le(#[trigger] v[j], x) by {
            assert(lex_le(rest[j], x));
        }
        assert forall|j: int| i <= j < v.len() implies lex_lt(x, #[trigger] v[j]) by {
            if j < rest.len() {
                assert(lex_lt(x, rest[j]));
            }
        }
        i
    }
}

proof fn sorting_exists(s: Seq<Seq<char>>) -> (t: Seq<Seq<char>>)
    ensures
        is_sorting(s, t),
    decreases s.len(),
{
    broadcast use vstd::seq_lib::group_to_multiset_ensures;

    if s.len() == 0 {
        s
    } else {
        let x = s.last();
        let v = sorting_exists(s.drop_last());
        let i = sorted_place(v, x);
        let t = v.insert(i, x);
        insert_multiset(v, i, x);
        assert(s =~= s.drop_last().push(x));
        assert(s.to_multiset() =~= s.drop_last().to_multiset().insert(x));
        assert forall|a: int, b: int| 0 <= a < b < t.len() implies lex_le(
            #[trigger] t[a],
            #[trigger] t[b],
        ) by {
            let p = if a < i {
                a
            } else {
                a - 1
            };
            let q = if b < i {
                b
            } else {
                b - 1
            };
            if a == i {
                assert(lex_lt(x, v[q]));
            } else if b == i {
                assert(lex_le(v[p], x));
            } else {
                assert(lex_le(v[p], v[q]));
            }
        }
        t
    }
}

/// Every list has a sorting: [`sorting`] of `s` sorts `s`.
pub proof fn lists_have_a_sorting(s: Seq<Seq<char>>)
    ensures
        is_sorting(s, sorting(s)),
{
    let t = sorting_exists(s);
    sorting_is(s, t);
}

proof fn listing_exists(s: Set<Seq<char>>) -> (l: Seq<Seq<char>>)
    requires
        s.finite(),
    ensures
        is_listing(s, l),
    decreases s.len(),
{
    if s.len() == 0 {
        let l = Seq::<Seq<char>>::empty();
        assert(s =~= Set::empty());
        l
    } else {
        let x = s.choose();
        let v = listing_exists(s.remove(x));
        assert(lex_sorted(v));
        let i = sorted_place(v, x);
        let l = v.insert(i, x);
        assert(!v.contains(x));
        assert forall|a: int, b: int| 0 <= a < b < l.len() implies lex_lt(
            #[trigger] l[a],
            #[trigger] l[b],
        ) by {
            let p = if a < i {
                a
            } else {
                a - 1
            };
            let q = if b < i {
                b
            } else {
                b - 1
            };
            if a == i {
                assert(lex_lt(x, v[q]));
            } else if b == i {
                assert(lex_le(v[p], x));
                assert(v.contains(v[p]));
            } else {
                assert(lex_lt(v[p], v[q]));
            }
        }
        assert forall|z: Seq<char>| #[trigger] l.contains(z) == s.contains(z) by {
            if l.contains(z) {
                let k = choose|k: int| 0 <= k < l.len() && l[k] == z;
                if k < i {
                    assert(v[k] == z);
                    assert(v.contains(z));
                } else if k > i {
                    assert(v[k - 1] == z);
                    assert(v.contains(z));
                }
            }
            if s.contains(z) {
                if z == x {
                    assert(l[i] == z);
                } else {
                    assert(v.contains(z));
                    let k = choose|k: int| 0 <= k < v.len() && v[k] == z;
                    if k < i {
                        assert(l[k] == z);
                    } else {
                        assert(l[k + 1] == z);
                    }
                }
            }
        }
        l
    }
}

/// Every finite set has a listing: [`listing`] of `s` lists `s`.
pub proof fn finite_sets_have_a_listing(s: Set<Seq<char>>)
    requires
        s.finite(),
    ensures
        is_listing(s, listing(s)),
{
    let l = listing_exists(s);
    listing_is(s, l);
}

/// The position at which `name` belongs in the sorted list `v`: everything
/// before it comes before `name`, and `name` comes strictly before the rest.
fn insertion_point(v: &Vec<String>, name: &str) -> (r: usize)
    requires
        lex_sorted(v.deep_view()),
    ensures
        r <= v@.len(),
        forall|i: int| 0 <= i < r ==> lex_le(#[trigger] v.deep_view()[i], name@),
        forall|i: int| r <= i < v@.len() ==> lex_lt(name@, #[trigger] v.deep_view()[i]),
{
    let ghost all = v.deep_view();
    let mut n: usize = v.len();
    while n > 0
        invariant
            all == v.deep_view(),
            lex_sorted(all),
            n <= v@.len(),
            forall|i: int| n <= i < v@.len() ==> lex_lt(name@, #[trigger] all[i]),
        decreases n,
    {
        if text_le(v[n - 1].as_str(), name) {
            proof {
                assert forall|i: int| 0 <= i < n implies lex_le(#[trigger] all[i], name@) by {
                    if i < n - 1 {
                        assert(lex_le(all[i], all[n - 1]));
                        lex_transitive(all[i], all[n - 1], name@);
                    }
                }
            }
            return n;
        }
        proof {
            lex_total(all[n - 1], name@);
        }
        n -= 1;
    }
    n
}

proof fn insert_multiset(s: Seq<Seq<char>>, i: int, x: Seq<char>)
    requires
        0 <= i <= s.len(),
    ensures
        s.insert(i, x).to_multiset() == s.to_multiset().insert(x),
{
    broadcast use vstd::seq_lib::group_to_multiset_ensures;

    vstd::seq_lib::lemma_multiset_commutative(s.take(i), s.skip(i));
    assert(s =~= s.take(i) + s.skip(i));
    assert(s.insert(i, x) =~= s.take(i).push(x) + s.skip(i));
    vstd::seq_lib::lemma_multiset_commutative(s.take(i).push(x), s.skip(i));
    assert(s.insert(i, x).to_multiset() =~= s.to_multiset().insert(x));
}

/// Sorts `v` by code points.
pub fn sort_strings(v: Vec<String>) -> (r: Vec<String>)
    ensures
        is_sorting(v.deep_view(), r.deep_view()),
{
    let ghost all = v.deep_view();
    let mut out: Vec<String> = Vec::new();
    let mut i: usize = 0;
    proof {
        assert(out.deep_view() =~= all.take(0));
    }
    while i < v.len()
        invariant
            all == v.deep_view(),
            i <= v@.len(),
            is_sorting(all.take(i as int), out.deep_view()),
        decreases v@.len() - i,
    {
        let name = v[i].as_str();
        let at: usize = insertion_point(&out, name);
        let ghost before = out.deep_view();
        out.insert(at, name.to_owned());
        proof {
            assert(out.deep_view() =~= before.insert(at as int, name@));
            insert_multiset(before, at as int, name@);
            assert(all.take(i + 1) =~= all.take(i as int).push(name@));
            insert_multiset(all.take(i as int), i as int, name@);
            assert(all.take(i as int).insert(i as int, name@) =~= all.take(i + 1));
            assert(lex_sorted(out.deep_view()));
        }
        i += 1;
    }
    proof {
        assert(all.take(i as int) =~= all);
    }
    out
}

/// Puts `name` into the ascending list `v`, unless it is there.
pub fn insert_ascending(v: &mut Vec<String>, name: &str)
    requires
        lex_ascending(old(v).deep_view()),
    ensures
        lex_ascending(final(v).deep_view()),
        forall|n: Seq<char>|
            #![auto]
            final(v).deep_view().contains(n) == (old(v).deep_view().contains(n) || n == name@),
{
    let ghost before = v.deep_view();
    let at: usize = insertion_point(v, name);
    if at > 0 && crate::text::same(v[at - 1].as_str(), name) {
        proof {
            assert(before[at - 1] == name@);
        }
        return;
    }
    v.insert(at, name.to_owned());
    proof {
        let after = v.deep_view();
        assert(after =~= before.insert(at as int, name@));
        assert forall|i: int, j: int| 0 <= i < j < after.len() implies lex_lt(
            #[trigger] after[i],
            #[trigger] after[j],
        ) by {
            if i < at && j == at {
                assert(lex_le(before[i], name@));
                if before[i] == name@ && i < at - 1 {
                    assert(lex_lt(before[i], before[at - 1]));
                    assert(lex_le(before[at - 1], name@));
                    lex_antisymmetric(before[i], before[at - 1]);
                }
            } else if i == at {
                assert(lex_lt(name@, before[j - 1]));
            } else if j < at {
                assert(lex_lt(before[i], before[j]));
            } else if i < at {
                assert(lex_lt(before[i], before[j - 1]));
            } else {
                assert(lex_lt(before[i - 1], before[j - 1]));
            }
        }
        assert forall|n: Seq<char>|
            #![auto]
            after.contains(n) == (before.contains(n) || n == name@) by {
            assert(after[at as int] == name@);
            if before.contains(n) {
                let k = choose|k: int| 0 <= k < before.len() && before[k] == n;
                assert(after[if k < at { k } else { k + 1 }] == n);
            }
            if after.contains(n) && n != name@ {
                let k = choose|k: int| 0 <= k < after.len() && after[k] == n;
                assert(before[if k < at { k } else { k - 1 }] == n);
            }
        }
    }
}

/// The names of a set in ascending order.
pub fn list_names(names: &NameSet) -> (r: Vec<String>)
    ensures
        is_listing(names@, r.deep_view()),
        r.deep_view() == listing(names@),
{
    let ghost all = names.names.deep_view();
    let mut out: Vec<String> = Vec::new();
    let mut i: usize = 0;
    while i < names.names.len()
        invariant
            all == names.names.deep_view(),
            i <= names.names@.len(),
            lex_ascending(out.deep_view()),
            forall|n: Seq<char>|
                #[trigger] out.deep_view().contains(n) == all.take(i as int).contains(n),
        decreases names.names@.len() - i,
    {
        let ghost before = out.deep_view();
        insert_ascending(&mut out, names.names[i].as_str());
        proof {
            assert(all.take(i + 1) =~= all.take(i as int).push(all[i as int]));
            let now = all.take(i + 1);
            assert forall|n: Seq<char>| #[trigger] out.deep_view().contains(n) == now.contains(n) by {
                assert(before.contains(n) == all.take(i as int).contains(n));
                assert(now[i as int] == all[i as int]);
                if all.take(i as int).contains(n) {
                    let k = choose|k: int| 0 <= k < i && all.take(i as int)[k] == n;
                    assert(now[k] == n);
                }
                if now.contains(n) && n != all[i as int] {
                    let k = choose|k: int| 0 <= k < now.len() && now[k] == n;
                    assert(all.take(i as int)[k] == n);
                }
            }
        }
        i += 1;
    }
    proof {
        assert(all.take(i as int) =~= all);
        listing_is(names@, out.deep_view());
    }
    out
}

/// Texts are ordered by their first difference, the smaller character first, and a
/// text comes before those that go on behind it.
pub proof fn first_difference_orders(
    common: Seq<char>,
    x: char,
    y: char,
    a: Seq<char>,
    b: Seq<char>,
)
    requires
        x < y,
    ensures
        lex_lt(common + seq![x] + a, common + seq![y] + b),
        !lex_le(common + seq![y] + b, common + seq![x] + a),
        lex_le(common, common + a),
        a.len() > 0 ==> lex_lt(common, common + a) && !lex_le(common + a, common),
    decreases common.len(),
{
    let s = common + seq![x] + a;
    let t = common + seq![y] + b;
    let u = common + a;
    if common.len() == 0 {
        assert(s[0] == x && t[0] == y);
        assert(u =~= a);
        if a.len() > 0 {
            assert(common != u);
        }
    } else {
        let less = common.skip(1);
        first_difference_orders(less, x, y, a, b);
        assert(s[0] == common[0] && t[0] == common[0] && u[0] == common[0]);
        assert(s.skip(1) =~= less + seq![x] + a);
        assert(t.skip(1) =~= less + seq![y] + b);
        assert(u.skip(1) =~= less + a);
        if a.len() > 0 {
            assert(common.len() != u.len());
        }
    }
    assert(s[common.len() as int] == x && t[common.len() as int] == y);
}

/// A list is in order if each text comes before those behind it, and a listing holds
/// every name of its set once.
pub proof fn lists_in_order_ascend(l: Seq<Seq<char>>, s: Set<Seq<char>>)
    ensures
        lex_ascending(l) ==> l.no_duplicates() && lex_sorted(l),
        is_listing(s, l) ==> l.no_duplicates() && (forall|x: Seq<char>|
            s.contains(x) <==> #[trigger] l.contains(x)),
{
    if lex_ascending(l) {
        assert forall|i: int, j: int| 0 <= i < l.len() && 0 <= j < l.len() && i != j implies l[i]
            != l[j] by {
            if i < j {
                assert(lex_lt(l[i], l[j]));
            } else {
                assert(lex_lt(l[j], l[i]));
            }
        }
        assert forall|i: int, j: int| 0 <= i < j < l.len() implies lex_le(
            #[trigger] l[i],
            #[trigger] l[j],
        ) by {
            assert(lex_lt(l[i], l[j]));
        }
    }
}

} // verus!
