//! Facts about sequences that are filtered, mapped and concatenated.
use vstd::prelude::*;

verus! {

/// Filtering keeps exactly the elements that meet the condition.
pub proof fn filter_has<A>(s: Seq<A>, p: spec_fn(A) -> bool)
    ensures
        forall|x: A| #[trigger] s.filter(p).contains(x) <==> s.contains(x) && p(x),
        forall|i: int| 0 <= i < s.len() && p(#[trigger] s[i]) ==> s.filter(p).contains(s[i]),
        forall|i: int| 0 <= i < s.filter(p).len() ==> p(#[trigger] s.filter(p)[i]),
        s.filter(p).len() <= s.len(),
    decreases s.len(),
{
    reveal(Seq::filter);
    let out = s.filter(p);
    if s.len() > 0 {
        let rest = s.drop_last();
        filter_has(rest, p);
        let kept = rest.filter(p);
        assert forall|x: A| #[trigger] out.contains(x) <==> s.contains(x) && p(x) by {
            if out.contains(x) {
                let k = choose|k: int| 0 <= k < out.len() && out[k] == x;
                if k < kept.len() {
                    assert(kept[k] == x);
                    assert(kept.contains(x));
                    let m = choose|m: int| 0 <= m < rest.len() && rest[m] == x;
                    assert(s[m] == x);
                } else {
                    assert(s[s.len() - 1] == x);
                }
            }
            if s.contains(x) && p(x) {
                let m = choose|m: int| 0 <= m < s.len() && s[m] == x;
                if m < rest.len() {
                    assert(rest[m] == x);
                    assert(kept.contains(x));
                    let k = choose|k: int| 0 <= k < kept.len() && kept[k] == x;
                    assert(out[k] == x);
                } else {
                    assert(out[out.len() - 1] == x);
                }
            }
        }
        assert forall|i: int| 0 <= i < s.len() && p(#[trigger] s[i]) implies out.contains(
            s[i],
        ) by {
            assert(s.contains(s[i]));
        }
        assert forall|i: int| 0 <= i < out.len() implies p(#[trigger] out[i]) by {
            assert(out.contains(out[i]));
        }
    }
}

/// A list of lists that is put together one list at a time.
pub proof fn flat_map_last<A, B>(s: Seq<A>, f: spec_fn(A) -> Seq<B>)
    ensures
        s.len() == 0 ==> s.flat_map(f) == Seq::<B>::empty(),
        s.len() > 0 ==> s.flat_map(f) == s.drop_last().flat_map(f) + f(s.last()),
{
    if s.len() > 0 {
        s.drop_last().lemma_flat_map_push(f, s.last());
        assert(s.drop_last().push(s.last()) =~= s);
    } else {
        assert(s.map_values(f) =~= Seq::<Seq<B>>::empty());
    }
}

/// What is concatenated has exactly the elements of its parts.
pub proof fn flat_map_has<A, B>(s: Seq<A>, f: spec_fn(A) -> Seq<B>)
    ensures
        forall|y: B|
            #[trigger] s.flat_map(f).contains(y) <==> exists|i: int|
                0 <= i < s.len() && f(#[trigger] s[i]).contains(y),
    decreases s.len(),
{
    let out = s.flat_map(f);
    flat_map_last(s, f);
    if s.len() > 0 {
        let rest = s.drop_last();
        flat_map_has(rest, f);
        let before = rest.flat_map(f);
        let last = f(s.last());
        assert forall|y: B| #[trigger] out.contains(y) <==> exists|i: int|
            0 <= i < s.len() && f(#[trigger] s[i]).contains(y) by {
            if out.contains(y) {
                let k = choose|k: int| 0 <= k < out.len() && out[k] == y;
                if k < before.len() {
                    assert(before[k] == y);
                    assert(before.contains(y));
                    let i = choose|i: int| 0 <= i < rest.len() && f(#[trigger] rest[i]).contains(y);
                    assert(f(s[i]).contains(y));
                } else {
                    assert(last[k - before.len()] == y);
                    assert(f(s[s.len() - 1]).contains(y));
                }
            }
            if exists|i: int| 0 <= i < s.len() && f(#[trigger] s[i]).contains(y) {
                let i = choose|i: int| 0 <= i < s.len() && f(#[trigger] s[i]).contains(y);
                if i < rest.len() {
                    assert(f(rest[i]).contains(y));
                    assert(before.contains(y));
                    let k = choose|k: int| 0 <= k < before.len() && before[k] == y;
                    assert(out[k] == y);
                } else {
                    let k = choose|k: int| 0 <= k < last.len() && last[k] == y;
                    assert(out[before.len() + k] == y);
                }
            }
        }
    }
}

/// A mapped list that is put together one element at a time.
pub proof fn map_last<A, B>(s: Seq<A>, f: spec_fn(A) -> B)
    ensures
        s.len() > 0 ==> s.map_values(f) == s.drop_last().map_values(f).push(f(s.last())),
        s.len() == 0 ==> s.map_values(f) == Seq::<B>::empty(),
{
    if s.len() > 0 {
        assert(s.map_values(f) =~= s.drop_last().map_values(f).push(f(s.last())));
    } else {
        assert(s.map_values(f) =~= Seq::<B>::empty());
    }
}

/// Choosing what can be mapped keeps exactly the mapped elements.
pub proof fn filter_map_has<A, B>(s: Seq<A>, f: spec_fn(A) -> Option<B>)
    ensures
        forall|y: B|
            #[trigger] s.filter_map(f).contains(y) <==> exists|i: int|
                0 <= i < s.len() && f(#[trigger] s[i]) == Some(y),
    decreases s.len(),
{
    let out = s.filter_map(f);
    if s.len() > 0 {
        let rest = s.drop_last();
        let before = rest.filter_map(f);
        filter_map_has(rest, f);
        assert forall|y: B| #[trigger] out.contains(y) <==> exists|i: int|
            0 <= i < s.len() && f(#[trigger] s[i]) == Some(y) by {
            if out.contains(y) {
                let k = choose|k: int| 0 <= k < out.len() && out[k] == y;
                if k < before.len() {
                    assert(before[k] == y);
                    assert(before.contains(y));
                    let i = choose|i: int| 0 <= i < rest.len() && f(#[trigger] rest[i]) == Some(y);
                    assert(f(s[i]) == Some(y));
                } else {
                    assert(f(s[s.len() - 1]) == Some(y));
                }
            }
            if exists|i: int| 0 <= i < s.len() && f(#[trigger] s[i]) == Some(y) {
                let i = choose|i: int| 0 <= i < s.len() && f(#[trigger] s[i]) == Some(y);
                if i < rest.len() {
                    assert(f(rest[i]) == Some(y));
                    assert(before.contains(y));
                    let k = choose|k: int| 0 <= k < before.len() && before[k] == y;
                    assert(out[k] == y);
                } else {
                    assert(out[before.len() as int] == y);
                }
            }
        }
    }
}

} // verus!
