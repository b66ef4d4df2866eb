//! Sets of names and maps keyed by names.
use crate::text::same;
use vstd::prelude::*;

verus! {

/// A set of names.
#[derive(Debug, Default)]
pub struct NameSet {
    pub names: Vec<String>,
}

impl View for NameSet {
    type V = Set<Seq<char>>;

    open spec fn view(&self) -> Set<Seq<char>> {
        self.names.deep_view().to_set()
    }
}

impl NameSet {
    /// The empty set.
    pub fn new() -> (r: NameSet)
        ensures
            r@ == Set::<Seq<char>>::empty(),
    {
        let r = NameSet { names: Vec::new() };
        proof {
            assert(r@ =~= Set::<Seq<char>>::empty());
        }
        r
    }

    pub fn contains(&self, name: &str) -> (r: bool)
        ensures
            r == self@.contains(name@),
    {
        let mut i: usize = 0;
        let ghost all = self.names.deep_view();
        while i < self.names.len()
            invariant
                i <= self.names@.len(),
                all == self.names.deep_view(),
                forall|j: int| 0 <= j < i ==> all[j] != name@,
            decreases self.names@.len() - i,
        {
            if same(self.names[i].as_str(), name) {
                proof {
                    assert(all[i as int] == name@);
                }
                return true;
            }
            i += 1;
        }
        false
    }

    /// Adds `name`; the result says whether it was new.
    pub fn insert(&mut self, name: &str) -> (r: bool)
        ensures
            final(self)@ == old(self)@.insert(name@),
            r == !old(self)@.contains(name@),
    {
        let ghost before = self.names.deep_view();
        if self.contains(name) {
            proof {
                assert(self@.insert(name@) =~= self@);
            }
            return false;
        }
        self.names.push(name.to_owned());
        proof {
            let after = self.names.deep_view();
            assert(after =~= before.push(name@));
            assert forall|n: Seq<char>| after.contains(n) == (before.contains(n) || n == name@) by {
                if before.contains(n) {
                    let k = choose|k: int| 0 <= k < before.len() && before[k] == n;
                    assert(after[k] == n);
                }
                assert(after[before.len() as int] == name@);
                if after.contains(n) && n != name@ {
                    let k = choose|k: int| 0 <= k < after.len() && after[k] == n;
                    assert(before[k] == n);
                }
            }
            assert(self@ =~= old(self)@.insert(name@));
        }
        true
    }

    /// An independent copy of the set.
    pub fn copied(&self) -> (r: NameSet)
        ensures
            r@ == self@,
    {
        NameSet { names: copy_strings(&self.names) }
    }
}

/// The value that a list of entries gives to `key`: that of the last entry
/// with this key.
pub open spec fn lookup<V: DeepView>(entries: Seq<(String, V)>, key: Seq<char>) -> Option<V::V>
    decreases entries.len(),
{
    if entries.len() == 0 {
        None
    } else if entries.last().0@ == key {
        Some(entries.last().1.deep_view())
    } else {
        lookup(entries.drop_last(), key)
    }
}

/// A map from names to values.
#[derive(Debug)]
pub struct NameMap<V> {
    pub entries: Vec<(String, V)>,
}

impl<V: DeepView> View for NameMap<V> {
    type V = Map<Seq<char>, V::V>;

    open spec fn view(&self) -> Map<Seq<char>, V::V> {
        Map::new(
            |k: Seq<char>| lookup(self.entries@, k) is Some,
            |k: Seq<char>| lookup(self.entries@, k)->0,
        )
    }
}

proof fn lookup_remove<V: DeepView>(entries: Seq<(String, V)>, i: int, key: Seq<char>)
    requires
        0 <= i < entries.len(),
        entries[i].0@ != key,
    ensures
        lookup(entries.remove(i), key) == lookup(entries, key),
    decreases entries.len(),
{
    if i == entries.len() - 1 {
        assert(entries.remove(i) =~= entries.drop_last());
    } else {
        assert(entries.remove(i).last() == entries.last());
        assert(entries.remove(i).drop_last() =~= entries.drop_last().remove(i));
        lookup_remove(entries.drop_last(), i, key);
    }
}

proof fn keys_among<V: DeepView>(entries: Seq<(String, V)>)
    ensures
        Set::new(|k: Seq<char>| lookup(entries, k) is Some).finite(),
        Set::new(|k: Seq<char>| lookup(entries, k) is Some).len() <= entries.len(),
    decreases entries.len(),
{
    let keys = Set::new(|k: Seq<char>| lookup(entries, k) is Some);
    if entries.len() == 0 {
        assert(keys =~= Set::empty());
    } else {
        keys_among(entries.drop_last());
        let rest = Set::new(|k: Seq<char>| lookup(entries.drop_last(), k) is Some);
        assert(keys =~= rest.insert(entries.last().0@));
    }
}

/// A map has no more keys than entries.
pub proof fn keys_are_entries<V: DeepView>(m: NameMap<V>)
    ensures
        m@.dom().finite(),
        m@.dom().len() <= m.entries@.len(),
{
    keys_among(m.entries@);
    assert(m@.dom() =~= Set::new(|k: Seq<char>| lookup(m.entries@, k) is Some));
}

impl<V: DeepView> NameMap<V> {
    /// The empty map.
    pub fn new() -> (r: NameMap<V>)
        ensures
            r@ == Map::<Seq<char>, V::V>::empty(),
    {
        let r = NameMap { entries: Vec::new() };
        proof {
            assert(r@ =~= Map::<Seq<char>, V::V>::empty());
        }
        r
    }

    pub fn get(&self, key: &str) -> (r: Option<&V>)
        ensures
            match r {
                Some(v) => self@.dom().contains(key@) && v.deep_view() == self@[key@],
                None => !self@.dom().contains(key@),
            },
    {
        let mut n: usize = self.entries.len();
        proof {
            assert(self.entries@.take(n as int) =~= self.entries@);
        }
        while n > 0
            invariant
                n <= self.entries@.len(),
                lookup(self.entries@.take(n as int), key@) == lookup(self.entries@, key@),
            decreases n,
        {
            proof {
                assert(self.entries@.take(n as int).drop_last() =~= self.entries@.take(n - 1));
            }
            if same(self.entries[n - 1].0.as_str(), key) {
                return Some(&self.entries[n - 1].1);
            }
            n -= 1;
        }
        None
    }

    pub fn contains_key(&self, key: &str) -> (r: bool)
        ensures
            r == self@.dom().contains(key@),
    {
        self.get(key).is_some()
    }

    /// The keys of the map.
    pub fn keys(&self) -> (r: NameSet)
        ensures
            r@ == self@.dom(),
    {
        let mut out = NameSet::new();
        let mut i: usize = 0;
        let ghost entries = self.entries@;
        while i < self.entries.len()
            invariant
                entries == self.entries@,
                i <= entries.len(),
                forall|k: Seq<char>|
                    #[trigger] out@.contains(k) == lookup(entries.take(i as int), k) is Some,
            decreases entries.len() - i,
        {
            let ghost before = out@;
            let _ = out.insert(self.entries[i].0.as_str());
            proof {
                assert(entries.take(i + 1).drop_last() =~= entries.take(i as int));
                assert forall|k: Seq<char>|
                    #[trigger] out@.contains(k) == lookup(entries.take(i + 1), k) is Some by {
                    assert(before.contains(k) == lookup(entries.take(i as int), k) is Some);
                }
            }
            i += 1;
        }
        proof {
            assert(entries.take(i as int) =~= entries);
            assert(out@ =~= self@.dom());
        }
        out
    }

    /// Gives `value` to `key`, in place of the value that it had.
    pub fn insert(&mut self, key: &str, value: V)
        ensures
            final(self)@ == old(self)@.insert(key@, value.deep_view()),
    {
        let ghost start = self.entries@;
        let mut i: usize = 0;
        let mut n: usize = self.entries.len();
        while i < n
            invariant
                n == self.entries@.len(),
                i <= n,
                forall|k: Seq<char>| k != key@ ==> lookup(self.entries@, k) == #[trigger] lookup(
                    start,
                    k,
                ),
            decreases n - i,
        {
            if same(self.entries[i].0.as_str(), key) {
                let ghost before = self.entries@;
                let _ = self.entries.remove(i);
                n -= 1;
                proof {
                    assert forall|k: Seq<char>| k != key@ implies lookup(self.entries@, k)
                        == #[trigger] lookup(start, k) by {
                        lookup_remove(before, i as int, k);
                    }
                }
            } else {
                i += 1;
            }
        }
        let ghost before = self.entries@;
        self.entries.push((key.to_owned(), value));
        proof {
            assert(self.entries@.drop_last() =~= before);
            assert(self@ =~= old(self)@.insert(key@, value.deep_view()));
        }
    }
}

/// A copy of a list of strings.
pub fn copy_strings(v: &Vec<String>) -> (r: Vec<String>)
    ensures
        r.deep_view() == v.deep_view(),
{
    let mut out: Vec<String> = Vec::new();
    let mut i: usize = 0;
    while i < v.len()
        invariant
            i <= v@.len(),
            out.deep_view() == v.deep_view().take(i as int),
        decreases v@.len() - i,
    {
        out.push(v[i].as_str().to_owned());
        proof {
            assert(v.deep_view().take(i + 1) =~= v.deep_view().take(i as int).push(v@[i as int]@));
            assert(out.deep_view() =~= v.deep_view().take(i + 1));
        }
        i += 1;
    }
    proof {
        assert(v.deep_view().take(v@.len() as int) =~= v.deep_view());
    }
    out
}

proof fn lookup_same<V: DeepView>(a: Seq<(String, V)>, b: Seq<(String, V)>, key: Seq<char>)
    requires
        a.len() == b.len(),
        forall|i: int| 0 <= i < a.len() ==> a[i].0@ == b[i].0@ && a[i].1.deep_view()
            == b[i].1.deep_view(),
    ensures
        lookup(a, key) == lookup(b, key),
    decreases a.len(),
{
    if a.len() > 0 {
        lookup_same(a.drop_last(), b.drop_last(), key);
    }
}

proof fn same_map<V: DeepView>(a: NameMap<V>, b: NameMap<V>)
    requires
        a.entries@.len() == b.entries@.len(),
        forall|i: int|
            0 <= i < a.entries@.len() ==> a.entries@[i].0@ == b.entries@[i].0@
                && a.entries@[i].1.deep_view() == b.entries@[i].1.deep_view(),
    ensures
        a@ == b@,
{
    assert forall|k: Seq<char>| lookup(a.entries@, k) == #[trigger] lookup(b.entries@, k) by {
        lookup_same(a.entries@, b.entries@, k);
    }
    assert(a@ =~= b@);
}

impl NameMap<String> {
    /// An independent copy of the map.
    pub fn copied(&self) -> (r: NameMap<String>)
        ensures
            r@ == self@,
    {
        let mut entries: Vec<(String, String)> = Vec::new();
        let mut i: usize = 0;
        while i < self.entries.len()
            invariant
                i <= self.entries@.len(),
                entries@.len() == i,
                forall|j: int|
                    0 <= j < i ==> entries@[j].0@ == self.entries@[j].0@ && entries@[j].1@
                        == self.entries@[j].1@,
            decreases self.entries@.len() - i,
        {
            entries.push(
                (
                    self.entries[i].0.as_str().to_owned(),
                    self.entries[i].1.as_str().to_owned(),
                ),
            );
            i += 1;
        }
        let r = NameMap { entries };
        proof {
            same_map(r, *self);
        }
        r
    }
}

impl NameMap<Vec<String>> {
    /// An independent copy of the map.
    pub fn copied(&self) -> (r: NameMap<Vec<String>>)
        ensures
            r@ == self@,
    {
        let mut entries: Vec<(String, Vec<String>)> = Vec::new();
        let mut i: usize = 0;
        while i < self.entries.len()
            invariant
                i <= self.entries@.len(),
                entries@.len() == i,
                forall|j: int|
                    0 <= j < i ==> entries@[j].0@ == self.entries@[j].0@
                        && entries@[j].1.deep_view() == self.entries@[j].1.deep_view(),
            decreases self.entries@.len() - i,
        {
            entries.push((self.entries[i].0.as_str().to_owned(), copy_strings(&self.entries[i].1)));
            i += 1;
        }
        let r = NameMap { entries };
        proof {
            same_map(r, *self);
        }
        r
    }
}

} // verus!
