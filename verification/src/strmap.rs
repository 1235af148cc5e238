//! A map keyed by text, kept in key order.
//!
//! [`StrMap`] iterates by ascending key, so whatever is rendered from it is
//! deterministic.
use vstd::prelude::*;

use crate::text::{before, same, sorts_before, sorts_before_irreflexive, sorts_before_total, sorts_before_transitive};

verus! {

/// Each key sorts before every later one (so no key occurs twice).
pub open spec fn ascending(keys: Seq<Seq<char>>) -> bool {
    forall|i: int, j: int| 0 <= i < j < keys.len() ==> sorts_before(#[trigger] keys[i], #[trigger] keys[j])
}

/// In ascending keys every key stands at one position only.
pub proof fn ascending_distinct(keys: Seq<Seq<char>>)
    requires
        ascending(keys),
    ensures
        keys.no_duplicates(),
{
    assert forall|i: int, j: int| 0 <= i < j < keys.len() implies keys[i] != keys[j] by {
        assert(sorts_before(keys[i], keys[j]));
        sorts_before_irreflexive(keys[i], 0);
    }
}

/// Ascending keys are determined by what they hold.
pub proof fn ascending_unique(a: Seq<Seq<char>>, b: Seq<Seq<char>>)
    requires
        ascending(a),
        ascending(b),
        forall|k: Seq<char>| #[trigger] a.contains(k) <==> b.contains(k),
    ensures
        a == b,
    decreases a.len(),
{
    if a.len() == 0 {
        if b.len() > 0 {
            assert(b.contains(b[0]));
            assert(a.contains(b[0]));
        }
        assert(a =~= b);
    } else if b.len() == 0 {
        assert(a.contains(a[0]));
        assert(b.contains(a[0]));
    } else {
        ascending_distinct(a);
        ascending_distinct(b);
        let x = a.last();
        let y = b.last();
        assert(a.contains(x));
        assert(b.contains(y));
        assert(a.contains(y));
        let i = b.index_of(x);
        let j = a.index_of(y);
        if x != y {
            assert(sorts_before(b[i], b[b.len() - 1]));
            assert(sorts_before(a[j], a[a.len() - 1]));
            sorts_before_transitive(x, y, x, 0);
            sorts_before_irreflexive(x, 0);
        }
        let a1 = a.drop_last();
        let b1 = b.drop_last();
        assert forall|k: Seq<char>| #[trigger] a1.contains(k) <==> b1.contains(k) by {
            if a1.contains(k) {
                let n = a1.index_of(k);
                assert(a[n] == k && a.contains(k) && k != x);
                let m = b.index_of(k);
                assert(b1[m] == k);
            }
            if b1.contains(k) {
                let n = b1.index_of(k);
                assert(b[n] == k && b.contains(k) && k != y);
                assert(a.contains(k));
                let m = a.index_of(k);
                assert(a1[m] == k);
            }
        }
        ascending_unique(a1, b1);
        assert(a =~= a1.push(x));
        assert(b =~= b1.push(y));
    }
}

/// One key more: what the first `i + 1` keys hold.
pub proof fn one_more_key(keys: Seq<Seq<char>>, i: int)
    requires
        0 <= i < keys.len(),
    ensures
        keys.take(i + 1) == keys.take(i).push(keys[i]),
        forall|x: Seq<char>| #[trigger]
            keys.take(i + 1).contains(x) <==> (keys.take(i).contains(x) || x == keys[i]),
{
    let a = keys.take(i);
    let b = keys.take(i + 1);
    assert(b =~= a.push(keys[i]));
    assert forall|x: Seq<char>| #[trigger] b.contains(x) <==> (a.contains(x) || x == keys[i]) by {
        if a.contains(x) {
            let j = a.index_of(x);
            assert(b[j] == x);
        }
        assert(b[i] == keys[i]);
        if b.contains(x) && x != keys[i] {
            let j = b.index_of(x);
            assert(a[j] == x);
        }
    }
}

/// The elements of a set of texts in ascending order.
pub open spec fn in_order(set: Set<Seq<char>>) -> Seq<Seq<char>> {
    choose|s: Seq<Seq<char>>|
        #![trigger ascending(s)]
        ascending(s) && (forall|k: Seq<char>| #[trigger] s.contains(k) <==> set.contains(k))
}

/// What [`in_order`] is, where it is known.
pub proof fn in_order_is(set: Set<Seq<char>>, keys: Seq<Seq<char>>)
    requires
        ascending(keys),
        forall|k: Seq<char>| #[trigger] keys.contains(k) <==> set.contains(k),
    ensures
        in_order(set) == keys,
{
    let s = in_order(set);
    assert(ascending(s) && (forall|k: Seq<char>| #[trigger] s.contains(k) <==> set.contains(k)));
    ascending_unique(s, keys);
}

/// A map from text to `V` in ascending key order.
#[derive(Debug, PartialEq)]
pub struct StrMap<V> {
    entries: Vec<(String, V)>,
}

impl<V> StrMap<V> {
    /// The keys, ascending.
    pub closed spec fn keys(self) -> Seq<Seq<char>> {
        self.entries@.map_values(|e: (String, V)| e.0@)
    }

    #[verifier::type_invariant]
    closed spec fn in_order(self) -> bool {
        ascending(self.keys())
    }

    /// The map holds its keys, and no others.
    pub proof fn holds_its_keys(self)
        ensures
            forall|k: Seq<char>| #[trigger] self@.contains_key(k) <==> self.keys().contains(k),
    {
    }

    /// The empty map.
    pub fn new() -> (r: StrMap<V>)
        ensures
            r@ == Map::<Seq<char>, V>::empty(),
            r.keys() == Seq::<Seq<char>>::empty(),
    {
        let r: StrMap<V> = StrMap { entries: Vec::new() };
        assert(r@ =~= Map::<Seq<char>, V>::empty());
        assert(r.keys() =~= Seq::<Seq<char>>::empty());
        r
    }

    /// How many keys the map holds.
    pub fn len(&self) -> (r: usize)
        ensures
            r == self.keys().len(),
            ascending(self.keys()),
            self.keys().no_duplicates(),
            forall|k: Seq<char>| #[trigger] self@.contains_key(k) <==> self.keys().contains(k),
    {
        proof {
            use_type_invariant(self);
            ascending_distinct(self.keys());
        }
        self.entries.len()
    }

    /// The `i`-th key.
    pub fn key(&self, i: usize) -> (r: &String)
        requires
            i < self.keys().len(),
        ensures
            r@ == self.keys()[i as int],
    {
        &self.entries[i].0
    }

    /// The value of the `i`-th key.
    pub fn value(&self, i: usize) -> (r: &V)
        requires
            i < self.keys().len(),
        ensures
            *r == self@[self.keys()[i as int]],
            self@.contains_key(self.keys()[i as int]),
    {
        proof {
            use_type_invariant(self);
            ascending_distinct(self.keys());
        }
        &self.entries[i].1
    }

    /// The position of the first key that does not sort before `key`.
    fn position(&self, key: &str) -> (r: usize)
        ensures
            r <= self.keys().len(),
            forall|j: int| 0 <= j < r ==> sorts_before(#[trigger] self.keys()[j], key@),
            r < self.keys().len() ==> !sorts_before(self.keys()[r as int], key@),
    {
        let mut i: usize = 0;
        while i < self.entries.len() && before(self.entries[i].0.as_str(), key)
            invariant
                i <= self.entries.len(),
                self.keys().len() == self.entries.len(),
                forall|j: int| 0 <= j < i ==> sorts_before(#[trigger] self.keys()[j], key@),
            decreases self.entries.len() - i,
        {
            assert(self.keys()[i as int] == self.entries@[i as int].0@);
            i = i + 1;
        }
        proof {
            if i < self.entries.len() {
                assert(self.keys()[i as int] == self.entries@[i as int].0@);
            }
        }
        i
    }

    /// The value of `key`.
    pub fn get(&self, key: &str) -> (r: Option<&V>)
        ensures
            match r {
                Some(v) => self@.contains_key(key@) && *v == self@[key@],
                None => !self@.contains_key(key@),
            },
    {
        proof {
            use_type_invariant(self);
            ascending_distinct(self.keys());
        }
        let i: usize = self.position(key);
        if i < self.entries.len() && same(self.entries[i].0.as_str(), key) {
            assert(self.keys()[i as int] == key@);
            return Some(&self.entries[i].1);
        }
        proof {
            if self.keys().contains(key@) {
                let j = self.keys().index_of(key@);
                assert(self.keys()[j] == key@);
                sorts_before_irreflexive(key@, 0);
                if j > i {
                    assert(sorts_before(self.keys()[i as int], self.keys()[j]));
                }
            }
        }
        None
    }

    /// Put `value` under `key`, replacing an earlier value.
    pub fn insert(&mut self, key: String, value: V)
        ensures
            final(self)@ == old(self)@.insert(key@, value),
    {
        proof {
            use_type_invariant(&*self);
            ascending_distinct(self.keys());
        }
        let ghost before_keys = self.keys();
        let ghost before_map = self@;
        let i: usize = self.position(key.as_str());
        let present: bool = i < self.entries.len() && same(self.entries[i].0.as_str(), key.as_str());
        let ghost k = key@;
        let mut entries: Vec<(String, V)> = Vec::new();
        std::mem::swap(&mut entries, &mut self.entries);
        let ghost start = entries@;
        if present {
            entries.set(i, (key, value));
            proof {
                let now = entries@.map_values(|e: (String, V)| e.0@);
                assert(now =~= before_keys);
            }
        } else {
            proof {
                if i < before_keys.len() {
                    sorts_before_total(before_keys[i as int], k, 0);
                    assert(before_keys[i as int] == start[i as int].0@);
                }
            }
            entries.insert(i, (key, value));
            proof {
                let now = entries@.map_values(|e: (String, V)| e.0@);
                assert(now =~= before_keys.insert(i as int, k));
                assert forall|a: int, b: int| 0 <= a < b < now.len() implies sorts_before(#[trigger] now[a], #[trigger] now[b]) by {
                    if a == i {
                        assert(now[b] == before_keys[b - 1]);
                        assert(sorts_before(k, before_keys[i as int]));
                        if b - 1 > i {
                            assert(sorts_before(before_keys[i as int], before_keys[b - 1]));
                            sorts_before_transitive(k, before_keys[i as int], before_keys[b - 1], 0);
                        }
                    } else if b == i {
                        assert(now[a] == before_keys[a]);
                    } else {
                        let x = if a < i { a } else { a - 1 };
                        let y = if b < i { b } else { b - 1 };
                        assert(now[a] == before_keys[x]);
                        assert(now[b] == before_keys[y]);
                        assert(sorts_before(before_keys[x], before_keys[y]));
                    }
                }
            }
        }
        self.entries = entries;
        proof {
            ascending_distinct(self.keys());
            let now = self.keys();
            assert forall|x: Seq<char>| #[trigger] now.contains(x) <==> (before_keys.contains(x) || x == k) by {
                if present {
                    assert(now =~= before_keys);
                    assert(before_keys[i as int] == k);
                } else {
                    assert(now =~= before_keys.insert(i as int, k));
                    assert(now[i as int] == k);
                    if before_keys.contains(x) {
                        let j = before_keys.index_of(x);
                        assert(now[if j < i { j } else { j + 1 }] == x);
                    }
                    if now.contains(x) && x != k {
                        let j = now.index_of(x);
                        assert(before_keys[if j < i { j } else { j - 1 }] == x);
                    }
                }
            }
            assert forall|x: Seq<char>| #[trigger] now.contains(x) implies self@[x] == before_map.insert(k, value)[x] by {
                let j = now.index_of(x);
                assert(now[j] == x);
                if x == k {
                    assert(now[i as int] == k);
                    assert(j == i);
                } else {
                    let b = if present || j < i { j } else { j - 1 };
                    assert(before_keys[b] == x);
                    assert(before_keys.index_of(x) == b);
                }
            }
            assert(self@ =~= before_map.insert(k, value));
        }
    }

    /// Take `key` out of the map; a key that is not there changes nothing.
    pub fn remove(&mut self, key: &str)
        ensures
            final(self)@ == old(self)@.remove(key@),
    {
        proof {
            use_type_invariant(&*self);
            ascending_distinct(self.keys());
        }
        let ghost before_keys = self.keys();
        let ghost before_map = self@;
        let i: usize = self.position(key);
        if !(i < self.entries.len() && same(self.entries[i].0.as_str(), key)) {
            proof {
                if before_keys.contains(key@) {
                    let j = before_keys.index_of(key@);
                    sorts_before_irreflexive(key@, 0);
                    if j > i {
                        assert(sorts_before(before_keys[i as int], before_keys[j]));
                    }
                }
                assert(self@ =~= before_map.remove(key@));
            }
            return ;
        }
        let mut entries: Vec<(String, V)> = Vec::new();
        std::mem::swap(&mut entries, &mut self.entries);
        entries.remove(i);
        proof {
            let now = entries@.map_values(|e: (String, V)| e.0@);
            assert(now =~= before_keys.remove(i as int));
            assert forall|a: int, b: int| 0 <= a < b < now.len() implies sorts_before(#[trigger] now[a], #[trigger] now[b]) by {
                assert(sorts_before(before_keys[if a < i { a } else { a + 1 }], before_keys[if b < i { b } else { b + 1 }]));
            }
        }
        self.entries = entries;
        proof {
            let now = self.keys();
            ascending_distinct(now);
            assert(now =~= before_keys.remove(i as int));
            assert(before_keys[i as int] == key@);
            assert forall|x: Seq<char>| #[trigger] now.contains(x) <==> (before_keys.contains(x) && x != key@) by {
                if now.contains(x) {
                    let j = now.index_of(x);
                    assert(before_keys[if j < i { j } else { j + 1 }] == x);
                }
                if before_keys.contains(x) && x != key@ {
                    let j = before_keys.index_of(x);
                    assert(now[if j < i { j } else { j - 1 }] == x);
                }
            }
            assert forall|x: Seq<char>| #[trigger] now.contains(x) implies self@[x] == before_map[x] by {
                let j = now.index_of(x);
                let b = if j < i { j } else { j + 1 };
                assert(before_keys[b] == x);
                assert(before_keys.index_of(x) == b);
            }
            assert(self@ =~= before_map.remove(key@));
        }
    }
}

impl<V> View for StrMap<V> {
    type V = Map<Seq<char>, V>;

    closed spec fn view(&self) -> Map<Seq<char>, V> {
        Map::new(
            |k: Seq<char>| self.keys().contains(k),
            |k: Seq<char>| self.entries@[self.keys().index_of(k)].1,
        )
    }
}

/// Every finite set of texts has an order: each text once, ascending, and
/// nothing else.
pub proof fn texts_are_listed_in_order(set: Set<Seq<char>>)
    requires
        set.finite(),
    ensures
        forall|i: int, j: int|
            0 <= i < j < in_order(set).len() ==> sorts_before(
                #[trigger] in_order(set)[i],
                #[trigger] in_order(set)[j],
            ),
        forall|k: Seq<char>| #[trigger] in_order(set).contains(k) <==> set.contains(k),
{
    let keys = ordered(set);
    in_order_is(set, keys);
    assert(ascending(in_order(set)));
}

proof fn ordered(set: Set<Seq<char>>) -> (keys: Seq<Seq<char>>)
    requires
        set.finite(),
    ensures
        ascending(keys),
        forall|k: Seq<char>| #[trigger] keys.contains(k) <==> set.contains(k),
    decreases set.len(),
{
    if set.len() == 0 {
        assert(set =~= Set::<Seq<char>>::empty());
        Seq::empty()
    } else {
        let x = set.choose();
        let rest = ordered(set.remove(x));
        placed(rest, x)
    }
}

proof fn placed(keys: Seq<Seq<char>>, x: Seq<char>) -> (r: Seq<Seq<char>>)
    requires
        ascending(keys),
        !keys.contains(x),
    ensures
        ascending(r),
        forall|k: Seq<char>| #[trigger] r.contains(k) <==> keys.contains(k) || k == x,
    decreases keys.len(),
{
    if keys.len() == 0 {
        let r = seq![x];
        assert(r[0] == x);
        r
    } else {
        let y = keys.last();
        let before = keys.drop_last();
        assert(keys.contains(y));
        sorts_before_total(x, y, 0);
        if sorts_before(y, x) {
            let r = keys.push(x);
            assert forall|i: int, j: int| 0 <= i < j < r.len() implies sorts_before(
                #[trigger] r[i],
                #[trigger] r[j],
            ) by {
                if j == keys.len() && i < keys.len() - 1 {
                    assert(sorts_before(keys[i], keys[keys.len() - 1]));
                    sorts_before_transitive(r[i], y, x, 0);
                }
            }
            assert forall|k: Seq<char>| #[trigger] r.contains(k) <==> keys.contains(k) || k == x by {
                if keys.contains(k) {
                    assert(r[keys.index_of(k)] == k);
                }
                assert(r[keys.len() as int] == x);
            }
            r
        } else {
            assert(!before.contains(x)) by {
                if before.contains(x) {
                    assert(keys[before.index_of(x)] == x);
                }
            }
            let front = placed(before, x);
            let r = front.push(y);
            assert forall|i: int, j: int| 0 <= i < j < r.len() implies sorts_before(
                #[trigger] r[i],
                #[trigger] r[j],
            ) by {
                if j == front.len() {
                    assert(front.contains(r[i]));
                    if r[i] != x {
                        let k = before.index_of(r[i]);
                        assert(sorts_before(keys[k], keys[keys.len() - 1]));
                    }
                }
            }
            assert forall|k: Seq<char>| #[trigger] r.contains(k) <==> keys.contains(k) || k == x by {
                assert(keys =~= before.push(y));
                if front.contains(k) {
                    assert(r[front.index_of(k)] == k);
                }
                assert(r[front.len() as int] == y);
                if before.contains(k) {
                    assert(keys[before.index_of(k)] == k);
                }
                if keys.contains(k) && k != y {
                    assert(before[keys.index_of(k)] == k);
                }
                if r.contains(k) && k != y {
                    assert(front[r.index_of(k)] == k);
                }
            }
            r
        }
    }
}

} // verus!
