//! A map keyed by strings.

use crate::text::str_eq;
use vstd::prelude::*;

verus! {

/// A map from strings to values. Entries keep the order in which their keys
/// first came in, and no key occurs twice.
pub struct StrMap<V> {
    entries: Vec<(String, V)>,
}

/// The map that a list of entries stands for: of two entries with one key
/// the later counts.
pub open spec fn entries_map<V>(s: Seq<(Seq<char>, V)>) -> Map<Seq<char>, V>
    decreases s.len(),
{
    if s.len() == 0 {
        Map::empty()
    } else {
        entries_map(s.drop_last()).insert(s.last().0, s.last().1)
    }
}

/// No key occurs twice.
pub open spec fn keys_distinct<V>(s: Seq<(Seq<char>, V)>) -> bool {
    forall|i: int, j: int| 0 <= i < j < s.len() ==> (#[trigger] s[i]).0 != (#[trigger] s[j]).0
}

/// Some entry has the key.
pub open spec fn has_key<V>(s: Seq<(Seq<char>, V)>, key: Seq<char>) -> bool {
    exists|i: int| 0 <= i < s.len() && (#[trigger] s[i]).0 == key
}

/// The entries with a value set: in its place where the key has one, else at
/// the end.
pub open spec fn with_entry<V>(s: Seq<(Seq<char>, V)>, key: Seq<char>, value: V) -> Seq<
    (Seq<char>, V),
> {
    if has_key(s, key) {
        Seq::new(
            s.len(),
            |i: int|
                if s[i].0 == key {
                    (key, value)
                } else {
                    s[i]
                },
        )
    } else {
        s.push((key, value))
    }
}

/// The entries with another key, in their order.
pub open spec fn without_key<V>(s: Seq<(Seq<char>, V)>, key: Seq<char>) -> Seq<(Seq<char>, V)>
    decreases s.len(),
{
    if s.len() == 0 {
        s
    } else if s.last().0 == key {
        without_key(s.drop_last(), key)
    } else {
        without_key(s.drop_last(), key).push(s.last())
    }
}

proof fn lemma_without_none<V>(s: Seq<(Seq<char>, V)>, key: Seq<char>)
    requires
        !has_key(s, key),
    ensures
        without_key(s, key) == s,
    decreases s.len(),
{
    if s.len() > 0 {
        let t = s.drop_last();
        assert(s[s.len() - 1].0 != key);
        if has_key(t, key) {
            let i = choose|i: int| 0 <= i < t.len() && (#[trigger] t[i]).0 == key;
            assert(s[i].0 == key);
        }
        lemma_without_none(t, key);
        assert(t.push(s.last()) =~= s);
    }
}

pub proof fn lemma_without_one<V>(s: Seq<(Seq<char>, V)>, i: int)
    requires
        keys_distinct(s),
        0 <= i < s.len(),
    ensures
        without_key(s, s[i].0) == s.remove(i),
    decreases s.len(),
{
    let t = s.drop_last();
    let key = s[i].0;
    assert forall|a: int, b: int| 0 <= a < b < t.len() implies (#[trigger] t[a]).0 != (
    #[trigger] t[b]).0 by {
        assert(t[a] == s[a] && t[b] == s[b]);
    }
    if i == s.len() - 1 {
        if has_key(t, key) {
            let j = choose|j: int| 0 <= j < t.len() && (#[trigger] t[j]).0 == key;
            assert(s[j].0 != s[i].0);
        }
        lemma_without_none(t, key);
        assert(s.remove(i) =~= t);
    } else {
        assert(s[i].0 != s[s.len() - 1].0);
        assert(t[i] == s[i]);
        lemma_without_one(t, i);
        assert(s.remove(i) =~= t.remove(i).push(s.last()));
    }
}

pub proof fn lemma_entries_map_dom<V>(s: Seq<(Seq<char>, V)>, k: Seq<char>)
    ensures
        entries_map(s).dom().contains(k) <==> exists|i: int| 0 <= i < s.len() && (#[trigger] s[i]).0 == k,
        entries_map(s).dom().finite(),
    decreases s.len(),
{
    if s.len() > 0 {
        lemma_entries_map_dom(s.drop_last(), k);
        if entries_map(s).dom().contains(k) {
            if s.last().0 == k {
                assert(s[s.len() - 1].0 == k);
            } else {
                let i = choose|i: int| 0 <= i < s.drop_last().len() && (#[trigger] s.drop_last()[i]).0 == k;
                assert(s[i].0 == k);
            }
        }
        if exists|i: int| 0 <= i < s.len() && (#[trigger] s[i]).0 == k {
            let i = choose|i: int| 0 <= i < s.len() && (#[trigger] s[i]).0 == k;
            if i < s.len() - 1 {
                assert(s.drop_last()[i].0 == k);
            }
        }
    }
}

pub proof fn lemma_entries_map_len<V>(s: Seq<(Seq<char>, V)>)
    requires
        keys_distinct(s),
    ensures
        entries_map(s).dom().finite(),
        entries_map(s).dom().len() == s.len(),
    decreases s.len(),
{
    lemma_entries_map_dom(s, Seq::empty());
    if s.len() > 0 {
        let t = s.drop_last();
        lemma_entries_map_len(t);
        lemma_entries_map_dom(t, s.last().0);
        assert(!entries_map(t).dom().contains(s.last().0));
        assert(entries_map(s).dom() =~= entries_map(t).dom().insert(s.last().0));
    }
}

pub proof fn lemma_entries_map_at<V>(s: Seq<(Seq<char>, V)>, i: int)
    requires
        0 <= i < s.len(),
        keys_distinct(s),
    ensures
        entries_map(s).dom().contains(s[i].0),
        entries_map(s)[s[i].0] == s[i].1,
    decreases s.len(),
{
    if i < s.len() - 1 {
        let t = s.drop_last();
        assert(t[i] == s[i]);
        assert forall|a: int, b: int| 0 <= a < b < t.len() implies (#[trigger] t[a]).0 != (
        #[trigger] t[b]).0 by {
            assert(t[a] == s[a] && t[b] == s[b]);
        }
        lemma_entries_map_at(t, i);
        assert(s[s.len() - 1].0 != s[i].0);
    }
}

spec fn same_at<V>(m: Map<Seq<char>, V>, n: Map<Seq<char>, V>, k: Seq<char>) -> bool {
    m.dom().contains(k) == n.dom().contains(k) && (m.dom().contains(k) ==> m[k] == n[k])
}

proof fn lemma_same_maps<V>(m: Map<Seq<char>, V>, n: Map<Seq<char>, V>)
    requires
        forall|k: Seq<char>| same_at(m, n, k),
    ensures
        m == n,
{
    assert forall|k: Seq<char>| m.dom().contains(k) == n.dom().contains(k) by {
        assert(same_at(m, n, k));
    }
    assert forall|k: Seq<char>| m.dom().contains(k) implies m[k] == n[k] by {
        assert(same_at(m, n, k));
    }
    assert(m =~= n);
}

/// The entries of a list of owned pairs, with the keys as character sequences.
pub open spec fn pairs<V>(v: Seq<(String, V)>) -> Seq<(Seq<char>, V)> {
    Seq::new(v.len(), |i: int| (v[i].0@, v[i].1))
}

impl<V> View for StrMap<V> {
    type V = Map<Seq<char>, V>;

    open spec fn view(&self) -> Map<Seq<char>, V> {
        entries_map(self.list())
    }
}

impl<V> StrMap<V> {
    /// The entries in order.
    pub closed spec fn list(&self) -> Seq<(Seq<char>, V)> {
        pairs(self.entries@)
    }

    #[verifier::type_invariant]
    closed spec fn inv(&self) -> bool {
        keys_distinct(pairs(self.entries@))
    }

    /// The empty map.
    pub fn new() -> (r: Self)
        ensures
            r@ == Map::<Seq<char>, V>::empty(),
            r.list() == Seq::<(Seq<char>, V)>::empty(),
    {
        let r = StrMap { entries: Vec::new() };
        assert(r.list() =~= Seq::<(Seq<char>, V)>::empty());
        r
    }

    fn position(&self, key: &str) -> (r: Option<usize>)
        ensures
            match r {
                Some(i) => i < self.entries@.len() && self.entries@[i as int].0@ == key@
                    && self@.dom().contains(key@) && self@[key@] == self.entries@[i as int].1,
                None => !self@.dom().contains(key@) && forall|j: int|
                    0 <= j < self.entries@.len() ==> (#[trigger] self.entries@[j]).0@ != key@,
            },
    {
        proof {
            use_type_invariant(self);
        }
        let mut i: usize = 0;
        while i < self.entries.len()
            invariant
                i <= self.entries@.len(),
                keys_distinct(pairs(self.entries@)),
                forall|j: int| 0 <= j < i ==> (#[trigger] self.entries@[j]).0@ != key@,
            decreases self.entries@.len() - i,
        {
            if str_eq(self.entries[i].0.as_str(), key) {
                proof {
                    lemma_entries_map_at(self.list(), i as int);
                }
                return Some(i);
            }
            i = i + 1;
        }
        proof {
            lemma_entries_map_dom(self.list(), key@);
            if self@.dom().contains(key@) {
                let j = choose|j: int| 0 <= j < self.list().len() && (#[trigger] self.list()[j]).0 == key@;
                assert(self.entries@[j].0@ != key@);
            }
        }
        None
    }

    /// The value under `key`, if there is one.
    pub fn get(&self, key: &str) -> (r: Option<&V>)
        ensures
            match r {
                Some(v) => self@.dom().contains(key@) && *v == self@[key@],
                None => !self@.dom().contains(key@),
            },
    {
        match self.position(key) {
            Some(i) => Some(&self.entries[i].1),
            None => None,
        }
    }

    /// Tells whether `key` has a value.
    pub fn contains_key(&self, key: &str) -> (r: bool)
        ensures
            r == self@.dom().contains(key@),
    {
        match self.position(key) {
            Some(_) => true,
            None => false,
        }
    }

    /// Puts `value` under `key` and hands back the value that was there.
    pub fn insert(&mut self, key: &str, value: V) -> (r: Option<V>)
        ensures
            final(self)@ == old(self)@.insert(key@, value),
            final(self).list() == with_entry(old(self).list(), key@, value),
            match r {
                Some(v) => old(self)@.dom().contains(key@) && v == old(self)@[key@],
                None => !old(self)@.dom().contains(key@),
            },
    {
        let pos = self.position(key);
        proof {
            use_type_invariant(&*self);
        }
        let ghost before = self.entries@;
        let mut entries: Vec<(String, V)> = Vec::new();
        std::mem::swap(&mut entries, &mut self.entries);
        let r = match pos {
            Some(i) => {
                entries.push((key.to_owned(), value));
                let old_pair = entries.swap_remove(i);
                proof {
                    let after = entries@;
                    assert(after =~= before.update(i as int, after[i as int]));
                    lemma_update(before, after, i as int, key@, value);
                    assert(pairs(before)[i as int].0 == key@);
                    assert(pairs(after) =~= with_entry(pairs(before), key@, value)) by {
                        assert forall|j: int| 0 <= j < before.len() && j != i implies (
                        #[trigger] pairs(before)[j]).0 != key@ by {
                            if j < i {
                                assert(pairs(before)[j].0 != pairs(before)[i as int].0);
                            } else {
                                assert(pairs(before)[i as int].0 != pairs(before)[j].0);
                            }
                        }
                    }
                }
                Some(old_pair.1)
            },
            None => {
                entries.push((key.to_owned(), value));
                proof {
                    let after = entries@;
                    assert(pairs(after).drop_last() =~= pairs(before));
                    assert(pairs(after) =~= pairs(before).push((key@, value)));
                    assert forall|a: int, b: int| 0 <= a < b < pairs(after).len() implies (
                    #[trigger] pairs(after)[a]).0 != (#[trigger] pairs(after)[b]).0 by {
                        assert(pairs(before)[a].0 == before[a].0@);
                        if b < before.len() {
                            assert(pairs(before)[b].0 == before[b].0@);
                        }
                    }
                }
                None
            },
        };
        self.entries = entries;
        r
    }

    /// Takes out what is under `key`.
    pub fn remove(&mut self, key: &str) -> (r: Option<V>)
        ensures
            final(self)@ == old(self)@.remove(key@),
            final(self).list() == without_key(old(self).list(), key@),
            match r {
                Some(v) => old(self)@.dom().contains(key@) && v == old(self)@[key@],
                None => !old(self)@.dom().contains(key@),
            },
    {
        let pos = self.position(key);
        proof {
            use_type_invariant(&*self);
        }
        let ghost before = self.entries@;
        match pos {
            None => {
                assert(self@ =~= self@.remove(key@));
                proof {
                    lemma_without_none(self.list(), key@);
                }
                None
            },
            Some(i) => {
                let mut entries: Vec<(String, V)> = Vec::new();
                std::mem::swap(&mut entries, &mut self.entries);
                let p = entries.remove(i);
                proof {
                    lemma_remove(before, i as int);
                    lemma_without_one(pairs(before), i as int);
                    assert(pairs(before)[i as int].0 == key@);
                    assert(entries@ =~= before.remove(i as int));
                    assert(pairs(entries@) =~= pairs(before).remove(i as int));
                }
                self.entries = entries;
                Some(p.1)
            },
        }
    }

    /// How many keys there are.
    pub fn len(&self) -> (r: usize)
        ensures
            r == self.list().len(),
            r == self@.dom().len(),
            keys_distinct(self.list()),
            self@.dom().finite(),
    {
        proof {
            use_type_invariant(self);
            lemma_entries_map_len(self.list());
        }
        self.entries.len()
    }

    /// The key at position `i`.
    pub fn key_at(&self, i: usize) -> (r: &str)
        requires
            i < self.list().len(),
        ensures
            r@ == self.list()[i as int].0,
    {
        self.entries[i].0.as_str()
    }

    /// The value at position `i`.
    pub fn value_at(&self, i: usize) -> (r: &V)
        requires
            i < self.list().len(),
        ensures
            *r == self.list()[i as int].1,
            self@.dom().contains(self.list()[i as int].0),
            self@[self.list()[i as int].0] == *r,
    {
        proof {
            use_type_invariant(self);
            lemma_entries_map_at(self.list(), i as int);
        }
        &self.entries[i].1
    }
}

impl<V: Copy> StrMap<V> {
    /// A map with the same entries in the same order.
    pub fn copied(&self) -> (r: Self)
        ensures
            r@ == self@,
            r.list() == self.list(),
    {
        proof {
            use_type_invariant(self);
        }
        let mut entries: Vec<(String, V)> = Vec::new();
        let mut i: usize = 0;
        while i < self.entries.len()
            invariant
                i <= self.entries@.len(),
                pairs(entries@) == pairs(self.entries@).take(i as int),
            decreases self.entries@.len() - i,
        {
            let ghost before = entries@;
            let p = (self.entries[i].0.as_str().to_owned(), self.entries[i].1);
            entries.push(p);
            assert(pairs(entries@) =~= pairs(before).push((p.0@, p.1)));
            i = i + 1;
            assert(pairs(entries@) =~= pairs(self.entries@).take(i as int));
        }
        assert(pairs(entries@) =~= pairs(self.entries@));
        StrMap { entries }
    }
}

proof fn lemma_update<V>(
    before: Seq<(String, V)>,
    after: Seq<(String, V)>,
    i: int,
    key: Seq<char>,
    value: V,
)
    requires
        0 <= i < before.len(),
        keys_distinct(pairs(before)),
        before[i].0@ == key,
        after == before.update(i, after[i]),
        after[i].0@ == key,
        after[i].1 == value,
    ensures
        keys_distinct(pairs(after)),
        entries_map(pairs(after)) == entries_map(pairs(before)).insert(key, value),
{
    let b = pairs(before);
    let a = pairs(after);
    assert forall|x: int, y: int| 0 <= x < y < a.len() implies (#[trigger] a[x]).0 != (
    #[trigger] a[y]).0 by {
        assert(b[x].0 == a[x].0 && b[y].0 == a[y].0);
    }
    let m = entries_map(b).insert(key, value);
    assert forall|k: Seq<char>| same_at(entries_map(a), m, k) by {
        lemma_entries_map_dom(a, k);
        lemma_entries_map_dom(b, k);
        if entries_map(a).dom().contains(k) {
            let j = choose|j: int| 0 <= j < a.len() && (#[trigger] a[j]).0 == k;
            assert(b[j].0 == k);
            lemma_entries_map_at(a, j);
            lemma_entries_map_at(b, j);
            if k == key {
                assert(j == i) by {
                    if j < i {
                        assert(a[j].0 != a[i].0);
                    } else if i < j {
                        assert(a[i].0 != a[j].0);
                    }
                }
            }
        }
        if entries_map(b).dom().contains(k) {
            let j = choose|j: int| 0 <= j < b.len() && (#[trigger] b[j]).0 == k;
            assert(a[j].0 == k);
        }
        assert(a[i].0 == key);
    }
    lemma_same_maps(entries_map(a), m);
}

proof fn lemma_remove<V>(before: Seq<(String, V)>, i: int)
    requires
        0 <= i < before.len(),
        keys_distinct(pairs(before)),
    ensures
        keys_distinct(pairs(before.remove(i))),
        entries_map(pairs(before.remove(i))) == entries_map(pairs(before)).remove(before[i].0@),
{
    let b = pairs(before);
    let a = pairs(before.remove(i));
    let key = before[i].0@;
    assert forall|x: int| 0 <= x < a.len() implies #[trigger] a[x] == b[if x < i { x } else { x + 1 }] by {}
    assert forall|x: int, y: int| 0 <= x < y < a.len() implies (#[trigger] a[x]).0 != (
    #[trigger] a[y]).0 by {
        let x1 = if x < i { x } else { x + 1 };
        let y1 = if y < i { y } else { y + 1 };
        assert(b[x1].0 != b[y1].0);
    }
    let m = entries_map(b).remove(key);
    assert forall|k: Seq<char>| same_at(entries_map(a), m, k) by {
        lemma_entries_map_dom(a, k);
        lemma_entries_map_dom(b, k);
        if entries_map(a).dom().contains(k) {
            let j = choose|j: int| 0 <= j < a.len() && (#[trigger] a[j]).0 == k;
            let j1 = if j < i { j } else { j + 1 };
            assert(b[j1].0 == k);
            lemma_entries_map_at(a, j);
            lemma_entries_map_at(b, j1);
            assert(b[i].0 == key);
            if j1 < i {
                assert(b[j1].0 != b[i].0);
            } else {
                assert(b[i].0 != b[j1].0);
            }
        }
        if entries_map(b).dom().contains(k) && k != key {
            let j1 = choose|j: int| 0 <= j < b.len() && (#[trigger] b[j]).0 == k;
            assert(b[i].0 == key);
            let j = if j1 < i { j1 } else { j1 - 1 };
            assert(a[j].0 == k);
        }
    }
    lemma_same_maps(entries_map(a), m);
}

} // verus!
