//! Song metadata: a finite map from tag names to values, kept as a list of
//! pairs whose keys never repeat.

use vstd::prelude::*;
use crate::pairs::{Pairs, has_key, keys_unique, pairs_to_map, later_wins_map, lemma_lookup, lemma_push_new, lemma_update, lemma_remove,
    law_later_wins_unique};

verus! {

/// The view of a list of string pairs.
pub open spec fn string_pairs_view(v: Seq<(String, String)>) -> Pairs<Seq<char>> {
    v.map_values(|e: (String, String)| (e.0@, e.1@))
}

/// A finite map from metadata tags to values.
pub struct Metadata {
    entries: Vec<(String, String)>,
}

impl View for Metadata {
    type V = Map<Seq<char>, Seq<char>>;

    closed spec fn view(&self) -> Map<Seq<char>, Seq<char>> {
        pairs_to_map(string_pairs_view(self.entries@))
    }
}

impl Metadata {
    #[verifier::type_invariant]
    spec fn inv(&self) -> bool {
        keys_unique(string_pairs_view(self.entries@))
    }

    fn find(&self, key: &str) -> (r: Option<usize>)
        ensures
            match r {
                Some(i) => i < self.entries.len() && self.entries@[i as int].0@ == key@,
                None => !has_key(string_pairs_view(self.entries@), key@),
            },
    {
        let k: String = key.to_owned();
        let mut i: usize = 0;
        while i < self.entries.len()
            invariant
                i <= self.entries.len(),
                k@ == key@,
                forall|j: int| 0 <= j < i ==> self.entries@[j].0@ != key@,
            decreases self.entries.len() - i,
        {
            if self.entries[i].0 == k {
                return Some(i);
            }
            i += 1;
        }
        let ghost s = string_pairs_view(self.entries@);
        assert forall|j: int| 0 <= j < s.len() implies #[trigger] s[j].0 != key@ by {
            assert(s[j].0 == self.entries@[j].0@);
        }
        None
    }

    /// An empty map.
    pub fn new() -> (m: Metadata)
        ensures
            m@ == Map::<Seq<char>, Seq<char>>::empty(),
    {
        let m = Metadata { entries: Vec::new() };
        assert(m@ =~= Map::<Seq<char>, Seq<char>>::empty());
        m
    }

    /// The value stored under `key`, if any.
    pub fn get(&self, key: &str) -> (r: Option<&String>)
        ensures
            match r {
                Some(v) => self@.contains_key(key@) && self@[key@] == v@,
                None => !self@.contains_key(key@),
            },
    {
        proof { use_type_invariant(self); }
        match self.find(key) {
            Some(i) => {
                proof {
                    let s = string_pairs_view(self.entries@);
                    assert(s[i as int] == (self.entries@[i as int].0@, self.entries@[i as int].1@));
                    lemma_lookup(s, i as int);
                }
                Some(&self.entries[i].1)
            },
            None => None,
        }
    }

    /// True when some value is stored under `key`.
    pub fn contains_key(&self, key: &str) -> (r: bool)
        ensures
            r == self@.contains_key(key@),
    {
        self.get(key).is_some()
    }

    /// The value stored under `key`, or the empty string if there is none.
    pub fn get_or_empty(&self, key: &str) -> (r: String)
        ensures
            r@ == value_or_empty(self@, key@),
    {
        match self.get(key) {
            Some(v) => v.clone(),
            None => String::new(),
        }
    }

    /// Stores `value` under `key`, replacing any earlier value.
    pub fn insert(&mut self, key: String, value: String)
        ensures
            final(self)@ == old(self)@.insert(key@, value@),
    {
        proof { use_type_invariant(&*self); }
        let ghost s = string_pairs_view(self.entries@);
        match self.find(key.as_str()) {
            Some(i) => {
                proof {
                    lemma_update(s, i as int, value@);
                }
                let mut e: Vec<(String, String)> = Vec::new();
                std::mem::swap(&mut e, &mut self.entries);
                e.set(i, (key, value));
                proof {
                    assert(string_pairs_view(e@) =~= s.update(i as int, (s[i as int].0, value@)));
                }
                self.entries = e;
            },
            None => {
                proof {
                    lemma_push_new(s, key@, value@);
                }
                let mut e: Vec<(String, String)> = Vec::new();
                std::mem::swap(&mut e, &mut self.entries);
                e.push((key, value));
                proof {
                    assert(string_pairs_view(e@) =~= s.push((key@, value@)));
                }
                self.entries = e;
            },
        }
    }

    /// Removes whatever is stored under `key`, returning it.
    pub fn remove(&mut self, key: &str) -> (r: Option<String>)
        ensures
            final(self)@ == old(self)@.remove(key@),
            match r {
                Some(v) => old(self)@.contains_key(key@) && old(self)@[key@] == v@,
                None => !old(self)@.contains_key(key@),
            },
    {
        proof { use_type_invariant(&*self); }
        let ghost s = string_pairs_view(self.entries@);
        match self.find(key) {
            Some(i) => {
                proof {
                    lemma_remove(s, i as int);
                    lemma_lookup(s, i as int);
                }
                let mut e: Vec<(String, String)> = Vec::new();
                std::mem::swap(&mut e, &mut self.entries);
                let (_, v) = e.remove(i);
                proof {
                    assert(string_pairs_view(e@) =~= s.remove(i as int));
                }
                self.entries = e;
                Some(v)
            },
            None => {
                proof {
                    assert(old(self)@ =~= old(self)@.remove(key@));
                }
                None
            },
        }
    }

    /// The number of pairs stored; every key is distinct.
    pub fn entry_count(&self) -> (n: usize)
        ensures
            n == self.entry_seq().len(),
            keys_unique(self.entry_seq()),
            self@ == pairs_to_map(self.entry_seq()),
    {
        proof { use_type_invariant(self); }
        self.entries.len()
    }

    /// The stored pairs, in storage order.
    pub closed spec fn entry_seq(&self) -> Pairs<Seq<char>> {
        string_pairs_view(self.entries@)
    }

    /// Metadata rebuilt from its own pairs (`from_pairs` of `to_pairs`) is
    /// the same metadata.
    pub proof fn law_pairs_round_trip(m: Metadata)
        requires
            keys_unique(m.entry_seq()),
        ensures
            later_wins_map(m.entry_seq()) == m@,
    {
        law_later_wins_unique(m.entry_seq());
    }

    /// The key of the `i`-th stored pair.
    pub fn key_at(&self, i: usize) -> (k: &String)
        requires
            i < self.entry_seq().len(),
        ensures
            k@ == self.entry_seq()[i as int].0,
    {
        &self.entries[i].0
    }

    /// The value of the `i`-th stored pair.
    pub fn value_at(&self, i: usize) -> (v: &String)
        requires
            i < self.entry_seq().len(),
        ensures
            v@ == self.entry_seq()[i as int].1,
    {
        &self.entries[i].1
    }

    /// Builds a map from pairs, a later pair replacing an earlier one with the
    /// same key.
    pub fn from_pairs(pairs: Vec<(String, String)>) -> (m: Metadata)
        ensures
            m@ == later_wins_map(string_pairs_view(pairs@)),
    {
        let mut m = Metadata::new();
        let mut i: usize = 0;
        while i < pairs.len()
            invariant
                i <= pairs.len(),
                m@ == later_wins_map(string_pairs_view(pairs@).take(i as int)),
            decreases pairs.len() - i,
        {
            let k = pairs[i].0.clone();
            let v = pairs[i].1.clone();
            m.insert(k, v);
            i += 1;
            proof {
                let t = string_pairs_view(pairs@).take(i as int);
                assert(t.drop_last() =~= string_pairs_view(pairs@).take((i - 1) as int));
            }
        }
        assert(string_pairs_view(pairs@).take(pairs.len() as int) =~= string_pairs_view(pairs@));
        m
    }

    /// The stored pairs as a vector.
    pub fn to_pairs(&self) -> (v: Vec<(String, String)>)
        ensures
            string_pairs_view(v@) == self.entry_seq(),
            keys_unique(self.entry_seq()),
            self@ == pairs_to_map(self.entry_seq()),
    {
        proof { use_type_invariant(self); }
        let v = clone_pairs(&self.entries);
        assert(string_pairs_view(v@) =~= self.entry_seq());
        v
    }

    /// True when both hold the same map.
    pub fn same_as(&self, other: &Metadata) -> (r: bool)
        ensures
            r == (self@ == other@),
    {
        proof {
            use_type_invariant(self);
            use_type_invariant(other);
        }
        let ghost s = string_pairs_view(self.entries@);
        let ghost t = string_pairs_view(other.entries@);
        let mut i: usize = 0;
        while i < self.entries.len()
            invariant
                i <= self.entries.len(),
                s == string_pairs_view(self.entries@),
                t == string_pairs_view(other.entries@),
                keys_unique(s),
                keys_unique(t),
                other@ == pairs_to_map(t),
                self@ == pairs_to_map(s),
                forall|j: int| 0 <= j < i ==> #[trigger] other@.contains_key(s[j].0) && other@[s[j].0] == s[j].1,
            decreases self.entries.len() - i,
        {
            proof { lemma_lookup(s, i as int); }
            assert(s[i as int] == (self.entries@[i as int].0@, self.entries@[i as int].1@));
            match other.get(self.entries[i].0.as_str()) {
                Some(v) => {
                    let same: bool = *v == self.entries[i].1;
                    if !same {
                        return false;
                    }
                    assert(other@ == pairs_to_map(t));
                    assert(pairs_to_map(t).contains_key(s[i as int].0) && pairs_to_map(t)[s[i as int].0] == s[i as int].1);
                },
                None => {
                    return false;
                },
            }
            i += 1;
        }
        let mut j: usize = 0;
        while j < other.entries.len()
            invariant
                j <= other.entries.len(),
                s == string_pairs_view(self.entries@),
                t == string_pairs_view(other.entries@),
                keys_unique(s),
                keys_unique(t),
                other@ == pairs_to_map(t),
                self@ == pairs_to_map(s),
                forall|a: int| 0 <= a < s.len() ==> #[trigger] other@.contains_key(s[a].0) && other@[s[a].0] == s[a].1,
                forall|a: int| 0 <= a < j ==> #[trigger] self@.contains_key(t[a].0),
            decreases other.entries.len() - j,
        {
            assert(t[j as int] == (other.entries@[j as int].0@, other.entries@[j as int].1@));
            if !self.contains_key(other.entries[j].0.as_str()) {
                proof { lemma_lookup(t, j as int); }
                return false;
            }
            j += 1;
        }
        proof {
            let m1 = pairs_to_map(s);
            let m2 = pairs_to_map(t);
            assert forall|q: Seq<char>| m1.contains_key(q) <==> m2.contains_key(q) by {
                if m1.contains_key(q) {
                    let a = choose|a: int| 0 <= a < s.len() && #[trigger] s[a].0 == q;
                    assert(m2.contains_key(s[a].0));
                }
                if m2.contains_key(q) {
                    let a = choose|a: int| 0 <= a < t.len() && #[trigger] t[a].0 == q;
                    assert(m1.contains_key(t[a].0));
                }
            }
            assert forall|q: Seq<char>| m1.contains_key(q) implies m1[q] == m2[q] by {
                let a = choose|a: int| 0 <= a < s.len() && #[trigger] s[a].0 == q;
                lemma_lookup(s, a);
                assert(m2[s[a].0] == s[a].1);
            }
            assert(m1 =~= m2);
        }
        true
    }
}

impl Clone for Metadata {
    fn clone(&self) -> (r: Metadata)
        ensures
            r@ == self@,
    {
        proof { use_type_invariant(self); }
        let e = clone_pairs(&self.entries);
        proof {
            assert(string_pairs_view(e@) =~= string_pairs_view(self.entries@));
        }
        Metadata { entries: e }
    }
}

/// A copy of a vector of string pairs.
pub fn clone_pairs(v: &Vec<(String, String)>) -> (r: Vec<(String, String)>)
    ensures
        r@ == v@,
{
    let mut r: Vec<(String, String)> = Vec::new();
    let mut i: usize = 0;
    while i < v.len()
        invariant
            i <= v.len(),
            r@ == v@.take(i as int),
        decreases v.len() - i,
    {
        let a = v[i].0.clone();
        let b = v[i].1.clone();
        r.push((a, b));
        i += 1;
        assert(r@ =~= v@.take(i as int));
    }
    assert(v@.take(v.len() as int) =~= v@);
    r
}

/// The value under `k`, or the empty sequence if `m` has none.
pub open spec fn value_or_empty(m: Map<Seq<char>, Seq<char>>, k: Seq<char>) -> Seq<char> {
    if m.contains_key(k) { m[k] } else { Seq::empty() }
}

} // verus!
