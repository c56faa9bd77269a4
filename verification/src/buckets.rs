//! Index buckets: for each string key, a list of positions (into some other
//! list) in the order they were filed under that key.

use vstd::prelude::*;
use crate::pairs::{Pairs, has_key, keys_unique, pairs_to_map, lemma_lookup, lemma_push_new, lemma_update};

verus! {

/// The view of a list of (key, positions) entries.
pub open spec fn buckets_view(v: Seq<(String, Vec<usize>)>) -> Pairs<Seq<usize>> {
    v.map_values(|e: (String, Vec<usize>)| (e.0@, e.1@))
}

/// The positions filed under `k`, or none.
pub open spec fn bucket_of(m: Map<Seq<char>, Seq<usize>>, k: Seq<char>) -> Seq<usize> {
    if m.contains_key(k) { m[k] } else { Seq::empty() }
}

/// A map from string keys to lists of positions.
pub struct Buckets {
    entries: Vec<(String, Vec<usize>)>,
}

impl View for Buckets {
    type V = Map<Seq<char>, Seq<usize>>;

    closed spec fn view(&self) -> Map<Seq<char>, Seq<usize>> {
        pairs_to_map(buckets_view(self.entries@))
    }
}

fn copy_positions(v: &Vec<usize>) -> (r: Vec<usize>)
    ensures
        r@ == v@,
{
    let mut r: Vec<usize> = Vec::new();
    let mut i: usize = 0;
    while i < v.len()
        invariant
            i <= v.len(),
            r@ == v@.take(i as int),
        decreases v.len() - i,
    {
        r.push(v[i]);
        i += 1;
        assert(r@ =~= v@.take(i as int));
    }
    assert(v@.take(v.len() as int) =~= v@);
    r
}

impl Buckets {
    #[verifier::type_invariant]
    spec fn inv(&self) -> bool {
        keys_unique(buckets_view(self.entries@))
    }

    /// No buckets at all.
    pub fn new() -> (b: Buckets)
        ensures
            b@ == Map::<Seq<char>, Seq<usize>>::empty(),
    {
        let b = Buckets { entries: Vec::new() };
        assert(b@ =~= Map::<Seq<char>, Seq<usize>>::empty());
        b
    }

    fn find(&self, key: &str) -> (r: Option<usize>)
        ensures
            match r {
                Some(i) => i < self.entries.len() && self.entries@[i as int].0@ == key@,
                None => !has_key(buckets_view(self.entries@), key@),
            },
    {
        let k: String = key.to_owned();
        let mut i: usize = 0;
        while i < self.entries.len()
            invariant
                i <= self.entries.len(),
                k@ == key@,
                forall|j: int| 0 <= j < i ==> self.entries@[j].0@ != key@,
            decreases self.entries.len() - i,
        {
            if self.entries[i].0 == k {
                return Some(i);
            }
            i += 1;
        }
        let ghost s = buckets_view(self.entries@);
        assert forall|j: int| 0 <= j < s.len() implies #[trigger] s[j].0 != key@ by {
            assert(s[j].0 == self.entries@[j].0@);
        }
        None
    }

    /// A copy of the positions filed under `key`.
    pub fn get(&self, key: &str) -> (r: Vec<usize>)
        ensures
            r@ == bucket_of(self@, key@),
    {
        proof { use_type_invariant(self); }
        match self.find(key) {
            Some(i) => {
                proof {
                    let s = buckets_view(self.entries@);
                    assert(s[i as int] == (self.entries@[i as int].0@, self.entries@[i as int].1@));
                    lemma_lookup(s, i as int);
                }
                copy_positions(&self.entries[i].1)
            },
            None => Vec::new(),
        }
    }

    /// Files position `v` under `key`, after the positions already there.
    pub fn push(&mut self, key: &str, v: usize)
        ensures
            final(self)@ == old(self)@.insert(key@, bucket_of(old(self)@, key@).push(v)),
    {
        proof { use_type_invariant(&*self); }
        let ghost s = buckets_view(self.entries@);
        match self.find(key) {
            Some(i) => {
                proof {
                    lemma_lookup(s, i as int);
                }
                let mut e: Vec<(String, Vec<usize>)> = Vec::new();
                std::mem::swap(&mut e, &mut self.entries);
                let k = e[i].0.clone();
                let mut p = copy_positions(&e[i].1);
                p.push(v);
                proof {
                    lemma_update(s, i as int, p@);
                }
                e.set(i, (k, p));
                proof {
                    assert(buckets_view(e@) =~= s.update(i as int, (s[i as int].0, p@)));
                }
                self.entries = e;
            },
            None => {
                let mut p: Vec<usize> = Vec::new();
                p.push(v);
                proof {
                    assert(p@ =~= Seq::<usize>::empty().push(v));
                    lemma_push_new(s, key@, p@);
                }
                let mut e: Vec<(String, Vec<usize>)> = Vec::new();
                std::mem::swap(&mut e, &mut self.entries);
                e.push((key.to_owned(), p));
                proof {
                    assert(buckets_view(e@) =~= s.push((key@, p@)));
                }
                self.entries = e;
            },
        }
    }

    /// Files position `v` under `key` unless it is already there.
    pub fn push_unique(&mut self, key: &str, v: usize)
        ensures
            bucket_of(old(self)@, key@).contains(v) ==> final(self)@ == old(self)@,
            !bucket_of(old(self)@, key@).contains(v) ==> final(self)@ == old(self)@.insert(key@, bucket_of(old(self)@, key@).push(v)),
    {
        let b = self.get(key);
        let mut i: usize = 0;
        while i < b.len()
            invariant
                i <= b.len(),
                b@ == bucket_of(old(self)@, key@),
                self@ == old(self)@,
                forall|j: int| 0 <= j < i ==> b@[j] != v,
            decreases b.len() - i,
        {
            if b[i] == v {
                assert(bucket_of(old(self)@, key@)[i as int] == v);
                return;
            }
            i += 1;
        }
        self.push(key, v);
    }
}

} // verus!
