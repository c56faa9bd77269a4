//! Lists of (key, value) pairs whose keys never repeat, and the finite maps
//! they stand for.

use vstd::prelude::*;

verus! {

/// A list of (key, value) pairs, as character sequences.
pub type Pairs<V> = Seq<(Seq<char>, V)>;

/// Whether `k` is the key of some pair in `s`.
pub open spec fn has_key<V>(s: Pairs<V>, k: Seq<char>) -> bool {
    exists|i: int| 0 <= i < s.len() && #[trigger] s[i].0 == k
}

/// The position of a pair whose key is `k`.
pub open spec fn key_index<V>(s: Pairs<V>, k: Seq<char>) -> int {
    choose|i: int| 0 <= i < s.len() && #[trigger] s[i].0 == k
}

/// No key occurs in two pairs.
pub open spec fn keys_unique<V>(s: Pairs<V>) -> bool {
    forall|i: int, j: int| 0 <= i < s.len() && 0 <= j < s.len() && i != j ==> #[trigger] s[i].0 != #[trigger] s[j].0
}

/// The map that a list of pairs with distinct keys stands for.
pub open spec fn pairs_to_map<V>(s: Pairs<V>) -> Map<Seq<char>, V> {
    Map::new(|k: Seq<char>| has_key(s, k), |k: Seq<char>| s[key_index(s, k)].1)
}

/// The map built by inserting the pairs in order, a later pair replacing an
/// earlier one with the same key.
pub open spec fn later_wins_map<V>(s: Pairs<V>) -> Map<Seq<char>, V>
    decreases s.len(),
{
    if s.len() == 0 {
        Map::empty()
    } else {
        later_wins_map(s.drop_last()).insert(s.last().0, s.last().1)
    }
}

/// Inserting pairs whose keys never repeat, one after another, gives the map
/// they stand for.
pub proof fn law_later_wins_unique<V>(s: Pairs<V>)
    requires
        keys_unique(s),
    ensures
        later_wins_map(s) == pairs_to_map(s),
    decreases s.len(),
{
    if s.len() == 0 {
        assert(pairs_to_map(s) =~= Map::empty());
    } else {
        let d = s.drop_last();
        let last = s.last();
        assert forall|i: int, j: int| 0 <= i < d.len() && 0 <= j < d.len() && i != j implies
            #[trigger] d[i].0 != #[trigger] d[j].0 by {
            assert(d[i] == s[i] && d[j] == s[j]);
        }
        law_later_wins_unique(d);
        if has_key(d, last.0) {
            let i = choose|i: int| 0 <= i < d.len() && #[trigger] d[i].0 == last.0;
            assert(s[i].0 == s[s.len() - 1].0);
        }
        lemma_push_new(d, last.0, last.1);
        assert(d.push((last.0, last.1)) =~= s);
    }
}

pub proof fn lemma_lookup<V>(s: Pairs<V>, i: int)
    requires
        keys_unique(s),
        0 <= i < s.len(),
    ensures
        pairs_to_map(s).contains_key(s[i].0),
        pairs_to_map(s)[s[i].0] == s[i].1,
{
    assert(has_key(s, s[i].0));
    let j = key_index(s, s[i].0);
    assert(s[j].0 == s[i].0);
}

pub proof fn lemma_push_new<V>(s: Pairs<V>, k: Seq<char>, v: V)
    requires
        keys_unique(s),
        !has_key(s, k),
    ensures
        keys_unique(s.push((k, v))),
        pairs_to_map(s.push((k, v))) == pairs_to_map(s).insert(k, v),
{
    let t = s.push((k, v));
    assert forall|i: int, j: int| 0 <= i < t.len() && 0 <= j < t.len() && i != j implies #[trigger] t[i].0 != #[trigger] t[j].0 by {
        if i < s.len() && j < s.len() {
            assert(t[i] == s[i] && t[j] == s[j]);
        } else if i < s.len() {
            assert(t[i] == s[i]);
        } else {
            assert(t[j] == s[j]);
        }
    }
    let m1 = pairs_to_map(t);
    let m2 = pairs_to_map(s).insert(k, v);
    assert forall|q: Seq<char>| m1.contains_key(q) <==> m2.contains_key(q) by {
        if has_key(t, q) {
            let i = choose|i: int| 0 <= i < t.len() && #[trigger] t[i].0 == q;
            if i < s.len() {
                assert(s[i].0 == q);
            }
        }
        if has_key(s, q) {
            let i = choose|i: int| 0 <= i < s.len() && #[trigger] s[i].0 == q;
            assert(t[i].0 == q);
        }
        if q == k {
            assert(t[s.len() as int].0 == q);
        }
    }
    assert forall|q: Seq<char>| m1.contains_key(q) implies m1[q] == m2[q] by {
        if q == k {
            lemma_lookup(t, s.len() as int);
        } else {
            let i = choose|i: int| 0 <= i < s.len() && #[trigger] s[i].0 == q;
            lemma_lookup(s, i);
            lemma_lookup(t, i);
        }
    }
    assert(m1 =~= m2);
}

pub proof fn lemma_update<V>(s: Pairs<V>, i: int, v: V)
    requires
        keys_unique(s),
        0 <= i < s.len(),
    ensures
        keys_unique(s.update(i, (s[i].0, v))),
        pairs_to_map(s.update(i, (s[i].0, v))) == pairs_to_map(s).insert(s[i].0, v),
{
    let k = s[i].0;
    let t = s.update(i, (k, v));
    assert forall|a: int, b: int| 0 <= a < t.len() && 0 <= b < t.len() && a != b implies #[trigger] t[a].0 != #[trigger] t[b].0 by {
        assert(t[a].0 == s[a].0 && t[b].0 == s[b].0);
    }
    let m1 = pairs_to_map(t);
    let m2 = pairs_to_map(s).insert(k, v);
    assert forall|q: Seq<char>| m1.contains_key(q) <==> m2.contains_key(q) by {
        if has_key(t, q) {
            let j = choose|j: int| 0 <= j < t.len() && #[trigger] t[j].0 == q;
            assert(s[j].0 == q);
        }
        if has_key(s, q) {
            let j = choose|j: int| 0 <= j < s.len() && #[trigger] s[j].0 == q;
            assert(t[j].0 == q);
        }
        if q == k {
            assert(t[i].0 == q);
        }
    }
    assert forall|q: Seq<char>| m1.contains_key(q) implies m1[q] == m2[q] by {
        let j = choose|j: int| 0 <= j < t.len() && #[trigger] t[j].0 == q;
        lemma_lookup(t, j);
        if j != i {
            assert(s[j] == t[j]);
            lemma_lookup(s, j);
        }
    }
    assert(m1 =~= m2);
}

pub proof fn lemma_remove<V>(s: Pairs<V>, i: int)
    requires
        keys_unique(s),
        0 <= i < s.len(),
    ensures
        keys_unique(s.remove(i)),
        pairs_to_map(s.remove(i)) == pairs_to_map(s).remove(s[i].0),
{
    let k = s[i].0;
    let t = s.remove(i);
    assert forall|a: int| 0 <= a < t.len() implies #[trigger] t[a] == s[if a < i { a } else { a + 1 }] by {}
    assert forall|a: int, b: int| 0 <= a < t.len() && 0 <= b < t.len() && a != b implies #[trigger] t[a].0 != #[trigger] t[b].0 by {
        assert(t[a] == s[if a < i { a } else { a + 1 }]);
        assert(t[b] == s[if b < i { b } else { b + 1 }]);
    }
    let m1 = pairs_to_map(t);
    let m2 = pairs_to_map(s).remove(k);
    assert forall|q: Seq<char>| m1.contains_key(q) <==> m2.contains_key(q) by {
        if has_key(t, q) {
            let j = choose|j: int| 0 <= j < t.len() && #[trigger] t[j].0 == q;
            let js = if j < i { j } else { j + 1 };
            assert(t[j] == s[js]);
            assert(s[js].0 == q);
            assert(js != i);
        }
        if has_key(s, q) && q != k {
            let j = choose|j: int| 0 <= j < s.len() && #[trigger] s[j].0 == q;
            assert(j != i);
            let jt = if j < i { j } else { j - 1 };
            assert(t[jt] == s[j]);
        }
    }
    assert forall|q: Seq<char>| m1.contains_key(q) implies m1[q] == m2[q] by {
        let j = choose|j: int| 0 <= j < t.len() && #[trigger] t[j].0 == q;
        let js = if j < i { j } else { j + 1 };
        assert(t[j] == s[js]);
        lemma_lookup(t, j);
        lemma_lookup(s, js);
    }
    assert(m1 =~= m2);
}

} // verus!
