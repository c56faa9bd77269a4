//! Every time a module that "keeps track of things" has an entry added,
//! removed, or changed, its generation number gets incremented. This allows
//! other modules to passively pick up on the fact that they may need to
//! update.

use vstd::prelude::*;

verus! {

/// Tracks generation numbers.
pub struct GenerationTracker {
    n: usize,
}

/// A particular value of a generation tracker at a particular time. If it
/// matches a tracker before and after an operation, then either our view of
/// the world was coherent during the whole operation, or the tracker is going
/// to be bumped later and we can try again.
#[derive(Clone, Copy, Debug, PartialEq, Eq, Structural)]
pub struct GenerationValue {
    n: usize,
}

/// The number that follows `n` in a tracker: counting wraps around at the
/// top of the machine word, as an atomic `fetch_add` does.
pub open spec fn next_generation(n: nat) -> nat {
    if n == usize::MAX as nat { 0 } else { n + 1 }
}

impl GenerationTracker {
    /// The tracker's current count.
    pub closed spec fn count(&self) -> nat {
        self.n as nat
    }

    /// Creates a new tracker whose count is that of `NOT_GENERATED` (zero).
    pub fn new() -> (t: GenerationTracker)
        ensures
            t.count() == 0,
    {
        GenerationTracker { n: 0 }
    }

    /// Indicate that updates have been completed, and a new, consistent state
    /// is now in place.
    pub fn bump(&mut self)
        ensures
            final(self).count() == next_generation(old(self).count()),
        no_unwind
    {
        self.n = if self.n == usize::MAX { 0 } else { self.n + 1 };
    }

    /// Get the current generation value.
    pub fn snapshot(&self) -> (v: GenerationValue)
        ensures
            v.value() == self.count(),
    {
        GenerationValue { n: self.n }
    }

    /// Return true if the given generation value is current.
    pub fn has_not_changed_since(&self, other: &GenerationValue) -> (b: bool)
        ensures
            b == (self.count() == other.value()),
    {
        self.n == other.n
    }
}

impl GenerationValue {
    /// The number this value holds.
    pub closed spec fn value(&self) -> nat {
        self.n as nat
    }

    /// The special value that indicates that nothing has been touched yet
    /// (zero).
    pub fn not_generated() -> (v: GenerationValue)
        ensures
            v.value() == 0,
    {
        GenerationValue { n: 0 }
    }

    /// Equivalent to assigning `not_generated()`; sets this value to one that
    /// no touched tracker will consider current.
    pub fn destroy(&mut self)
        ensures
            final(self).value() == 0,
    {
        *self = GenerationValue { n: 0 };
    }

    /// Two values are equal exactly when they hold the same number.
    pub proof fn lemma_eq_iff_value(a: GenerationValue, b: GenerationValue)
        ensures
            (a == b) <==> (a.value() == b.value()),
    {
    }
}

impl Default for GenerationValue {
    fn default() -> (v: GenerationValue)
        ensures
            v.value() == 0,
    {
        GenerationValue { n: 0 }
    }
}

/// A destroyed (or never generated) value is not current for any tracker
/// whose count is not zero, that is, one that was touched (and did not
/// count all the way around).
pub proof fn law_destroyed_value_is_stale(t: GenerationTracker, v: GenerationValue)
    requires
        v.value() == 0,
        t.count() != 0,
    ensures
        t.count() != v.value(),
{
}

/// The count of a tracker whose count was `n`, after `k` bumps.
pub open spec fn bumped(n: nat, k: nat) -> nat
    decreases k,
{
    if k == 0 { n } else { next_generation(bumped(n, (k - 1) as nat)) }
}

/// After `k` bumps (at least one, at most `usize::MAX`) the count has moved
/// on by `k`, wrapping past the top of the machine word.
proof fn lemma_bumped_value(n: nat, k: nat)
    requires
        n <= usize::MAX,
        0 < k <= usize::MAX,
    ensures
        bumped(n, k) as int == if n + k <= usize::MAX { (n + k) as int } else { n + k - (usize::MAX + 1) },
    decreases k,
{
    assert(bumped(n, k) == next_generation(bumped(n, (k - 1) as nat)));
    if k > 1 {
        lemma_bumped_value(n, (k - 1) as nat);
    } else {
        assert(bumped(n, 0) == n);
    }
}

/// A snapshot stays current while its tracker is not bumped, and is stale
/// once the tracker has been bumped any number of times from one up to
/// `usize::MAX` (only a full turn of the counter could bring it back).
pub proof fn law_bumps_invalidate_snapshot(t: GenerationTracker, v: GenerationValue, k: nat)
    requires
        t.count() == v.value(),
        k <= usize::MAX,
    ensures
        (bumped(t.count(), k) == v.value()) <==> (k == 0),
{
    if k > 0 {
        lemma_bumped_value(t.count(), k);
    }
}

} // verus!
