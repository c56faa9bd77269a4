//! Keeps track of errors that have occurred "in the background", i.e. not as a
//! direct, immediate result of user action, such as audio API errors and
//! errors during a metadata scan. Errors are grouped by the part of the
//! program they came from, and every change bumps a generation counter so
//! that the user interface can notice it.

use vstd::prelude::*;
use crate::text::copy_strings;
use crate::generation::{GenerationTracker, GenerationValue, next_generation};
use crate::pairs::{Pairs, has_key, keys_unique, pairs_to_map, lemma_lookup, lemma_push_new, lemma_update, lemma_remove};

verus! {

/// The characters of each string, in order.
pub open spec fn strings_view(v: Seq<String>) -> Seq<Seq<char>> {
    v.map_values(|s: String| s@)
}

/// The view of a list of (source, messages) entries.
pub open spec fn sources_view(v: Seq<(String, Vec<String>)>) -> Pairs<Seq<Seq<char>>> {
    v.map_values(|e: (String, Vec<String>)| (e.0@, strings_view(e.1@)))
}

/// The messages recorded for `whom`, or none.
pub open spec fn messages_of(m: Map<Seq<char>, Seq<Seq<char>>>, whom: Seq<char>) -> Seq<Seq<char>> {
    if m.contains_key(whom) { m[whom] } else { Seq::empty() }
}

/// The background error log: for each source, the messages it reported, in
/// order, together with a generation tracker.
pub struct ErrorLog {
    sources: Vec<(String, Vec<String>)>,
    tracker: GenerationTracker,
}

impl View for ErrorLog {
    type V = Map<Seq<char>, Seq<Seq<char>>>;

    closed spec fn view(&self) -> Map<Seq<char>, Seq<Seq<char>>> {
        pairs_to_map(sources_view(self.sources@))
    }
}

impl ErrorLog {
    #[verifier::type_invariant]
    spec fn inv(&self) -> bool {
        keys_unique(sources_view(self.sources@))
    }

    /// The generation number of the log.
    pub closed spec fn gen(&self) -> nat {
        self.tracker.count()
    }

    /// An empty log at generation zero.
    pub fn new() -> (log: ErrorLog)
        ensures
            log@ == Map::<Seq<char>, Seq<Seq<char>>>::empty(),
            log.gen() == 0,
    {
        let log = ErrorLog { sources: Vec::new(), tracker: GenerationTracker::new() };
        assert(log@ =~= Map::<Seq<char>, Seq<Seq<char>>>::empty());
        log
    }

    fn find(&self, whom: &str) -> (r: Option<usize>)
        ensures
            match r {
                Some(i) => i < self.sources.len() && self.sources@[i as int].0@ == whom@,
                None => !has_key(sources_view(self.sources@), whom@),
            },
    {
        let k: String = whom.to_owned();
        let mut i: usize = 0;
        while i < self.sources.len()
            invariant
                i <= self.sources.len(),
                k@ == whom@,
                forall|j: int| 0 <= j < i ==> self.sources@[j].0@ != whom@,
            decreases self.sources.len() - i,
        {
            if self.sources[i].0 == k {
                return Some(i);
            }
            i += 1;
        }
        let ghost s = sources_view(self.sources@);
        assert forall|j: int| 0 <= j < s.len() implies #[trigger] s[j].0 != whom@ by {
            assert(s[j].0 == self.sources@[j].0@);
        }
        None
    }
}

/// Forgets every error reported by `whom`. The generation is bumped if there
/// was anything to forget.
pub fn reset_from(log: &mut ErrorLog, whom: &str)
    ensures
        final(log)@ == old(log)@.remove(whom@),
        final(log).gen() == if old(log)@.contains_key(whom@) {
            next_generation(old(log).gen())
        } else {
            old(log).gen()
        },
{
    proof { use_type_invariant(&*log); }
    let ghost s = sources_view(log.sources@);
    match log.find(whom) {
        Some(i) => {
            proof {
                lemma_remove(s, i as int);
                lemma_lookup(s, i as int);
            }
            let mut e: Vec<(String, Vec<String>)> = Vec::new();
            std::mem::swap(&mut e, &mut log.sources);
            e.remove(i);
            proof {
                assert(sources_view(e@) =~= s.remove(i as int));
            }
            log.sources = e;
            log.tracker.bump();
        },
        None => {
            proof {
                assert(old(log)@ =~= old(log)@.remove(whom@));
            }
        },
    }
}

/// Records the error `wat` as reported by `whom`, after any earlier ones from
/// the same source, and bumps the generation.
pub fn from(log: &mut ErrorLog, whom: &str, wat: String)
    ensures
        final(log)@ == old(log)@.insert(whom@, messages_of(old(log)@, whom@).push(wat@)),
        final(log).gen() == next_generation(old(log).gen()),
{
    proof { use_type_invariant(&*log); }
    let ghost s = sources_view(log.sources@);
    match log.find(whom) {
        Some(i) => {
            proof {
                lemma_lookup(s, i as int);
            }
            let mut e: Vec<(String, Vec<String>)> = Vec::new();
            std::mem::swap(&mut e, &mut log.sources);
            let key = e[i].0.clone();
            let mut msgs = copy_strings(&e[i].1);
            let ghost wv = wat@;
            msgs.push(wat);
            proof {
                assert(strings_view(msgs@) =~= s[i as int].1.push(wv));
                lemma_update(s, i as int, strings_view(msgs@));
            }
            e.set(i, (key, msgs));
            proof {
                assert(sources_view(e@) =~= s.update(i as int, (s[i as int].0, strings_view(msgs@))));
            }
            log.sources = e;
        },
        None => {
            let ghost wv = wat@;
            let mut msgs: Vec<String> = Vec::new();
            msgs.push(wat);
            proof {
                assert(strings_view(msgs@) =~= Seq::<Seq<char>>::empty().push(wv));
                lemma_push_new(s, whom@, strings_view(msgs@));
            }
            let mut e: Vec<(String, Vec<String>)> = Vec::new();
            std::mem::swap(&mut e, &mut log.sources);
            e.push((whom.to_owned(), msgs));
            proof {
                assert(sources_view(e@) =~= s.push((whom@, strings_view(msgs@))));
            }
            log.sources = e;
        },
    }
    log.tracker.bump();
}

/// A copy of every recorded source and its messages. No source occurs twice,
/// and together they make up the log.
pub fn get(log: &ErrorLog) -> (r: Vec<(String, Vec<String>)>)
    ensures
        keys_unique(sources_view(r@)),
        pairs_to_map(sources_view(r@)) == log@,
{
    proof { use_type_invariant(log); }
    let mut r: Vec<(String, Vec<String>)> = Vec::new();
    let mut i: usize = 0;
    while i < log.sources.len()
        invariant
            i <= log.sources.len(),
            r@.len() == i,
            forall|j: int| 0 <= j < i ==> #[trigger] r@[j].0@ == log.sources@[j].0@ && r@[j].1@ == log.sources@[j].1@,
        decreases log.sources.len() - i,
    {
        let k = log.sources[i].0.clone();
        let m = copy_strings(&log.sources[i].1);
        r.push((k, m));
        i += 1;
    }
    assert(sources_view(r@) =~= sources_view(log.sources@));
    r
}

/// The log's current generation.
pub fn generation(log: &ErrorLog) -> (g: GenerationValue)
    ensures
        g.value() == log.gen(),
{
    log.tracker.snapshot()
}

/// If the log has changed since `than`, its current generation and contents;
/// otherwise nothing.
pub fn if_newer_than(log: &ErrorLog, than: &GenerationValue) -> (r: Option<(GenerationValue, Vec<(String, Vec<String>)>)>)
    ensures
        match r {
            None => log.gen() == than.value(),
            Some((g, v)) => {
                &&& log.gen() != than.value()
                &&& g.value() == log.gen()
                &&& keys_unique(sources_view(v@))
                &&& pairs_to_map(sources_view(v@)) == log@
            },
        },
{
    if log.tracker.has_not_changed_since(than) {
        None
    } else {
        Some((log.tracker.snapshot(), get(log)))
    }
}

/// Clears the log, unless it has changed since `than`. Clearing bumps the
/// generation.
pub fn clear_if_not_newer_than(log: &mut ErrorLog, than: &GenerationValue)
    ensures
        old(log).gen() == than.value() ==> {
            &&& final(log)@ == Map::<Seq<char>, Seq<Seq<char>>>::empty()
            &&& final(log).gen() == next_generation(old(log).gen())
        },
        old(log).gen() != than.value() ==> final(log)@ == old(log)@ && final(log).gen() == old(log).gen(),
{
    if !log.tracker.has_not_changed_since(than) {
        return;
    }
    log.sources = Vec::new();
    proof {
        assert(log@ =~= Map::<Seq<char>, Seq<Seq<char>>>::empty());
    }
    log.tracker.bump();
}

} // verus!
