//! The streaming engines.  Both own a per-run seed and an accumulating set
//! of fingerprints (never evicted), decide record by record, and report at
//! the end how many records and how many distinct fingerprints they saw.
//!
//! The dedup engine keeps the first occurrence of each fingerprint.  The
//! disjoin engine works in two strictly sequential phases: first the remove
//! stream is drained completely into a fingerprint set, then the keep stream
//! is filtered against that completed set.

use std::collections::HashSet;
use vstd::prelude::*;

use crate::fingerprint::{fingerprints_of, hash_sentence, xxh64_of};

verus! {

broadcast use vstd::std_specs::hash::group_hash_axioms;

/// End-of-phase counts: how many records a phase consumed, and how many
/// distinct fingerprints it saw among them.
#[derive(Clone, Copy, Debug, PartialEq, Eq, Structural)]
pub struct Report {
    pub total: usize,
    pub unique: usize,
}

/// Order-preserving first-occurrence filtering of a single stream: a record
/// is kept exactly when its fingerprint was not seen earlier in the run.
pub struct DedupEngine {
    seed: u64,
    seen: HashSet<u64>,
    total: usize,
    history: Ghost<Seq<Seq<char>>>,
}

impl DedupEngine {
    /// The run's hash seed, fixed at construction.
    pub closed spec fn seed(self) -> u64 {
        self.seed
    }

    /// The texts of every record the engine has consumed, in input order.
    pub closed spec fn history(self) -> Seq<Seq<char>> {
        self.history@
    }

    /// The engine's invariant: the fingerprint set holds exactly the
    /// fingerprints of the records consumed so far, and the record counter
    /// their number.
    pub closed spec fn inv(self) -> bool {
        &&& self.seen@ == fingerprints_of(self.seed, self.history@)
        &&& self.total == self.history@.len()
    }

    /// A fresh engine: empty fingerprint set, nothing consumed.
    pub fn new(seed: u64) -> (engine: Self)
        ensures
            engine.inv(),
            engine.seed() == seed,
            engine.history() == Seq::<Seq<char>>::empty(),
    {
        DedupEngine { seed, seen: HashSet::new(), total: 0, history: Ghost(Seq::empty()) }
    }

    /// How many records the engine has consumed.
    pub fn records_seen(&self) -> (n: usize)
        requires
            self.inv(),
        ensures
            n == self.history().len(),
    {
        self.total
    }

    /// Consume one record: keep it exactly when its fingerprint is absent
    /// from everything consumed before, then remember the fingerprint.
    pub fn process(&mut self, record: &str) -> (keep: bool)
        requires
            old(self).inv(),
            old(self).history().len() < usize::MAX,
        ensures
            final(self).inv(),
            final(self).seed() == old(self).seed(),
            final(self).history() == old(self).history().push(record@),
            keep == !fingerprints_of(old(self).seed(), old(self).history()).contains(
                xxh64_of(old(self).seed(), record@),
            ),
    {
        let fp = hash_sentence(record, self.seed);
        let keep = !self.seen.contains(&fp);
        if keep {
            self.seen.insert(fp);
        }
        self.total = self.total + 1;
        proof {
            self.history@ = self.history@.push(record@);
            assert(self.history@.drop_last() =~= old(self).history@);
            assert(self.history@.last() == record@);
            if !keep {
                assert(self.seen@ =~= old(self).seen@.insert(fp));
            }
        }
        keep
    }

    /// The terminal report: total records consumed, distinct fingerprints
    /// among them.
    pub fn report(&self) -> (r: Report)
        requires
            self.inv(),
        ensures
            r.total == self.history().len(),
            r.unique == fingerprints_of(self.seed(), self.history()).len(),
    {
        Report { total: self.total, unique: self.seen.len() }
    }
}

/// Two-phase streaming set difference: phase one drains the remove stream
/// into a fingerprint set; phase two filters the keep stream against that
/// completed set.  Phase two never starts before phase one is sealed.
pub struct DisjoinEngine {
    seed: u64,
    remove: HashSet<u64>,
    remove_total: usize,
    keep_seen: HashSet<u64>,
    keep_total: usize,
    filtering: bool,
    remove_history: Ghost<Seq<Seq<char>>>,
    keep_history: Ghost<Seq<Seq<char>>>,
}

impl DisjoinEngine {
    /// The run's hash seed, fixed at construction.
    pub closed spec fn seed(self) -> u64 {
        self.seed
    }

    /// The texts of every remove-stream record consumed, in input order.
    pub closed spec fn remove_history(self) -> Seq<Seq<char>> {
        self.remove_history@
    }

    /// The texts of every keep-stream record consumed, in input order.
    pub closed spec fn keep_history(self) -> Seq<Seq<char>> {
        self.keep_history@
    }

    /// Whether the remove phase is sealed and the engine filters the keep
    /// stream.
    pub closed spec fn filtering(self) -> bool {
        self.filtering
    }

    /// The engine's invariant: each fingerprint set holds exactly the
    /// fingerprints of its phase's records, the counters their numbers, and
    /// no keep record is consumed before the remove phase is sealed.
    pub closed spec fn inv(self) -> bool {
        &&& self.remove@ == fingerprints_of(self.seed, self.remove_history@)
        &&& self.remove_total == self.remove_history@.len()
        &&& self.keep_seen@ == fingerprints_of(self.seed, self.keep_history@)
        &&& self.keep_total == self.keep_history@.len()
        &&& !self.filtering ==> self.keep_history@.len() == 0
    }

    /// A fresh engine in the remove phase, both sets empty.
    pub fn new(seed: u64) -> (engine: Self)
        ensures
            engine.inv(),
            engine.seed() == seed,
            !engine.filtering(),
            engine.remove_history() == Seq::<Seq<char>>::empty(),
            engine.keep_history() == Seq::<Seq<char>>::empty(),
    {
        DisjoinEngine {
            seed,
            remove: HashSet::new(),
            remove_total: 0,
            keep_seen: HashSet::new(),
            keep_total: 0,
            filtering: false,
            remove_history: Ghost(Seq::empty()),
            keep_history: Ghost(Seq::empty()),
        }
    }

    /// How many remove-stream records the engine has consumed.
    pub fn remove_records_seen(&self) -> (n: usize)
        requires
            self.inv(),
        ensures
            n == self.remove_history().len(),
    {
        self.remove_total
    }

    /// How many keep-stream records the engine has consumed.
    pub fn keep_records_seen(&self) -> (n: usize)
        requires
            self.inv(),
        ensures
            n == self.keep_history().len(),
    {
        self.keep_total
    }

    /// Phase one: consume one remove-stream record, adding its fingerprint
    /// to the remove set.
    pub fn push_remove(&mut self, record: &str)
        requires
            old(self).inv(),
            !old(self).filtering(),
            old(self).remove_history().len() < usize::MAX,
        ensures
            final(self).inv(),
            !final(self).filtering(),
            final(self).seed() == old(self).seed(),
            final(self).remove_history() == old(self).remove_history().push(record@),
            final(self).keep_history() == old(self).keep_history(),
    {
        let fp = hash_sentence(record, self.seed);
        if !self.remove.contains(&fp) {
            self.remove.insert(fp);
        }
        self.remove_total = self.remove_total + 1;
        proof {
            self.remove_history@ = self.remove_history@.push(record@);
            assert(self.remove_history@.drop_last() =~= old(self).remove_history@);
            if fingerprints_of(self.seed, old(self).remove_history@).contains(fp) {
                assert(self.remove@ =~= old(self).remove@.insert(fp));
            }
        }
    }

    /// Seal the remove phase and report it: total remove records consumed,
    /// distinct fingerprints among them.  Only after this may the keep
    /// stream be filtered, since filtering depends on the set being complete.
    pub fn finish_remove(&mut self) -> (r: Report)
        requires
            old(self).inv(),
            !old(self).filtering(),
        ensures
            final(self).inv(),
            final(self).filtering(),
            final(self).seed() == old(self).seed(),
            final(self).remove_history() == old(self).remove_history(),
            final(self).keep_history() == old(self).keep_history(),
            r.total == old(self).remove_history().len(),
            r.unique == fingerprints_of(old(self).seed(), old(self).remove_history()).len(),
    {
        self.filtering = true;
        Report { total: self.remove_total, unique: self.remove.len() }
    }

    /// Phase two: consume one keep-stream record; keep it exactly when its
    /// fingerprint is absent from the completed remove set.  Duplicates
    /// within the keep stream are not filtered; its distinct fingerprints
    /// are tracked for reporting only.
    pub fn push_keep(&mut self, record: &str) -> (keep: bool)
        requires
            old(self).inv(),
            old(self).filtering(),
            old(self).keep_history().len() < usize::MAX,
        ensures
            final(self).inv(),
            final(self).filtering(),
            final(self).seed() == old(self).seed(),
            final(self).remove_history() == old(self).remove_history(),
            final(self).keep_history() == old(self).keep_history().push(record@),
            keep == !fingerprints_of(old(self).seed(), old(self).remove_history()).contains(
                xxh64_of(old(self).seed(), record@),
            ),
    {
        let fp = hash_sentence(record, self.seed);
        let keep = !self.remove.contains(&fp);
        if !self.keep_seen.contains(&fp) {
            self.keep_seen.insert(fp);
        }
        self.keep_total = self.keep_total + 1;
        proof {
            self.keep_history@ = self.keep_history@.push(record@);
            assert(self.keep_history@.drop_last() =~= old(self).keep_history@);
            if fingerprints_of(self.seed, old(self).keep_history@).contains(fp) {
                assert(self.keep_seen@ =~= old(self).keep_seen@.insert(fp));
            }
        }
        keep
    }

    /// The keep-phase report: total keep records consumed, distinct
    /// fingerprints among them.
    pub fn keep_report(&self) -> (r: Report)
        requires
            self.inv(),
        ensures
            r.total == self.keep_history().len(),
            r.unique == fingerprints_of(self.seed(), self.keep_history()).len(),
    {
        Report { total: self.keep_total, unique: self.keep_seen.len() }
    }
}

} // verus!
