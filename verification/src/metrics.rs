//! Trigger counters: how often each treatment of each experiment was acted upon.
//!
//! The counters live in a counter family of the metrics client. This module
//! states what the family holds as a map from label pairs to counts, and keeps
//! beside it the label pairs in the order of their first trigger, so that all
//! counters can be listed.

use prometheus_client::metrics::counter::Counter;
use prometheus_client::metrics::family::Family;
use vstd::prelude::*;

verus! {

/// What a set of trigger counters holds: a count for each label pair that was
/// triggered at least once, keyed by experiment and treatment.
pub type Counts = Map<(i64, Seq<char>), u64>;

/// The label pair that names one trigger counter.
#[derive(Debug, Hash, PartialEq, Eq)]
pub struct Labels {
    pub experiment_id: i64,
    pub treatment_id: String,
}

impl Clone for Labels {
    fn clone(&self) -> (copy: Labels)
        ensures
            copy@ == self@,
    {
        Labels { experiment_id: self.experiment_id, treatment_id: self.treatment_id.clone() }
    }
}

impl View for Labels {
    type V = (i64, Seq<char>);

    open spec fn view(&self) -> (i64, Seq<char>) {
        (self.experiment_id, self.treatment_id@)
    }
}

/// The count held for `key`, if a counter exists for it.
pub open spec fn count_of(counts: Counts, key: (i64, Seq<char>)) -> Option<u64> {
    if counts.contains_key(key) {
        Some(counts[key])
    } else {
        None
    }
}

/// The count that follows `count`. A counter is 64 bits wide and wraps to zero
/// after `u64::MAX`.
pub open spec fn next_count(count: u64) -> u64 {
    if count == u64::MAX {
        0
    } else {
        (count + 1) as u64
    }
}

/// The counts after one trigger for `key`: its counter is created at one, or
/// moves to the next count; every other counter stays.
pub open spec fn triggered(counts: Counts, key: (i64, Seq<char>)) -> Counts {
    counts.insert(
        key,
        match count_of(counts, key) {
            Some(count) => next_count(count),
            None => 1,
        },
    )
}

/// Whether `rows` lists `counts` in full: each row carries the count of its
/// label pair, no label pair comes twice, and no counter is left out.
pub open spec fn lists_all(rows: Seq<(Labels, u64)>, counts: Counts) -> bool {
    &&& forall|i: int| 0 <= i < rows.len() ==> count_of(counts, (#[trigger] rows[i]).0@) == Some(rows[i].1)
    &&& forall|i: int, j: int| 0 <= i < j < rows.len() ==> (#[trigger] rows[i]).0@ != (#[trigger] rows[j]).0@
    &&& forall|key: (i64, Seq<char>)| #[trigger]
        counts.contains_key(key) ==> exists|i: int| 0 <= i < rows.len() && (#[trigger] rows[i]).0@ == key
}

/// The counter family of the metrics client, with one counter per pair of
/// experiment and treatment. Verus sees nothing inside it.
#[verifier::external_body]
#[derive(Debug)]
pub struct TriggerCounters {
    family: Family<(i64, String), Counter>,
}

/// The counts that a counter family holds.
pub uninterp spec fn held_counts(counters: TriggerCounters) -> Map<(i64, Seq<char>), u64>;

/// Calls `Family::default`: a new family holds no counter.
#[verifier::external_body]
fn counters_new() -> (fresh: TriggerCounters)
    ensures
        held_counts(fresh) == Counts::empty(),
{
    TriggerCounters { family: Family::default() }
}

/// Calls `Family::get` and, on the counter found, `Counter::get`: the current
/// count of the pair, or `None` where the family has no counter for it. The
/// family is not changed.
#[verifier::external_body]
fn counters_get(counters: &TriggerCounters, experiment_id: i64, treatment_id: &str) -> (count: Option<u64>)
    ensures
        count == count_of(held_counts(*counters), (experiment_id, treatment_id@)),
{
    match counters.family.get(&(experiment_id, treatment_id.to_string())) {
        Some(counter) => Some(counter.get()),
        None => None,
    }
}

/// Calls `Family::get_or_create` and, on the counter it hands out,
/// `Counter::inc`. A missing counter is created at zero first; the counter
/// then moves up by one with an atomic add, which wraps at `u64::MAX`. No
/// other counter of the family is touched.
#[verifier::external_body]
fn counters_inc(counters: &mut TriggerCounters, experiment_id: i64, treatment_id: &str)
    ensures
        held_counts(*final(counters)) == triggered(held_counts(*old(counters)), (experiment_id, treatment_id@)),
{
    counters.family.get_or_create(&(experiment_id, treatment_id.to_string())).inc();
}

/// The trigger counters of a process: one counter per label pair, created at
/// the first trigger for it.
#[derive(Debug)]
pub struct Metrics {
    triggers: TriggerCounters,
    seen: Vec<Labels>,
}

impl View for Metrics {
    type V = Map<(i64, Seq<char>), u64>;

    closed spec fn view(&self) -> Map<(i64, Seq<char>), u64> {
        held_counts(self.triggers)
    }
}

impl Metrics {
    /// The label pairs listed are exactly those that have a counter, each once.
    pub closed spec fn wf(&self) -> bool {
        &&& forall|i: int, j: int|
            0 <= i < j < self.seen.len() ==> (#[trigger] self.seen[i])@ != (#[trigger] self.seen[j])@
        &&& forall|i: int|
            0 <= i < self.seen.len() ==> held_counts(self.triggers).contains_key((#[trigger] self.seen[i])@)
        &&& forall|key: (i64, Seq<char>)| #[trigger]
            held_counts(self.triggers).contains_key(key) ==> exists|i: int|
                0 <= i < self.seen.len() && (#[trigger] self.seen[i])@ == key
    }

    /// Counters of a process that has recorded no trigger yet.
    pub fn new() -> (metrics: Metrics)
        ensures
            metrics.wf(),
            metrics@ == Counts::empty(),
    {
        Metrics { triggers: counters_new(), seen: Vec::new() }
    }

    /// Counts one trigger of `treatment_id` in `experiment_id`.
    pub fn record_trigger(&mut self, experiment_id: i64, treatment_id: &str)
        requires
            old(self).wf(),
        ensures
            final(self).wf(),
            final(self)@ == triggered(old(self)@, (experiment_id, treatment_id@)),
    {
        let ghost before = held_counts(self.triggers);
        let ghost listed = self.seen@;
        let known = counters_get(&self.triggers, experiment_id, treatment_id);
        counters_inc(&mut self.triggers, experiment_id, treatment_id);
        if known.is_none() {
            self.seen.push(Labels { experiment_id, treatment_id: treatment_id.to_owned() });
        }
        proof {
            assert forall|key: (i64, Seq<char>)| #[trigger]
                held_counts(self.triggers).contains_key(key) implies exists|i: int|
                0 <= i < self.seen.len() && (#[trigger] self.seen[i])@ == key by {
                if before.contains_key(key) {
                    let i = choose|i: int| 0 <= i < listed.len() && (#[trigger] listed[i])@ == key;
                    assert(self.seen[i]@ == key);
                } else {
                    assert(self.seen[listed.len() as int]@ == key);
                }
            }
        }
    }

    /// The current count for a label pair, or `None` where it was never
    /// triggered.
    pub fn count(&self, experiment_id: i64, treatment_id: &str) -> (count: Option<u64>)
        ensures
            count == count_of(self@, (experiment_id, treatment_id@)),
    {
        counters_get(&self.triggers, experiment_id, treatment_id)
    }

    /// All counters as they stand, one row per label pair.
    pub fn snapshot(&self) -> (rows: Vec<(Labels, u64)>)
        requires
            self.wf(),
        ensures
            lists_all(rows@, self@),
    {
        let mut rows: Vec<(Labels, u64)> = Vec::new();
        let mut next: usize = 0;
        while next < self.seen.len()
            invariant
                self.wf(),
                next <= self.seen.len(),
                rows.len() == next,
                forall|i: int|
                    0 <= i < next ==> (#[trigger] rows[i]).0@ == self.seen[i]@ && count_of(self@, rows[i].0@)
                        == Some(rows[i].1),
            decreases self.seen.len() - next,
        {
            let labels = &self.seen[next];
            let count = counters_get(&self.triggers, labels.experiment_id, labels.treatment_id.as_str());
            rows.push((labels.clone(), count.unwrap()));
            next += 1;
        }
        proof {
            assert forall|key: (i64, Seq<char>)| #[trigger] self@.contains_key(key) implies exists|i: int|
                0 <= i < rows.len() && (#[trigger] rows[i]).0@ == key by {
                let i = choose|i: int| 0 <= i < self.seen.len() && (#[trigger] self.seen[i])@ == key;
                assert(rows[i].0@ == key);
            }
        }
        rows
    }
}

} // verus!
