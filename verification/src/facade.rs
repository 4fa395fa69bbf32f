//! The two ways to read a treatment: silently, or observed.
//!
//! An observed read resolves as a silent one does, and counts one trigger
//! where the resolution found a treatment. Both are built from one generic
//! step, `observe`, which pairs any operation with a hook for its success.

use crate::metrics::{count_of, triggered, Counts, Metrics};
use crate::resolution::{get_treatment_with_override, resolution};
use crate::store::{answer_view, Answer, AssignmentStore, StoreView};
use vstd::prelude::*;

verus! {

/// The value that an operation came to, if it succeeded and found one.
pub open spec fn found<T, E>(result: Result<Option<T>, E>) -> Option<T> {
    match result {
        Ok(Some(value)) => Some(value),
        _ => None,
    }
}

/// Runs `op` and hands its result back unchanged. Where that result is a
/// value, `on_success` is called on it once, with `sink` to work on, and
/// whatever the hook returns is dropped: a hook that fails does not fail the
/// operation. Where `op` found nothing or failed, `on_success` is not called
/// and `sink` stays as it was.
pub fn observe<T, E, S, R, Op, Hook>(op: Op, on_success: Hook, sink: &mut S) -> (outcome: Result<Option<T>, E>)
    where
        Op: FnOnce() -> Result<Option<T>, E>,
        Hook: FnOnce(&mut S, &T) -> R,

    requires
        op.requires(()),
        forall|result: Result<Option<T>, E>, value: T, target: &mut S|
            #![trigger op.ensures((), result), on_success.requires((target, &value))]
            op.ensures((), result) && found(result) == Some(value) && *target == *old(sink)
                ==> on_success.requires((target, &value)),
    ensures
        op.ensures((), outcome),
        match outcome {
            Ok(Some(value)) => exists|target: &mut S, report: R|
                *target == *old(sink) && *final(target) == *final(sink) && on_success.ensures(
                    (target, &value),
                    report,
                ),
            _ => *final(sink) == *old(sink),
        },
{
    let outcome = op();
    match &outcome {
        Ok(Some(value)) => {
            on_success(sink, value);
        },
        _ => {},
    }
    outcome
}

/// The counts after an observed read in `experiment_id` that found `found`:
/// one trigger more for the treatment found, nothing where none was.
pub open spec fn counts_after(counts: Counts, experiment_id: i64, found: Option<Seq<char>>) -> Counts {
    match found {
        Some(treatment) => triggered(counts, (experiment_id, treatment)),
        None => counts,
    }
}

/// The silent read: the treatment of the user in the experiment, with
/// nothing counted. It fails where the store is out of reach, and only there.
pub fn get_treatment(store: &AssignmentStore, experiment_id: i64, user_id: &str) -> (outcome: Answer)
    requires
        store.wf(),
    ensures
        answer_view(outcome) == resolution(store@, (experiment_id, user_id@)),
{
    get_treatment_with_override(store, experiment_id, user_id)
}

/// The observed read: the treatment of the user in the experiment, as the
/// silent read gives it, and one trigger counted for it where there is one.
/// A read that fails or finds no treatment counts nothing.
pub fn get_treatment_and_trigger(
    store: &AssignmentStore,
    metrics: &mut Metrics,
    experiment_id: i64,
    user_id: &str,
) -> (outcome: Answer)
    requires
        store.wf(),
        old(metrics).wf(),
    ensures
        answer_view(outcome) == resolution(store@, (experiment_id, user_id@)),
        final(metrics).wf(),
        final(metrics)@ == counts_after(
            old(metrics)@,
            experiment_id,
            found(resolution(store@, (experiment_id, user_id@))),
        ),
{
    let silent = || -> (outcome: Answer)
        requires
            store.wf(),
        ensures
            answer_view(outcome) == resolution(store@, (experiment_id, user_id@)),
        { get_treatment(store, experiment_id, user_id) };
    let record = |metrics: &mut Metrics, treatment_id: &String|
        requires
            old(metrics).wf(),
        ensures
            final(metrics).wf(),
            final(metrics)@ == triggered(old(metrics)@, (experiment_id, treatment_id@)),
        { metrics.record_trigger(experiment_id, treatment_id.as_str()) };
    observe(silent, record, metrics)
}

/// One read through the facade, by the pair that it asks for.
pub enum Read {
    Silent { experiment_id: i64, user_id: Seq<char> },
    Observed { experiment_id: i64, user_id: Seq<char> },
}

/// The counts after one read against `store`. A silent read has no counter
/// to work on; an observed read counts what it resolves.
pub open spec fn counts_after_read(store: StoreView, counts: Counts, read: Read) -> Counts {
    match read {
        Read::Silent { .. } => counts,
        Read::Observed { experiment_id, user_id } => counts_after(
            counts,
            experiment_id,
            found(resolution(store, (experiment_id, user_id))),
        ),
    }
}

/// The counts after a run of reads against `store`, the first read first.
pub open spec fn counts_after_reads(store: StoreView, counts: Counts, reads: Seq<Read>) -> Counts
    decreases reads.len(),
{
    if reads.len() == 0 {
        counts
    } else {
        counts_after_read(store, counts_after_reads(store, counts, reads.drop_last()), reads.last())
    }
}

/// Silent reads count nothing: after any number of them every counter is
/// where it was.
pub proof fn lemma_silent_reads_count_nothing(store: StoreView, counts: Counts, reads: Seq<Read>)
    requires
        forall|i: int| 0 <= i < reads.len() ==> #[trigger] reads[i] is Silent,
    ensures
        counts_after_reads(store, counts, reads) == counts,
    decreases reads.len(),
{
    if reads.len() > 0 {
        lemma_silent_reads_count_nothing(store, counts, reads.drop_last());
    }
}

/// Whether `read` is an observed read that resolves, against `store`, to the
/// treatment and in the experiment that `key` names.
pub open spec fn triggers(store: StoreView, read: Read, key: (i64, Seq<char>)) -> bool {
    match read {
        Read::Silent { .. } => false,
        Read::Observed { experiment_id, user_id } => experiment_id == key.0 && found(
            resolution(store, (experiment_id, user_id)),
        ) == Some(key.1),
    }
}

/// How many reads of the run trigger `key`.
pub open spec fn triggers_in(store: StoreView, reads: Seq<Read>, key: (i64, Seq<char>)) -> nat
    decreases reads.len(),
{
    if reads.len() == 0 {
        0
    } else {
        triggers_in(store, reads.drop_last(), key) + if triggers(store, reads.last(), key) {
            1nat
        } else {
            0nat
        }
    }
}

/// The count that `counts` holds for `key`, zero where it has no counter.
pub open spec fn count_or_zero(counts: Counts, key: (i64, Seq<char>)) -> nat {
    match count_of(counts, key) {
        Some(count) => count as nat,
        None => 0,
    }
}

/// Over any run of reads, each observed read that resolves to a treatment is
/// counted once for it and for nothing else: a counter ends at what it held
/// plus the number of reads that trigger it, and a label pair that no read
/// triggers is left as it was, with or without a counter. Runs that would
/// take the counter past `u64::MAX` are left out.
pub proof fn lemma_reads_count_each_trigger_once(
    store: StoreView,
    counts: Counts,
    reads: Seq<Read>,
    key: (i64, Seq<char>),
)
    requires
        count_or_zero(counts, key) + triggers_in(store, reads, key) <= u64::MAX,
    ensures
        triggers_in(store, reads, key) == 0 ==> count_of(counts_after_reads(store, counts, reads), key) == count_of(
            counts,
            key,
        ),
        triggers_in(store, reads, key) > 0 ==> count_of(counts_after_reads(store, counts, reads), key) == Some(
            (count_or_zero(counts, key) + triggers_in(store, reads, key)) as u64,
        ),
    decreases reads.len(),
{
    if reads.len() > 0 {
        lemma_reads_count_each_trigger_once(store, counts, reads.drop_last(), key);
    }
}

/// No read takes a counter away.
pub proof fn lemma_reads_keep_counters(store: StoreView, counts: Counts, reads: Seq<Read>, key: (i64, Seq<char>))
    requires
        counts.contains_key(key),
    ensures
        counts_after_reads(store, counts, reads).contains_key(key),
    decreases reads.len(),
{
    if reads.len() > 0 {
        lemma_reads_keep_counters(store, counts, reads.drop_last(), key);
    }
}

/// An observed read that resolves to a treatment moves the counter of that
/// treatment in that experiment up by exactly one, from zero where it did not
/// exist, and leaves every other counter as it was. A counter that stands at
/// `u64::MAX` is left out: it wraps to zero.
pub proof fn lemma_observed_read_counts_once(counts: Counts, experiment_id: i64, treatment: Seq<char>)
    requires
        count_of(counts, (experiment_id, treatment)) != Some(u64::MAX),
    ensures
        count_of(counts_after(counts, experiment_id, Some(treatment)), (experiment_id, treatment)) == Some(
            (count_or_zero(counts, (experiment_id, treatment)) + 1) as u64,
        ),
        forall|other: (i64, Seq<char>)|
            other != (experiment_id, treatment) ==> count_of(
                counts_after(counts, experiment_id, Some(treatment)),
                other,
            ) == count_of(counts, other),
{
}

/// An observed read that resolves to nothing counts nothing.
pub proof fn lemma_empty_read_counts_nothing(counts: Counts, experiment_id: i64)
    ensures
        counts_after(counts, experiment_id, None) == counts,
{
}

} // verus!
