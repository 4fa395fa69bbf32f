//! Resolution: the one treatment that holds for a user in an experiment.
//!
//! An override wins over the base assignment. A resolution therefore reads
//! the override partition first, and the base partition only where the
//! override partition holds nothing for the pair. A read that fails ends the
//! resolution with the failure: a store that could not answer is never taken
//! for a pair without an override.
//!
//! The resolution is written as a state machine that asks for one read at a
//! time, so that whoever holds the store can do the reads:
//! `Resolution::start`, then one `advance` for each answer, until nothing is
//! pending.

use crate::store::{
    answer_view, answered, Answer, AnswerView, AssignmentStore, Partition, StorageUnavailable, StoreView,
};
use vstd::prelude::*;

verus! {

/// The treatment that a store resolves for a pair: the override where there
/// is one, else the base assignment, else none.
pub open spec fn resolved(store: StoreView, key: (i64, Seq<char>)) -> Option<Seq<char>> {
    match store.lookup(Partition::Override, key) {
        Some(treatment) => Some(treatment),
        None => store.lookup(Partition::Base, key),
    }
}

/// What a resolution against `store` comes to: the treatment resolved, or a
/// failure where the store is out of reach.
pub open spec fn resolution(store: StoreView, key: (i64, Seq<char>)) -> AnswerView {
    if store.available {
        answered(resolved(store, key))
    } else {
        Err(StorageUnavailable)
    }
}

/// Where a resolution stands.
#[derive(Debug, PartialEq, Eq)]
pub enum Resolution {
    /// The override partition has to be read.
    CheckOverride,
    /// The override partition held nothing: the base partition has to be read.
    CheckBase,
    /// The resolution has ended, with this result.
    Resolved(Answer),
}

/// What a `Resolution` stands for.
pub enum ResolutionView {
    CheckOverride,
    CheckBase,
    Resolved(AnswerView),
}

impl View for Resolution {
    type V = ResolutionView;

    open spec fn view(&self) -> ResolutionView {
        match self {
            Resolution::CheckOverride => ResolutionView::CheckOverride,
            Resolution::CheckBase => ResolutionView::CheckBase,
            Resolution::Resolved(outcome) => ResolutionView::Resolved(answer_view(*outcome)),
        }
    }
}

impl ResolutionView {
    /// The partition whose answer the resolution waits for, if it has not
    /// ended.
    pub open spec fn pending(self) -> Option<Partition> {
        match self {
            ResolutionView::CheckOverride => Some(Partition::Override),
            ResolutionView::CheckBase => Some(Partition::Base),
            ResolutionView::Resolved(_) => None,
        }
    }

    /// The state after the pending partition gave `answer`. An override that
    /// was found ends the resolution; a missing one sends it on to the base
    /// partition, whose answer ends it; a failed read ends it with the
    /// failure. A resolution that has ended stays as it is.
    pub open spec fn advance(self, answer: AnswerView) -> ResolutionView {
        match self {
            ResolutionView::CheckOverride => match answer {
                Ok(None) => ResolutionView::CheckBase,
                _ => ResolutionView::Resolved(answer),
            },
            ResolutionView::CheckBase => ResolutionView::Resolved(answer),
            ResolutionView::Resolved(outcome) => ResolutionView::Resolved(outcome),
        }
    }

    /// The result, once the resolution has ended.
    pub open spec fn outcome(self) -> Option<AnswerView> {
        match self {
            ResolutionView::Resolved(outcome) => Some(outcome),
            _ => None,
        }
    }

    /// The state after the pending partition, if any, was read from `store`.
    pub open spec fn read_from(self, store: StoreView, key: (i64, Seq<char>)) -> ResolutionView {
        match self.pending() {
            Some(partition) => self.advance(store.read(partition, key)),
            None => self,
        }
    }

    /// How many reads the resolution may still ask for.
    pub open spec fn reads_left(self) -> nat {
        match self {
            ResolutionView::CheckOverride => 2,
            ResolutionView::CheckBase => 1,
            ResolutionView::Resolved(_) => 0,
        }
    }
}

impl Resolution {
    /// A resolution at its start: the override partition is read first.
    pub fn start() -> (state: Resolution)
        ensures
            state@ == ResolutionView::CheckOverride,
    {
        Resolution::CheckOverride
    }

    /// The partition that has to be read next, or `None` once the resolution
    /// has ended.
    pub fn pending(&self) -> (partition: Option<Partition>)
        ensures
            partition == self@.pending(),
    {
        match self {
            Resolution::CheckOverride => Some(Partition::Override),
            Resolution::CheckBase => Some(Partition::Base),
            Resolution::Resolved(_) => None,
        }
    }

    /// Takes the answer of the pending partition and moves on.
    pub fn advance(self, answer: Answer) -> (next: Resolution)
        ensures
            next@ == self@.advance(answer_view(answer)),
    {
        match self {
            Resolution::CheckOverride => match answer {
                Ok(None) => Resolution::CheckBase,
                ended => Resolution::Resolved(ended),
            },
            Resolution::CheckBase => Resolution::Resolved(answer),
            Resolution::Resolved(outcome) => Resolution::Resolved(outcome),
        }
    }

    /// The result of a resolution that has ended, `None` of one that has not.
    pub fn outcome(self) -> (outcome: Option<Answer>)
        ensures
            match outcome {
                Some(result) => self@.outcome() == Some(answer_view(result)),
                None => self@.outcome().is_none(),
            },
    {
        match self {
            Resolution::Resolved(outcome) => Some(outcome),
            _ => None,
        }
    }
}

/// Resolves the treatment of the user in the experiment from a store in
/// memory: the override where the pair has one, else the base assignment. It
/// fails where the store is out of reach, and only there.
pub fn get_treatment_with_override(store: &AssignmentStore, experiment_id: i64, user_id: &str) -> (outcome: Answer)
    requires
        store.wf(),
    ensures
        answer_view(outcome) == resolution(store@, (experiment_id, user_id@)),
{
    let ghost key = (experiment_id, user_id@);
    let mut state = Resolution::start();
    let mut pending = state.pending();
    while pending.is_some()
        invariant
            store.wf(),
            key == (experiment_id, user_id@),
            pending == state@.pending(),
            state@ == ResolutionView::CheckOverride || (state@ == ResolutionView::CheckBase && store@.read(
                Partition::Override,
                key,
            ) == answered(None)) || state@ == ResolutionView::Resolved(resolution(store@, key)),
        decreases state@.reads_left(),
    {
        let answer = store.lookup(pending.unwrap(), experiment_id, user_id);
        state = state.advance(answer);
        pending = state.pending();
    }
    state.outcome().unwrap()
}

/// An override wins: where the override partition holds a treatment for the
/// pair, that treatment is resolved, whatever the base partition holds.
pub proof fn lemma_override_wins(store: StoreView, key: (i64, Seq<char>), treatment: Seq<char>)
    requires
        store.available,
        store.lookup(Partition::Override, key) == Some(treatment),
    ensures
        resolution(store, key) == answered(Some(treatment)),
{
}

/// Without an override the base assignment holds.
pub proof fn lemma_base_fallback(store: StoreView, key: (i64, Seq<char>), treatment: Seq<char>)
    requires
        store.available,
        store.lookup(Partition::Override, key).is_none(),
        store.lookup(Partition::Base, key) == Some(treatment),
    ensures
        resolution(store, key) == answered(Some(treatment)),
{
}

/// A pair with neither an override nor a base assignment resolves to none.
pub proof fn lemma_no_assignment(store: StoreView, key: (i64, Seq<char>))
    requires
        store.available,
        store.lookup(Partition::Override, key).is_none(),
        store.lookup(Partition::Base, key).is_none(),
    ensures
        resolution(store, key) == answered(None),
{
}

/// A resolution whose reads are answered by `store` ends after at most two of
/// them with what the store resolves. Where the pair has an override, or the
/// store is out of reach, it ends after the first: the base partition is
/// never asked.
pub proof fn lemma_reads_resolve(store: StoreView, key: (i64, Seq<char>))
    ensures
        ResolutionView::CheckOverride.read_from(store, key).read_from(store, key) == ResolutionView::Resolved(
            resolution(store, key),
        ),
        !store.available || store.lookup(Partition::Override, key).is_some()
            ==> ResolutionView::CheckOverride.read_from(store, key) == ResolutionView::Resolved(
            resolution(store, key),
        ),
        store.available && store.lookup(Partition::Override, key).is_none() ==> ResolutionView::CheckOverride.read_from(
            store,
            key,
        ) == ResolutionView::CheckBase,
{
}

/// A read that fails ends the resolution with the failure, from either
/// partition.
pub proof fn lemma_failure_ends(state: ResolutionView, unavailable: StorageUnavailable)
    requires
        state.pending().is_some(),
    ensures
        state.advance(Err(unavailable)) == ResolutionView::Resolved(Err(unavailable)),
{
}

} // verus!
