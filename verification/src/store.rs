//! The assignment store held in memory.
//!
//! A store has two partitions, base assignments and overrides. Each maps a
//! pair of experiment and user to one treatment: a write replaces what the
//! pair had, and a delete of a pair that has nothing changes nothing. A store
//! can be taken out of reach: every read and write then fails with
//! `StorageUnavailable`, and nothing that it holds changes.

use vstd::prelude::*;

verus! {

/// What one partition holds: the treatment of each pair of experiment and
/// user that has one.
pub type Assignments = Map<(i64, Seq<char>), Seq<char>>;

/// The treatment that `assignments` holds for `key`, if any.
pub open spec fn assigned(assignments: Assignments, key: (i64, Seq<char>)) -> Option<Seq<char>> {
    if assignments.contains_key(key) {
        Some(assignments[key])
    } else {
        None
    }
}

/// What a treatment read from a partition stands for.
pub open spec fn treatment_view(treatment: Option<String>) -> Option<Seq<char>> {
    match treatment {
        Some(treatment_id) => Some(treatment_id@),
        None => None,
    }
}

/// The store could not be reached, or could not complete the operation.
#[derive(Clone, Copy, Debug, PartialEq, Eq, Structural)]
pub struct StorageUnavailable;

/// What a read of one partition, or a whole resolution, came to: a treatment,
/// none, or a store that could not answer.
pub type Answer = Result<Option<String>, StorageUnavailable>;

/// What a write or a delete came to.
pub type Written = Result<(), StorageUnavailable>;

/// What an `Answer` stands for.
pub type AnswerView = Result<Option<Seq<char>>, StorageUnavailable>;

/// What an answer stands for: its treatment as a sequence of characters.
pub open spec fn answer_view(answer: Answer) -> AnswerView {
    match answer {
        Ok(found) => Ok(treatment_view(found)),
        Err(unavailable) => Err(unavailable),
    }
}

/// The answer of a store that could be read and held `found` for the pair.
pub open spec fn answered(found: Option<Seq<char>>) -> AnswerView {
    Ok(found)
}

struct Row {
    experiment_id: i64,
    user_id: String,
    treatment_id: String,
}

impl Row {
    spec fn key(self) -> (i64, Seq<char>) {
        (self.experiment_id, self.user_id@)
    }
}

/// One partition of the store: at most one treatment per pair of experiment
/// and user.
pub struct AssignmentTable {
    rows: Vec<Row>,
}

impl View for AssignmentTable {
    type V = Map<(i64, Seq<char>), Seq<char>>;

    closed spec fn view(&self) -> Map<(i64, Seq<char>), Seq<char>> {
        Map::new(
            |key: (i64, Seq<char>)| exists|i: int| 0 <= i < self.rows.len() && (#[trigger] self.rows[i]).key() == key,
            |key: (i64, Seq<char>)|
                {
                    let at = choose|i: int| 0 <= i < self.rows.len() && (#[trigger] self.rows[i]).key() == key;
                    self.rows[at].treatment_id@
                },
        )
    }
}

impl AssignmentTable {
    /// No pair of experiment and user has two rows.
    pub closed spec fn wf(&self) -> bool {
        forall|i: int, j: int|
            0 <= i < j < self.rows.len() ==> (#[trigger] self.rows[i]).key() != (#[trigger] self.rows[j]).key()
    }

    /// Each row is held under its pair, with its treatment.
    proof fn lemma_rows_are_held(self)
        requires
            self.wf(),
        ensures
            forall|i: int|
                0 <= i < self.rows.len() ==> self@.contains_key((#[trigger] self.rows[i]).key())
                    && self@[self.rows[i].key()] == self.rows[i].treatment_id@,
    {
        assert forall|i: int| 0 <= i < self.rows.len() implies self@.contains_key((#[trigger] self.rows[i]).key())
            && self@[self.rows[i].key()] == self.rows[i].treatment_id@ by {
            let key = self.rows[i].key();
            let chosen = choose|j: int| 0 <= j < self.rows.len() && (#[trigger] self.rows[j]).key() == key;
            assert(chosen == i);
        }
    }

    /// A table holds `target` where each of its rows is in `target` and each
    /// pair of `target` has a row.
    proof fn lemma_holds(self, target: Assignments)
        requires
            self.wf(),
            forall|i: int|
                0 <= i < self.rows.len() ==> target.contains_key((#[trigger] self.rows[i]).key())
                    && target[self.rows[i].key()] == self.rows[i].treatment_id@,
            forall|key: (i64, Seq<char>)| #[trigger]
                target.contains_key(key) ==> exists|i: int|
                    0 <= i < self.rows.len() && (#[trigger] self.rows[i]).key() == key,
        ensures
            self@ == target,
    {
        self.lemma_rows_are_held();
        assert(self@ =~= target);
    }

    /// A table that holds nothing.
    pub fn new() -> (table: AssignmentTable)
        ensures
            table.wf(),
            table@ == Assignments::empty(),
    {
        let table = AssignmentTable { rows: Vec::new() };
        assert(table@ =~= Assignments::empty());
        table
    }

    /// The row that holds the pair, if there is one.
    fn position(&self, experiment_id: i64, user_id: &str) -> (at: Option<usize>)
        ensures
            match at {
                Some(i) => i < self.rows.len() && self.rows[i as int].key() == (experiment_id, user_id@),
                None => forall|i: int|
                    0 <= i < self.rows.len() ==> (#[trigger] self.rows[i]).key() != (experiment_id, user_id@),
            },
    {
        let wanted = user_id.to_owned();
        let mut next: usize = 0;
        while next < self.rows.len()
            invariant
                next <= self.rows.len(),
                wanted@ == user_id@,
                forall|i: int| 0 <= i < next ==> (#[trigger] self.rows[i]).key() != (experiment_id, user_id@),
            decreases self.rows.len() - next,
        {
            if self.rows[next].experiment_id == experiment_id && self.rows[next].user_id == wanted {
                return Some(next);
            }
            next += 1;
        }
        None
    }

    /// The treatment of the pair, if it has one. The table is not changed.
    pub fn get(&self, experiment_id: i64, user_id: &str) -> (found: Option<String>)
        requires
            self.wf(),
        ensures
            treatment_view(found) == assigned(self@, (experiment_id, user_id@)),
    {
        match self.position(experiment_id, user_id) {
            Some(at) => Some(self.rows[at].treatment_id.clone()),
            None => None,
        }
    }

    /// Gives the pair this treatment, in place of the one it had, if any.
    pub fn set(&mut self, experiment_id: i64, user_id: &str, treatment_id: &str)
        requires
            old(self).wf(),
        ensures
            final(self).wf(),
            final(self)@ == old(self)@.insert((experiment_id, user_id@), treatment_id@),
    {
        let row = Row { experiment_id, user_id: user_id.to_owned(), treatment_id: treatment_id.to_owned() };
        let ghost key = (experiment_id, user_id@);
        let ghost target = old(self)@.insert(key, treatment_id@);
        let place = self.position(experiment_id, user_id);
        proof {
            old(self).lemma_rows_are_held();
        }
        match place {
            Some(at) => {
                self.rows[at] = row;
            },
            None => {
                self.rows.push(row);
            },
        }
        proof {
            let written = match place {
                Some(at) => at as int,
                None => old(self).rows.len() as int,
            };
            assert forall|other: (i64, Seq<char>)| #[trigger] target.contains_key(other) implies exists|i: int|
                0 <= i < self.rows.len() && (#[trigger] self.rows[i]).key() == other by {
                if other == key {
                    assert(self.rows[written].key() == other);
                } else {
                    let i = choose|i: int|
                        0 <= i < old(self).rows.len() && (#[trigger] old(self).rows[i]).key() == other;
                    assert(self.rows[i].key() == other);
                }
            }
            self.lemma_holds(target);
        }
    }

    /// Takes the pair's treatment away. A pair that has none is left as it is.
    pub fn delete(&mut self, experiment_id: i64, user_id: &str)
        requires
            old(self).wf(),
        ensures
            final(self).wf(),
            final(self)@ == old(self)@.remove((experiment_id, user_id@)),
    {
        let ghost key = (experiment_id, user_id@);
        let ghost target = old(self)@.remove(key);
        let place = self.position(experiment_id, user_id);
        proof {
            old(self).lemma_rows_are_held();
        }
        match place {
            Some(at) => {
                self.rows.remove(at);
                proof {
                    assert forall|other: (i64, Seq<char>)| #[trigger] target.contains_key(other) implies exists|i: int|
                        0 <= i < self.rows.len() && (#[trigger] self.rows[i]).key() == other by {
                        let i = choose|i: int|
                            0 <= i < old(self).rows.len() && (#[trigger] old(self).rows[i]).key() == other;
                        if i < at {
                            assert(self.rows[i].key() == other);
                        } else {
                            assert(self.rows[i - 1].key() == other);
                        }
                    }
                }
            },
            None => {},
        }
        proof {
            self.lemma_holds(target);
        }
    }
}

/// The two partitions of an assignment store.
#[derive(Clone, Copy, Debug, PartialEq, Eq, Structural)]
pub enum Partition {
    /// Treatments forced by hand. Where a pair has one, it wins.
    Override,
    /// Treatments that the system assigned.
    Base,
}

/// What a store holds, partition by partition, and whether it can be reached.
pub struct StoreView {
    pub treatments: Assignments,
    pub overrides: Assignments,
    pub available: bool,
}

impl StoreView {
    /// What the given partition holds.
    pub open spec fn partition(self, partition: Partition) -> Assignments {
        match partition {
            Partition::Override => self.overrides,
            Partition::Base => self.treatments,
        }
    }

    /// The treatment that the given partition holds for `key`, if any.
    pub open spec fn lookup(self, partition: Partition, key: (i64, Seq<char>)) -> Option<Seq<char>> {
        assigned(self.partition(partition), key)
    }

    /// What a read of `key` from the given partition comes to: what the
    /// partition holds, or a failure where the store is out of reach.
    pub open spec fn read(self, partition: Partition, key: (i64, Seq<char>)) -> AnswerView {
        if self.available {
            answered(self.lookup(partition, key))
        } else {
            Err(StorageUnavailable)
        }
    }

    /// What a write or a delete comes to: it fails where the store is out of
    /// reach, and only there.
    pub open spec fn write(self) -> Written {
        if self.available {
            Ok(())
        } else {
            Err(StorageUnavailable)
        }
    }

    /// The store after a write of `treatment` for `key` to the given
    /// partition. The other partition stays as it is, and a store out of
    /// reach stays as it is altogether.
    pub open spec fn set(self, partition: Partition, key: (i64, Seq<char>), treatment: Seq<char>) -> StoreView {
        if !self.available {
            self
        } else {
            match partition {
                Partition::Override => StoreView { overrides: self.overrides.insert(key, treatment), ..self },
                Partition::Base => StoreView { treatments: self.treatments.insert(key, treatment), ..self },
            }
        }
    }

    /// The store after a delete of `key` from the given partition. A store
    /// out of reach stays as it is.
    pub open spec fn delete(self, partition: Partition, key: (i64, Seq<char>)) -> StoreView {
        if !self.available {
            self
        } else {
            match partition {
                Partition::Override => StoreView { overrides: self.overrides.remove(key), ..self },
                Partition::Base => StoreView { treatments: self.treatments.remove(key), ..self },
            }
        }
    }
}

/// An assignment store in memory: a table of base assignments and a table of
/// overrides.
pub struct AssignmentStore {
    treatments: AssignmentTable,
    overrides: AssignmentTable,
    available: bool,
}

impl View for AssignmentStore {
    type V = StoreView;

    closed spec fn view(&self) -> StoreView {
        StoreView { treatments: self.treatments@, overrides: self.overrides@, available: self.available }
    }
}

impl AssignmentStore {
    /// Both tables are well formed.
    pub closed spec fn wf(&self) -> bool {
        self.treatments.wf() && self.overrides.wf()
    }

    /// A store within reach, with no assignment of either kind.
    pub fn new() -> (store: AssignmentStore)
        ensures
            store.wf(),
            store@.treatments == Assignments::empty(),
            store@.overrides == Assignments::empty(),
            store@.available,
    {
        AssignmentStore { treatments: AssignmentTable::new(), overrides: AssignmentTable::new(), available: true }
    }

    /// Whether the store can be reached.
    pub fn is_available(&self) -> (available: bool)
        ensures
            available == self@.available,
    {
        self.available
    }

    /// Takes the store out of reach, or brings it back. What it holds stays.
    pub fn set_available(&mut self, available: bool)
        requires
            old(self).wf(),
        ensures
            final(self).wf(),
            final(self)@ == (StoreView { available, ..old(self)@ }),
    {
        self.available = available;
    }

    /// Reads the pair's treatment from one partition. Nothing is changed.
    pub fn lookup(&self, partition: Partition, experiment_id: i64, user_id: &str) -> (found: Answer)
        requires
            self.wf(),
        ensures
            answer_view(found) == self@.read(partition, (experiment_id, user_id@)),
    {
        if !self.available {
            return Err(StorageUnavailable);
        }
        match partition {
            Partition::Override => Ok(self.overrides.get(experiment_id, user_id)),
            Partition::Base => Ok(self.treatments.get(experiment_id, user_id)),
        }
    }

    /// Writes the pair's treatment to one partition, in place of the one it
    /// had there, if any. The other partition is not touched. A write that
    /// fails leaves no trace.
    pub fn set(
        &mut self,
        partition: Partition,
        experiment_id: i64,
        user_id: &str,
        treatment_id: &str,
    ) -> (outcome: Written)
        requires
            old(self).wf(),
        ensures
            final(self).wf(),
            outcome == old(self)@.write(),
            final(self)@ == old(self)@.set(partition, (experiment_id, user_id@), treatment_id@),
    {
        if !self.available {
            return Err(StorageUnavailable);
        }
        match partition {
            Partition::Override => self.overrides.set(experiment_id, user_id, treatment_id),
            Partition::Base => self.treatments.set(experiment_id, user_id, treatment_id),
        }
        Ok(())
    }

    /// Removes the pair's treatment from one partition. Where the pair has
    /// none there, nothing changes, and the delete succeeds all the same.
    pub fn delete(&mut self, partition: Partition, experiment_id: i64, user_id: &str) -> (outcome: Written)
        requires
            old(self).wf(),
        ensures
            final(self).wf(),
            outcome == old(self)@.write(),
            final(self)@ == old(self)@.delete(partition, (experiment_id, user_id@)),
    {
        if !self.available {
            return Err(StorageUnavailable);
        }
        match partition {
            Partition::Override => self.overrides.delete(experiment_id, user_id),
            Partition::Base => self.treatments.delete(experiment_id, user_id),
        }
        Ok(())
    }
}

/// The base assignment of the user in the experiment, if there is one.
pub fn get_treatment(store: &AssignmentStore, experiment_id: i64, user_id: &str) -> (found: Answer)
    requires
        store.wf(),
    ensures
        answer_view(found) == store@.read(Partition::Base, (experiment_id, user_id@)),
{
    store.lookup(Partition::Base, experiment_id, user_id)
}

/// The override of the user in the experiment, if there is one.
pub fn get_override_treatment(store: &AssignmentStore, experiment_id: i64, user_id: &str) -> (found: Answer)
    requires
        store.wf(),
    ensures
        answer_view(found) == store@.read(Partition::Override, (experiment_id, user_id@)),
{
    store.lookup(Partition::Override, experiment_id, user_id)
}

/// Writes the base assignment of the user in the experiment. The last write
/// for a pair is the one that stays.
pub fn set_treatment(
    store: &mut AssignmentStore,
    experiment_id: i64,
    user_id: &str,
    treatment_id: &str,
) -> (outcome: Written)
    requires
        old(store).wf(),
    ensures
        final(store).wf(),
        outcome == old(store)@.write(),
        final(store)@ == old(store)@.set(Partition::Base, (experiment_id, user_id@), treatment_id@),
{
    store.set(Partition::Base, experiment_id, user_id, treatment_id)
}

/// Writes the override of the user in the experiment. The last write for a
/// pair is the one that stays.
pub fn set_override(
    store: &mut AssignmentStore,
    experiment_id: i64,
    user_id: &str,
    treatment_id: &str,
) -> (outcome: Written)
    requires
        old(store).wf(),
    ensures
        final(store).wf(),
        outcome == old(store)@.write(),
        final(store)@ == old(store)@.set(Partition::Override, (experiment_id, user_id@), treatment_id@),
{
    store.set(Partition::Override, experiment_id, user_id, treatment_id)
}

/// Removes the override of the user in the experiment. Where the pair has
/// none, nothing changes.
pub fn delete_override(store: &mut AssignmentStore, experiment_id: i64, user_id: &str) -> (outcome: Written)
    requires
        old(store).wf(),
    ensures
        final(store).wf(),
        outcome == old(store)@.write(),
        final(store)@ == old(store)@.delete(Partition::Override, (experiment_id, user_id@)),
{
    store.delete(Partition::Override, experiment_id, user_id)
}

/// A write is an upsert: the same write made twice leaves the store as one
/// write does.
pub proof fn lemma_set_twice_is_set_once(
    store: StoreView,
    partition: Partition,
    key: (i64, Seq<char>),
    treatment: Seq<char>,
)
    ensures
        store.set(partition, key, treatment).set(partition, key, treatment) == store.set(partition, key, treatment),
{
    let once = store.set(partition, key, treatment);
    let twice = once.set(partition, key, treatment);
    assert(twice.overrides =~= once.overrides);
    assert(twice.treatments =~= once.treatments);
}

/// The last write wins: of two writes for one pair, only the second shows,
/// and a read that follows gives it back.
pub proof fn lemma_last_write_wins(
    store: StoreView,
    partition: Partition,
    key: (i64, Seq<char>),
    first: Seq<char>,
    second: Seq<char>,
)
    ensures
        store.set(partition, key, first).set(partition, key, second) == store.set(partition, key, second),
        store.available ==> store.set(partition, key, second).lookup(partition, key) == Some(second),
{
    let overwritten = store.set(partition, key, first).set(partition, key, second);
    let written = store.set(partition, key, second);
    assert(overwritten.overrides =~= written.overrides);
    assert(overwritten.treatments =~= written.treatments);
}

/// A delete leaves the pair without a treatment in that partition, and a
/// delete of a pair that has none changes nothing.
pub proof fn lemma_delete(store: StoreView, partition: Partition, key: (i64, Seq<char>))
    ensures
        store.available ==> store.delete(partition, key).lookup(partition, key).is_none(),
        store.lookup(partition, key).is_none() ==> store.delete(partition, key) == store,
{
    if store.lookup(partition, key).is_none() {
        let deleted = store.delete(partition, key);
        assert(deleted.overrides =~= store.overrides);
        assert(deleted.treatments =~= store.treatments);
    }
}

/// A store out of reach fails every read and every write, and holds after a
/// write or a delete what it held before.
pub proof fn lemma_out_of_reach(
    store: StoreView,
    partition: Partition,
    key: (i64, Seq<char>),
    treatment: Seq<char>,
)
    requires
        !store.available,
    ensures
        store.read(partition, key) is Err,
        store.write() is Err,
        store.set(partition, key, treatment) == store,
        store.delete(partition, key) == store,
{
}

} // verus!
