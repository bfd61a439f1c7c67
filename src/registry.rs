//! The execution registry: the in-flight supervised runs, keyed by the
//! caller's execution id, each with the trigger side of its cancellation
//! channel until that trigger is taken to cancel the run.

use vstd::prelude::*;

verus! {

/// Why a run could not be registered.
#[derive(Clone, Copy, Debug, PartialEq, Eq, Structural)]
pub enum RegistryError {
    /// A run with the same execution id is still in flight.
    DuplicateExecution,
}

/// One in-flight run: its execution id and its cancellation trigger, which
/// is gone once the run has been cancelled.
pub struct ExecutionRecord<C> {
    pub execution_id: String,
    pub cancel: Option<C>,
}

/// The in-flight runs. At most one record per execution id; a record is
/// present exactly while its run is in flight: cancelling takes the trigger
/// but leaves the record, which only the run's own cleanup removes.
pub struct ExecutionRegistry<C> {
    records: Vec<ExecutionRecord<C>>,
}

/// Whether some record of `records` carries `id`.
pub open spec fn is_running_in<C>(records: Seq<(Seq<char>, Option<C>)>, id: Seq<char>) -> bool {
    exists|i: int| 0 <= i < records.len() && #[trigger] records[i].0 == id
}

/// No two records carry the same id.
pub open spec fn ids_unique<C>(records: Seq<(Seq<char>, Option<C>)>) -> bool {
    forall|i: int, j: int|
        0 <= i < records.len() && 0 <= j < records.len() && i != j ==> #[trigger] records[i].0
            != #[trigger] records[j].0
}

impl<C> ExecutionRegistry<C> {
    /// The records, each as its id and its trigger, in registration order.
    pub closed spec fn view(&self) -> Seq<(Seq<char>, Option<C>)> {
        self.records@.map_values(|r: ExecutionRecord<C>| (r.execution_id@, r.cancel))
    }

    pub open spec fn wf(&self) -> bool {
        ids_unique(self@)
    }

    /// A registry with no run in flight.
    pub fn new() -> (r: Self)
        ensures
            r.wf(),
            r@ == Seq::<(Seq<char>, Option<C>)>::empty(),
    {
        let r = ExecutionRegistry { records: Vec::new() };
        assert(r@ =~= Seq::<(Seq<char>, Option<C>)>::empty());
        r
    }

    fn position(&self, id: &String) -> (r: Option<usize>)
        ensures
            match r {
                Some(i) => i < self@.len() && self@[i as int].0 == id@,
                None => !is_running_in(self@, id@),
            },
    {
        let mut i: usize = 0;
        while i < self.records.len()
            invariant
                i <= self@.len() == self.records@.len(),
                forall|k: int| 0 <= k < i ==> self@[k].0 != id@,
            decreases self.records@.len() - i,
        {
            if self.records[i].execution_id == *id {
                return Some(i);
            }
            i = i + 1;
        }
        None
    }

    /// Whether a run with this id is in flight.
    pub fn is_running(&self, id: &String) -> (r: bool)
        ensures
            r == is_running_in(self@, id@),
    {
        self.position(id).is_some()
    }

    /// Records a new run. Fails, changing nothing, when a run with the same
    /// id is in flight; otherwise the record is added.
    pub fn register(&mut self, execution_id: String, cancel: C) -> (r: Result<(), RegistryError>)
        requires
            old(self).wf(),
        ensures
            final(self).wf(),
            r is Ok <==> !is_running_in(old(self)@, execution_id@),
            r is Ok ==> final(self)@ == old(self)@.push((execution_id@, Some(cancel))),
            r is Err ==> r == Err::<(), RegistryError>(RegistryError::DuplicateExecution)
                && final(self)@ == old(self)@,
    {
        if self.is_running(&execution_id) {
            return Err(RegistryError::DuplicateExecution);
        }
        let ghost before = self@;
        let ghost id = execution_id@;
        self.records.push(ExecutionRecord { execution_id, cancel: Some(cancel) });
        assert(self@ =~= before.push((id, Some(cancel))));
        Ok(())
    }

    /// Takes the cancellation trigger of a run, to fire it; the run stays
    /// registered until its own cleanup unregisters it. An id that is not in
    /// flight changes nothing and gives no trigger, and so does a run whose
    /// trigger was already taken.
    pub fn cancel(&mut self, execution_id: &String) -> (r: Option<C>)
        requires
            old(self).wf(),
        ensures
            final(self).wf(),
            is_running_in(final(self)@, execution_id@) == is_running_in(
                old(self)@,
                execution_id@,
            ),
            !is_running_in(old(self)@, execution_id@) ==> r is None && final(self)@ == old(self)@,
            is_running_in(old(self)@, execution_id@) ==> exists|i: int|
                0 <= i < old(self)@.len() && old(self)@[i].0 == execution_id@ && r == old(
                    self,
                )@[i].1 && final(self)@ == old(self)@.update(i, (execution_id@, None)),
    {
        match self.position(execution_id) {
            None => None,
            Some(i) => {
                let ghost before = self@;
                let mut record = self.records.remove(i);
                let taken = record.cancel.take();
                self.records.insert(i, record);
                assert(self@ =~= before.update(i as int, (execution_id@, None)));
                assert(self@[i as int].0 == execution_id@);
                assert forall|a: int, b: int|
                    0 <= a < self@.len() && 0 <= b < self@.len() && a != b implies #[trigger] self@[a].0
                    != #[trigger] self@[b].0 by {
                    assert(self@[a].0 == before[a].0);
                    assert(self@[b].0 == before[b].0);
                }
                taken
            },
        }
    }

    /// Drops the record of a run that reached a terminal state, whatever
    /// that state was; an id that is not in flight changes nothing.
    pub fn unregister(&mut self, execution_id: &String)
        requires
            old(self).wf(),
        ensures
            final(self).wf(),
            !is_running_in(final(self)@, execution_id@),
            !is_running_in(old(self)@, execution_id@) ==> final(self)@ == old(self)@,
            is_running_in(old(self)@, execution_id@) ==> exists|i: int|
                0 <= i < old(self)@.len() && old(self)@[i].0 == execution_id@ && final(self)@
                    == old(self)@.remove(i),
    {
        match self.position(execution_id) {
            None => {},
            Some(i) => {
                let ghost before = self@;
                let _ = self.records.remove(i);
                assert(self@ =~= before.remove(i as int));
                assert forall|k: int| 0 <= k < self@.len() implies #[trigger] self@[k].0
                    != execution_id@ by {
                    if k < i {
                        assert(self@[k] == before[k]);
                    } else {
                        assert(self@[k] == before[k + 1]);
                    }
                }
            },
        }
    }
}

/// Once a run is registered, a second registration under its id is refused
/// for as long as it is in flight, while a run under any other id that was
/// not in flight can still register.
pub proof fn lemma_registration_excludes_only_its_id<C>(
    records: Seq<(Seq<char>, Option<C>)>,
    id: Seq<char>,
    cancel: Option<C>,
    other: Seq<char>,
)
    requires
        other != id,
        !is_running_in(records, other),
    ensures
        is_running_in(records.push((id, cancel)), id),
        !is_running_in(records.push((id, cancel)), other),
{
    let after = records.push((id, cancel));
    assert(after[records.len() as int].0 == id);
    assert forall|i: int| 0 <= i < after.len() implies #[trigger] after[i].0 != other by {
        if i < records.len() {
            assert(after[i] == records[i]);
        }
    }
}

/// Cancelling a run leaves a record under its id, so a second registration
/// under that id is still refused until the cancelled run's own cleanup
/// unregisters it.
pub proof fn lemma_cancelled_run_keeps_its_id<C>(
    records: Seq<(Seq<char>, Option<C>)>,
    i: int,
    id: Seq<char>,
)
    requires
        0 <= i < records.len(),
        records[i].0 == id,
    ensures
        is_running_in(records.update(i, (id, None)), id),
{
    assert(records.update(i, (id, None))[i].0 == id);
}

} // verus!
