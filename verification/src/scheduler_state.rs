//! The mathematical model of the scheduler: the registered workers, the
//! operations of the store, and what each request does to them.

use vstd::prelude::*;
use crate::action_messages::{ActionStage, UpdateOperationType};
use crate::error::ErrorKind;
use crate::operation_state_manager::{OperationFilterView, OperationStageFlags, OperationView};
use crate::platform_properties::satisfied_by;
use crate::worker::WorkerView;

verus! {

/// The state of the scheduler. Workers stand in the order in which they
/// registered, operations in the order in which they are served.
pub struct SchedulerView {
    pub workers: Seq<WorkerView>,
    pub operations: Seq<OperationView>,
    /// How long a worker may stay silent, in seconds.
    pub worker_timeout: u64,
}

/// Whether `first` is served no later than `second`: it has the higher
/// priority, or the same priority and was not inserted later.
pub open spec fn served_before(first: OperationView, second: OperationView) -> bool {
    first.info.priority > second.info.priority || (first.info.priority == second.info.priority
        && first.info.insert_timestamp <= second.info.insert_timestamp)
}

/// Whether every operation is served no later than those behind it.
pub open spec fn queue_sorted(operations: Seq<OperationView>) -> bool {
    forall|i: int, j: int|
        0 <= i < j < operations.len() ==> served_before(
            #[trigger] operations[i],
            #[trigger] operations[j],
        )
}

/// Where a new operation goes: in front of the first operation that is not
/// served before it, behind all others. Among operations of one priority
/// and one insertion time the one that arrived first is so served first.
pub open spec fn queue_position(operations: Seq<OperationView>, arrival: OperationView) -> int
    decreases operations.len(),
{
    if operations.len() == 0 {
        0
    } else if !served_before(operations[0], arrival) {
        0
    } else {
        1 + queue_position(operations.drop_first(), arrival)
    }
}

/// The operation as it stands after its worker is lost: queued again, with
/// no owner, and with one more lost worker to its name. It is queued again
/// however often that has happened before.
pub open spec fn requeued(operation: OperationView) -> OperationView {
    OperationView {
        stage: ActionStage::Queued,
        worker_id: None,
        lost_workers: one_more(operation.lost_workers),
        ..operation
    }
}

/// The operations after the workers in `lost` are gone: those that one of
/// them owned are queued again, the others stand as they stood.
pub open spec fn requeue_lost(operations: Seq<OperationView>, lost: Set<Seq<char>>) -> Seq<
    OperationView,
> {
    Seq::new(
        operations.len(),
        |k: int|
            if operations[k].worker_id is Some && lost.contains(operations[k].worker_id->0) {
                requeued(operations[k])
            } else {
                operations[k]
            },
    )
}

/// What holds of the operations of every store: no two stand under one
/// id, an operation has an owner exactly while it is executing, and every
/// operation is served no later than those behind it.
pub open spec fn store_consistent(operations: Seq<OperationView>) -> bool {
    &&& forall|i: int, j: int|
        0 <= i < j < operations.len() ==> (#[trigger] operations[i]).id != (
        #[trigger] operations[j]).id
    &&& forall|k: int|
        0 <= k < operations.len() ==> ((#[trigger] operations[k]).worker_id is Some
            <==> operations[k].stage == ActionStage::Executing)
    &&& queue_sorted(operations)
}

/// The filter that lets every operation through, without a limit.
pub open spec fn unconditional() -> OperationFilterView {
    OperationFilterView { stages: OperationStageFlags::all(), worker_id: None, limit: None }
}

/// The test that a filter puts to each operation.
pub open spec fn passing(filter: OperationFilterView) -> spec_fn(OperationView) -> bool {
    |operation: OperationView| operation.passes(filter)
}

/// What a filter hands out of a list of operations: those that pass it, in
/// the order of the list, and no more of them than its limit allows.
pub open spec fn filtered(operations: Seq<OperationView>, filter: OperationFilterView) -> Seq<
    OperationView,
> {
    let found = operations.filter(passing(filter));
    match filter.limit {
        Some(limit) if limit < found.len() => found.take(limit as int),
        _ => found,
    }
}

/// A counter after one more: it stops at the largest value that it can
/// hold.
pub open spec fn one_more(count: u64) -> u64 {
    if count < u64::MAX {
        (count + 1) as u64
    } else {
        count
    }
}

impl SchedulerView {
    /// Whether a worker is registered under the id.
    pub open spec fn has_worker(self, id: Seq<char>) -> bool {
        exists|i: int| 0 <= i < self.workers.len() && (#[trigger] self.workers[i]).id == id
    }

    /// The place of the worker that is registered under the id.
    pub open spec fn worker_index(self, id: Seq<char>) -> int {
        choose|i: int| 0 <= i < self.workers.len() && (#[trigger] self.workers[i]).id == id
    }

    /// Whether the store holds an operation under the id.
    pub open spec fn has_operation(self, id: Seq<char>) -> bool {
        exists|k: int| 0 <= k < self.operations.len() && (#[trigger] self.operations[k]).id == id
    }

    /// The place of the operation that the store holds under the id.
    pub open spec fn operation_index(self, id: Seq<char>) -> int {
        choose|k: int| 0 <= k < self.operations.len() && (#[trigger] self.operations[k]).id == id
    }

    /// Whether the operation is assigned to the worker.
    pub open spec fn owns(self, worker_id: Seq<char>, operation_id: Seq<char>) -> bool {
        self.has_worker(worker_id) && self.workers[self.worker_index(
            worker_id,
        )].running_operations.contains(operation_id)
    }

    /// No two workers are registered under one id.
    pub open spec fn workers_distinct(self) -> bool {
        forall|i: int, j: int|
            0 <= i < j < self.workers.len() ==> (#[trigger] self.workers[i]).id != (
            #[trigger] self.workers[j]).id
    }

    /// No two operations are stored under one id.
    pub open spec fn operations_distinct(self) -> bool {
        forall|i: int, j: int|
            0 <= i < j < self.operations.len() ==> (#[trigger] self.operations[i]).id != (
            #[trigger] self.operations[j]).id
    }

    /// The executing operation at `k` is recorded with its owner: the owner
    /// is registered, holds the operation among those assigned to it, and
    /// advertises what the operation requires.
    pub open spec fn recorded_at_owner(self, k: int) -> bool {
        let operation = self.operations[k];
        &&& operation.worker_id is Some
        &&& self.has_worker(operation.worker_id->0)
        &&& self.workers[self.worker_index(operation.worker_id->0)].running_operations.contains(
            operation.id,
        )
        &&& satisfied_by(
            operation.info.platform_properties,
            self.workers[self.worker_index(operation.worker_id->0)].platform_properties,
        )
    }

    /// The operation `id`, assigned to the worker at `i`, is in the store,
    /// executing and owned by that worker.
    pub open spec fn assignment_recorded(self, i: int, id: Seq<char>) -> bool {
        &&& self.has_operation(id)
        &&& self.operations[self.operation_index(id)].stage == ActionStage::Executing
        &&& self.operations[self.operation_index(id)].worker_id == Some(self.workers[i].id)
    }

    /// What holds of every state that the scheduler reaches.
    pub open spec fn wf(self) -> bool {
        &&& self.workers_distinct()
        &&& self.operations_distinct()
        &&& queue_sorted(self.operations)
        &&& forall|i: int|
            0 <= i < self.workers.len() ==> (#[trigger] self.workers[i]).running_operations.no_duplicates()
        &&& forall|i: int|
            0 <= i < self.workers.len() ==> (#[trigger] self.workers[i]).running_operations.len()
                <= self.workers[i].max_inflight_tasks
        &&& forall|k: int|
            0 <= k < self.operations.len() ==> ((#[trigger] self.operations[k]).worker_id is Some
                <==> self.operations[k].stage == ActionStage::Executing)
        &&& forall|k: int|
            0 <= k < self.operations.len() && (#[trigger] self.operations[k]).stage
                == ActionStage::Executing ==> self.recorded_at_owner(k)
        &&& forall|i: int, id: Seq<char>|
            0 <= i < self.workers.len() && #[trigger] self.workers[i].running_operations.contains(
                id,
            ) ==> self.assignment_recorded(i, id)
    }

    /// The state with no worker and no operation.
    pub open spec fn empty(worker_timeout: u64) -> SchedulerView {
        SchedulerView { workers: Seq::empty(), operations: Seq::empty(), worker_timeout }
    }

    /// Registration. A worker whose id is taken is turned away; any other
    /// joins behind the registered ones, with nothing assigned to it.
    pub open spec fn add_worker(self, worker: WorkerView) -> Result<SchedulerView, ErrorKind> {
        if self.has_worker(worker.id) {
            Err(ErrorKind::AlreadyConnected)
        } else {
            Ok(SchedulerView { workers: self.workers.push(worker.unassigned()), ..self })
        }
    }

    /// The state after the worker at `i` has ended the operation at `k` in
    /// `stage`: the operation has no owner, the worker no longer holds it
    /// and has completed one more action.
    pub open spec fn complete(self, i: int, k: int, stage: ActionStage) -> SchedulerView {
        let worker = self.workers[i];
        let operation = self.operations[k];
        let place = worker.running_operations.index_of(operation.id);
        SchedulerView {
            workers: self.workers.update(
                i,
                WorkerView {
                    running_operations: worker.running_operations.remove(place),
                    actions_completed: one_more(worker.actions_completed),
                    ..worker
                },
            ),
            operations: self.operations.update(
                k,
                OperationView { stage, worker_id: None, ..operation },
            ),
            ..self
        }
    }

    /// A worker's report on an operation. It counts only from the worker
    /// that owns the operation. A report that the operation still runs
    /// changes nothing; one that it has ended records the end.
    pub open spec fn update_action(
        self,
        worker_id: Seq<char>,
        operation_id: Seq<char>,
        update: UpdateOperationType,
    ) -> Result<SchedulerView, ErrorKind> {
        if !self.owns(worker_id, operation_id) {
            Err(ErrorKind::OwnershipViolation)
        } else if update == UpdateOperationType::StillExecuting {
            Ok(self)
        } else {
            Ok(
                self.complete(
                    self.worker_index(worker_id),
                    self.operation_index(operation_id),
                    update.next_stage(),
                ),
            )
        }
    }

    /// A sign of life. The time at which the worker was last heard of never
    /// goes back: an older sign is taken and changes nothing.
    pub open spec fn worker_keep_alive_received(self, worker_id: Seq<char>, timestamp: u64) -> Result<
        SchedulerView,
        ErrorKind,
    > {
        if !self.has_worker(worker_id) {
            Err(ErrorKind::NotFound)
        } else {
            let i = self.worker_index(worker_id);
            let worker = self.workers[i];
            let latest = if timestamp >= worker.last_update_timestamp {
                timestamp
            } else {
                worker.last_update_timestamp
            };
            Ok(
                SchedulerView {
                    workers: self.workers.update(
                        i,
                        WorkerView { last_update_timestamp: latest, ..worker },
                    ),
                    ..self
                },
            )
        }
    }

    /// Removal. The worker leaves the registry and what it ran is queued
    /// again. Where no worker has the id nothing changes.
    pub open spec fn remove_worker(self, worker_id: Seq<char>) -> SchedulerView {
        if !self.has_worker(worker_id) {
            self
        } else {
            SchedulerView {
                workers: self.workers.remove(self.worker_index(worker_id)),
                operations: requeue_lost(self.operations, set![worker_id]),
                ..self
            }
        }
    }

    /// Whether the worker has been silent for too long at `now`: the time at
    /// which it was last heard of, plus the allowed silence, lies before
    /// `now`.
    pub open spec fn timed_out(self, worker: WorkerView, now: u64) -> bool {
        worker.last_update_timestamp + self.worker_timeout < now
    }

    /// The ids of the workers that have timed out at `now`.
    pub open spec fn timed_out_ids(self, now: u64) -> Set<Seq<char>> {
        Set::new(
            |id: Seq<char>|
                exists|i: int|
                    0 <= i < self.workers.len() && (#[trigger] self.workers[i]).id == id
                        && self.timed_out(self.workers[i], now),
        )
    }

    /// Eviction. Exactly the workers that have timed out at `now` leave, and
    /// what they ran is queued again.
    pub open spec fn remove_timedout_workers(self, now: u64) -> SchedulerView {
        SchedulerView {
            workers: self.workers.filter(|worker: WorkerView| !self.timed_out(worker, now)),
            operations: requeue_lost(self.operations, self.timed_out_ids(now)),
            ..self
        }
    }

    /// Draining on or off. Nothing else changes: what the worker runs stays
    /// with it.
    pub open spec fn set_drain_worker(self, worker_id: Seq<char>, is_draining: bool) -> Result<
        SchedulerView,
        ErrorKind,
    > {
        if !self.has_worker(worker_id) {
            Err(ErrorKind::NotFound)
        } else {
            let i = self.worker_index(worker_id);
            Ok(
                SchedulerView {
                    workers: self.workers.update(i, WorkerView { is_draining, ..self.workers[i] }),
                    ..self
                },
            )
        }
    }

    /// Submission. An operation whose id is taken is turned away; any other
    /// takes its place in the queue, owned by nobody.
    pub open spec fn add_operation(self, operation: OperationView) -> Result<
        SchedulerView,
        ErrorKind,
    > {
        if self.has_operation(operation.id) {
            Err(ErrorKind::AlreadyExists)
        } else {
            Ok(
                SchedulerView {
                    operations: self.operations.insert(
                        queue_position(self.operations, operation),
                        operation,
                    ),
                    ..self
                },
            )
        }
    }

    /// The end of a cache check that found nothing: the operation is queued.
    /// Only an operation whose cache check is under way can be named.
    pub open spec fn complete_cache_check(self, operation_id: Seq<char>) -> Result<
        SchedulerView,
        ErrorKind,
    > {
        if self.has_operation(operation_id) && self.operations[self.operation_index(
            operation_id,
        )].stage == ActionStage::CacheCheck {
            let k = self.operation_index(operation_id);
            Ok(
                SchedulerView {
                    operations: self.operations.update(
                        k,
                        OperationView { stage: ActionStage::Queued, ..self.operations[k] },
                    ),
                    ..self
                },
            )
        } else {
            Err(ErrorKind::NotFound)
        }
    }

    /// Whether the worker at `w` can be given the operation at `o`: it takes
    /// new work and advertises what the operation requires.
    pub open spec fn eligible(self, w: int, o: int) -> bool {
        self.workers[w].can_accept_work() && satisfied_by(
            self.operations[o].info.platform_properties,
            self.workers[w].platform_properties,
        )
    }

    /// The first worker at or behind `from` that can be given the operation
    /// at `o`.
    pub open spec fn first_eligible(self, o: int, from: int) -> Option<int>
        decreases self.workers.len() - from,
    {
        if from < 0 || from >= self.workers.len() {
            None
        } else if self.eligible(from, o) {
            Some(from)
        } else {
            self.first_eligible(o, from + 1)
        }
    }

    /// The state after the operation at `o` has been given to the worker at
    /// `w`: the operation is executing and owned by the worker, and the
    /// worker holds it behind what it already runs.
    pub open spec fn assign(self, w: int, o: int) -> SchedulerView {
        let worker = self.workers[w];
        let operation = self.operations[o];
        SchedulerView {
            workers: self.workers.update(
                w,
                WorkerView {
                    running_operations: worker.running_operations.push(operation.id),
                    ..worker
                },
            ),
            operations: self.operations.update(
                o,
                OperationView {
                    stage: ActionStage::Executing,
                    worker_id: Some(worker.id),
                    ..operation
                },
            ),
            ..self
        }
    }

    /// One step of a dispatch pass: a queued operation goes to the first
    /// worker that can be given it; where there is none, or the operation is
    /// not queued, nothing changes.
    pub open spec fn dispatch_one(self, o: int) -> SchedulerView {
        if self.operations[o].stage == ActionStage::Queued {
            match self.first_eligible(o, 0) {
                Some(w) => self.assign(w, o),
                None => self,
            }
        } else {
            self
        }
    }

    /// The state after a dispatch pass has gone through the first `n`
    /// operations, in the order in which they are served.
    pub open spec fn dispatch_prefix(self, n: nat) -> SchedulerView
        decreases n,
    {
        if n == 0 {
            self
        } else {
            self.dispatch_prefix((n - 1) as nat).dispatch_one(n - 1)
        }
    }

    /// A whole dispatch pass.
    pub open spec fn dispatch(self) -> SchedulerView {
        self.dispatch_prefix(self.operations.len())
    }

    /// What a filter hands out: the operations that pass it, in the order in
    /// which they are served, and no more of them than its limit allows.
    pub open spec fn filter_operations(self, filter: OperationFilterView) -> Seq<OperationView> {
        filtered(self.operations, filter)
    }
}

/// A list whose entries all pass a test is left whole by it.
pub proof fn lemma_filter_keeps_all<A>(list: Seq<A>, test: spec_fn(A) -> bool)
    requires
        forall|i: int| 0 <= i < list.len() ==> test(#[trigger] list[i]),
    ensures
        list.filter(test) == list,
    decreases list.len(),
{
    if list.len() == 0 {
        assert(list.filter(test) =~= list);
    } else {
        let shorter = list.drop_last();
        assert forall|i: int| 0 <= i < shorter.len() implies test(#[trigger] shorter[i]) by {
            assert(shorter[i] == list[i]);
        }
        lemma_filter_keeps_all(shorter, test);
        assert(list =~= shorter.push(list.last()));
        shorter.lemma_filter_push(list.last(), test);
        assert(test(list[list.len() - 1]));
    }
}

/// The filter without conditions hands out every operation.
pub proof fn lemma_unconditional_filter(operations: Seq<OperationView>)
    ensures
        filtered(operations, unconditional()) == operations,
{
    lemma_filter_keeps_all(operations, passing(unconditional()));
}

/// The operations of a well-formed state are those of a consistent store.
pub proof fn lemma_wf_store_consistent(state: SchedulerView)
    requires
        state.wf(),
    ensures
        store_consistent(state.operations),
{
}

} // verus!
