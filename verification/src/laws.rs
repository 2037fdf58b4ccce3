//! What holds of the scheduler whatever is asked of it, stated over its
//! model and proved.

use vstd::prelude::*;
use crate::action_messages::{ActionInfoView, ActionStage, UpdateOperationType};
use crate::error::ErrorKind;
use crate::invariants::{
    lemma_add_operation_keeps_wf, lemma_add_worker_keeps_wf, lemma_complete_cache_check_keeps_wf,
    lemma_dispatch_keeps_wf, lemma_dispatch_prefix_keeps_wf, lemma_empty_wf,
    lemma_filtered_workers, lemma_first_eligible, lemma_keep_alive_keeps_wf, lemma_operation_at,
    lemma_queue_position, lemma_remove_timedout_workers_keeps_wf, lemma_remove_worker_keeps_wf,
    lemma_same_operation_ids, lemma_set_drain_keeps_wf, lemma_update_action_keeps_wf,
    lemma_worker_at,
};
use crate::operation_state_manager::{OperationFilterView, OperationStageFlags, OperationView};
use crate::scheduler_state::{
    filtered, lemma_filter_keeps_all, one_more, passing, queue_position, requeued,
    store_consistent, SchedulerView,
};
use crate::worker::WorkerView;

verus! {

/// One request to the scheduler.
pub enum Request {
    AddWorker { worker: WorkerView },
    UpdateAction { worker_id: Seq<char>, operation_id: Seq<char>, update: UpdateOperationType },
    KeepAlive { worker_id: Seq<char>, timestamp: u64 },
    RemoveWorker { worker_id: Seq<char> },
    RemoveTimedoutWorkers { now: u64 },
    SetDrainWorker { worker_id: Seq<char>, is_draining: bool },
    AddOperation {
        id: Seq<char>,
        action_digest: Seq<char>,
        info: ActionInfoView,
        needs_cache_check: bool,
    },
    CompleteCacheCheck { operation_id: Seq<char> },
    Dispatch,
}

/// The state that a request leaves: what the model says where the request
/// succeeds, the state as it was where it fails.
pub open spec fn unchanged_on_error(
    state: SchedulerView,
    outcome: Result<SchedulerView, ErrorKind>,
) -> SchedulerView {
    match outcome {
        Ok(after) => after,
        Err(_) => state,
    }
}

/// The state after a request.
pub open spec fn apply(state: SchedulerView, request: Request) -> SchedulerView {
    match request {
        Request::AddWorker { worker } => unchanged_on_error(state, state.add_worker(worker)),
        Request::UpdateAction { worker_id, operation_id, update } => unchanged_on_error(
            state,
            state.update_action(worker_id, operation_id, update),
        ),
        Request::KeepAlive { worker_id, timestamp } => unchanged_on_error(
            state,
            state.worker_keep_alive_received(worker_id, timestamp),
        ),
        Request::RemoveWorker { worker_id } => state.remove_worker(worker_id),
        Request::RemoveTimedoutWorkers { now } => state.remove_timedout_workers(now),
        Request::SetDrainWorker { worker_id, is_draining } => unchanged_on_error(
            state,
            state.set_drain_worker(worker_id, is_draining),
        ),
        Request::AddOperation { id, action_digest, info, needs_cache_check } => unchanged_on_error(
            state,
            state.add_operation(
                OperationView {
                    id,
                    action_digest,
                    stage: if needs_cache_check {
                        ActionStage::CacheCheck
                    } else {
                        ActionStage::Queued
                    },
                    worker_id: None,
                    lost_workers: 0,
                    info,
                },
            ),
        ),
        Request::CompleteCacheCheck { operation_id } => unchanged_on_error(
            state,
            state.complete_cache_check(operation_id),
        ),
        Request::Dispatch => state.dispatch(),
    }
}

/// What the model says of a request: that it succeeds, or the kind of its
/// failure.
pub open spec fn verdict(state: SchedulerView, request: Request) -> Result<(), ErrorKind> {
    match request {
        Request::AddWorker { worker } => match state.add_worker(worker) {
            Ok(_) => Ok(()),
            Err(kind) => Err(kind),
        },
        Request::UpdateAction { worker_id, operation_id, update } => match state.update_action(
            worker_id,
            operation_id,
            update,
        ) {
            Ok(_) => Ok(()),
            Err(kind) => Err(kind),
        },
        Request::KeepAlive { worker_id, timestamp } => match state.worker_keep_alive_received(
            worker_id,
            timestamp,
        ) {
            Ok(_) => Ok(()),
            Err(kind) => Err(kind),
        },
        Request::SetDrainWorker { worker_id, is_draining } => match state.set_drain_worker(
            worker_id,
            is_draining,
        ) {
            Ok(_) => Ok(()),
            Err(kind) => Err(kind),
        },
        Request::AddOperation { id, action_digest, info, needs_cache_check } => {
            if state.has_operation(id) {
                Err(ErrorKind::AlreadyExists)
            } else {
                Ok(())
            }
        },
        Request::CompleteCacheCheck { operation_id } => match state.complete_cache_check(
            operation_id,
        ) {
            Ok(_) => Ok(()),
            Err(kind) => Err(kind),
        },
        Request::RemoveWorker { .. } => Ok(()),
        Request::RemoveTimedoutWorkers { .. } => Ok(()),
        Request::Dispatch => Ok(()),
    }
}

/// Whether a dispatch pass follows a request that has succeeded. One
/// follows every request that can have changed what waits or what the
/// workers can take: every request but a sign of life, which touches
/// neither, and a dispatch pass, which is one.
pub open spec fn pass_follows(request: Request) -> bool {
    !(request is KeepAlive) && !(request is Dispatch)
}

/// The state after a request has been served: after the request and, where
/// it has succeeded and a pass follows it, a dispatch pass.
pub open spec fn served(state: SchedulerView, request: Request) -> SchedulerView {
    if verdict(state, request) is Ok && pass_follows(request) {
        apply(state, request).dispatch()
    } else {
        apply(state, request)
    }
}

/// Serving a request keeps the state well formed.
pub proof fn lemma_served_keeps_wf(state: SchedulerView, request: Request)
    requires
        state.wf(),
    ensures
        served(state, request).wf(),
{
    lemma_apply_keeps_wf(state, request);
    lemma_dispatch_keeps_wf(apply(state, request));
}

/// The state that a scheduler reaches from its start by a run of requests.
pub open spec fn reached(worker_timeout: u64, requests: Seq<Request>) -> SchedulerView
    decreases requests.len(),
{
    if requests.len() == 0 {
        SchedulerView::empty(worker_timeout)
    } else {
        apply(reached(worker_timeout, requests.drop_last()), requests.last())
    }
}

/// No request takes a well-formed state to one that is not.
pub proof fn lemma_apply_keeps_wf(state: SchedulerView, request: Request)
    requires
        state.wf(),
    ensures
        apply(state, request).wf(),
{
    match request {
        Request::AddWorker { worker } => {
            if state.add_worker(worker) is Ok {
                lemma_add_worker_keeps_wf(state, worker);
            }
        },
        Request::UpdateAction { worker_id, operation_id, update } => {
            if state.update_action(worker_id, operation_id, update) is Ok {
                lemma_update_action_keeps_wf(state, worker_id, operation_id, update);
            }
        },
        Request::KeepAlive { worker_id, timestamp } => {
            if state.worker_keep_alive_received(worker_id, timestamp) is Ok {
                lemma_keep_alive_keeps_wf(state, worker_id, timestamp);
            }
        },
        Request::RemoveWorker { worker_id } => {
            lemma_remove_worker_keeps_wf(state, worker_id);
        },
        Request::RemoveTimedoutWorkers { now } => {
            lemma_remove_timedout_workers_keeps_wf(state, now);
        },
        Request::SetDrainWorker { worker_id, is_draining } => {
            if state.set_drain_worker(worker_id, is_draining) is Ok {
                lemma_set_drain_keeps_wf(state, worker_id, is_draining);
            }
        },
        Request::AddOperation { id, action_digest, info, needs_cache_check } => {
            let operation = OperationView {
                id,
                action_digest,
                stage: if needs_cache_check {
                    ActionStage::CacheCheck
                } else {
                    ActionStage::Queued
                },
                worker_id: None,
                lost_workers: 0,
                info,
            };
            if state.add_operation(operation) is Ok {
                lemma_add_operation_keeps_wf(state, operation);
            }
        },
        Request::CompleteCacheCheck { operation_id } => {
            if state.complete_cache_check(operation_id) is Ok {
                lemma_complete_cache_check_keeps_wf(state, operation_id);
            }
        },
        Request::Dispatch => {
            lemma_dispatch_keeps_wf(state);
        },
    }
}

/// Every state that a scheduler reaches is well formed.
pub proof fn lemma_reached_wf(worker_timeout: u64, requests: Seq<Request>)
    ensures
        reached(worker_timeout, requests).wf(),
    decreases requests.len(),
{
    if requests.len() == 0 {
        lemma_empty_wf(worker_timeout);
    } else {
        lemma_reached_wf(worker_timeout, requests.drop_last());
        lemma_apply_keeps_wf(reached(worker_timeout, requests.drop_last()), requests.last());
    }
}

/// No operation is assigned to two workers: what two different workers of
/// a well-formed state run has nothing in common.
pub proof fn lemma_assigned_sets_disjoint(state: SchedulerView, i: int, j: int, id: Seq<char>)
    requires
        state.wf(),
        0 <= i < state.workers.len(),
        0 <= j < state.workers.len(),
        i != j,
    ensures
        !(state.workers[i].running_operations.contains(id)
            && state.workers[j].running_operations.contains(id)),
{
    if state.workers[i].running_operations.contains(id)
        && state.workers[j].running_operations.contains(id) {
        assert(state.assignment_recorded(i, id));
        assert(state.assignment_recorded(j, id));
        if i < j {
            assert(state.workers[i].id != state.workers[j].id);
        } else {
            assert(state.workers[j].id != state.workers[i].id);
        }
    }
}

/// In every state that a scheduler reaches, no operation is assigned to two
/// workers.
pub proof fn lemma_reached_assigned_sets_disjoint(
    worker_timeout: u64,
    requests: Seq<Request>,
    i: int,
    j: int,
    id: Seq<char>,
)
    requires
        0 <= i < reached(worker_timeout, requests).workers.len(),
        0 <= j < reached(worker_timeout, requests).workers.len(),
        i != j,
    ensures
        !(reached(worker_timeout, requests).workers[i].running_operations.contains(id) && reached(
            worker_timeout,
            requests,
        ).workers[j].running_operations.contains(id)),
{
    lemma_reached_wf(worker_timeout, requests);
    lemma_assigned_sets_disjoint(reached(worker_timeout, requests), i, j, id);
}

/// Whether the store records the operation `id` as executing and owned by
/// the worker `worker_id`.
pub open spec fn executing_for(state: SchedulerView, worker_id: Seq<char>, id: Seq<char>) -> bool {
    exists|k: int|
        0 <= k < state.operations.len() && (#[trigger] state.operations[k]).id == id
            && state.operations[k].stage == ActionStage::Executing && state.operations[k].worker_id
            == Some(worker_id)
}

/// What a worker of a well-formed state runs is exactly what the store
/// records as executing and owned by it.
pub proof fn lemma_assigned_set_is_owned_executing(state: SchedulerView, i: int, id: Seq<char>)
    requires
        state.wf(),
        0 <= i < state.workers.len(),
    ensures
        state.workers[i].running_operations.contains(id) <==> executing_for(
            state,
            state.workers[i].id,
            id,
        ),
{
    if state.workers[i].running_operations.contains(id) {
        assert(state.assignment_recorded(i, id));
        let k = state.operation_index(id);
        assert(state.operations[k].id == id);
    }
    if executing_for(state, state.workers[i].id, id) {
        let k = choose|k: int|
            0 <= k < state.operations.len() && (#[trigger] state.operations[k]).id == id
                && state.operations[k].stage == ActionStage::Executing
                && state.operations[k].worker_id == Some(state.workers[i].id);
        assert(state.recorded_at_owner(k));
        lemma_worker_at(state, i);
    }
}

/// In every state that a scheduler reaches, what a worker runs is exactly
/// what the store records as executing and owned by it.
pub proof fn lemma_reached_assigned_set_is_owned_executing(
    worker_timeout: u64,
    requests: Seq<Request>,
    i: int,
    id: Seq<char>,
)
    requires
        0 <= i < reached(worker_timeout, requests).workers.len(),
    ensures
        reached(worker_timeout, requests).workers[i].running_operations.contains(id)
            <==> executing_for(
            reached(worker_timeout, requests),
            reached(worker_timeout, requests).workers[i].id,
            id,
        ),
{
    lemma_reached_wf(worker_timeout, requests);
    lemma_assigned_set_is_owned_executing(reached(worker_timeout, requests), i, id);
}

/// Every executing operation of a well-formed state is owned by a
/// registered worker that advertises what the operation requires.
pub proof fn lemma_owner_is_capable(state: SchedulerView, k: int)
    requires
        state.wf(),
        0 <= k < state.operations.len(),
        state.operations[k].stage == ActionStage::Executing,
    ensures
        state.operations[k].worker_id is Some,
        state.has_worker(state.operations[k].worker_id->0),
        crate::platform_properties::satisfied_by(
            state.operations[k].info.platform_properties,
            state.workers[state.worker_index(
                state.operations[k].worker_id->0,
            )].platform_properties,
        ),
{
    assert(state.recorded_at_owner(k));
}

/// Eviction removes exactly the workers that have timed out: a worker is
/// registered afterwards if and only if it was registered and the time at
/// which it was last heard of, plus the allowed silence, does not lie
/// before `now`; and it stands as it stood.
pub proof fn lemma_eviction_removes_exactly_the_silent(state: SchedulerView, now: u64, worker: WorkerView)
    requires
        state.wf(),
    ensures
        state.remove_timedout_workers(now).workers.contains(worker) <==> state.workers.contains(
            worker,
        ) && !(worker.last_update_timestamp + state.worker_timeout < now),
{
    let keep = |worker: WorkerView| !state.timed_out(worker, now);
    let after = state.remove_timedout_workers(now);
    lemma_filtered_workers(state, keep, state.workers.len() as int);
    assert(state.workers.take(state.workers.len() as int) =~= state.workers);
    if after.workers.contains(worker) {
        let a = choose|a: int| 0 <= a < after.workers.len() && after.workers[a] == worker;
        assert(keep(after.workers[a]));
        let b = choose|b: int| 0 <= b < state.workers.len() && state.workers[b] == after.workers[a];
        assert(state.workers[b] == worker);
    }
    if state.workers.contains(worker) && keep(worker) {
        let b = choose|b: int| 0 <= b < state.workers.len() && state.workers[b] == worker;
        assert(keep(state.workers[b]));
    }
}

/// Eviction queues again, with no owner and one more lost worker to its
/// name, every operation that a timed-out worker owned, and leaves every
/// other operation as it stood.
pub proof fn lemma_eviction_requeues_the_lost(state: SchedulerView, now: u64, k: int)
    requires
        state.wf(),
        0 <= k < state.operations.len(),
    ensures
        state.remove_timedout_workers(now).operations.len() == state.operations.len(),
        ({
            let before = state.operations[k];
            let after = state.remove_timedout_workers(now).operations[k];
            if before.worker_id is Some && state.timed_out(
                state.workers[state.worker_index(before.worker_id->0)],
                now,
            ) {
                after == (OperationView {
                    stage: ActionStage::Queued,
                    worker_id: None,
                    lost_workers: one_more(before.lost_workers),
                    ..before
                })
            } else {
                after == before
            }
        }),
{
    let before = state.operations[k];
    if before.worker_id is Some {
        let owner = before.worker_id->0;
        assert(state.recorded_at_owner(k));
        let i = state.worker_index(owner);
        if state.timed_out(state.workers[i], now) {
            assert(state.timed_out_ids(now).contains(owner));
        } else {
            if state.timed_out_ids(now).contains(owner) {
                let j = choose|j: int|
                    0 <= j < state.workers.len() && (#[trigger] state.workers[j]).id == owner
                        && state.timed_out(state.workers[j], now);
                lemma_worker_at(state, j);
            }
        }
    }
}

/// A dispatch pass, as far as it has gone, has changed no operation that
/// was not queued: what runs goes on running, with the worker that ran it.
pub proof fn lemma_dispatch_touches_only_queued(state: SchedulerView, n: nat, k: int)
    requires
        state.wf(),
        n <= state.operations.len(),
        0 <= k < state.operations.len(),
        state.operations[k].stage != ActionStage::Queued,
    ensures
        state.dispatch_prefix(n).operations[k] == state.operations[k],
    decreases n,
{
    if n > 0 {
        let earlier = state.dispatch_prefix((n - 1) as nat);
        lemma_dispatch_touches_only_queued(state, (n - 1) as nat, k);
        lemma_dispatch_prefix_keeps_wf(state, (n - 1) as nat);
        lemma_first_eligible(earlier, n - 1, 0);
    }
}

/// A dispatch pass, as far as it has gone, has given nothing to a worker
/// that is paused or draining: the worker stands as it stood.
pub proof fn lemma_dispatch_spares_paused_and_draining(state: SchedulerView, n: nat, i: int)
    requires
        state.wf(),
        n <= state.operations.len(),
        0 <= i < state.workers.len(),
        state.workers[i].is_paused || state.workers[i].is_draining,
    ensures
        state.dispatch_prefix(n).workers[i] == state.workers[i],
    decreases n,
{
    if n > 0 {
        let earlier = state.dispatch_prefix((n - 1) as nat);
        lemma_dispatch_spares_paused_and_draining(state, (n - 1) as nat, i);
        lemma_dispatch_prefix_keeps_wf(state, (n - 1) as nat);
        lemma_first_eligible(earlier, n - 1, 0);
    }
}

/// Once a worker is set to drain, a dispatch pass gives it nothing new,
/// and what it ran before goes on running with it.
pub proof fn lemma_draining_worker_keeps_its_work(state: SchedulerView, worker_id: Seq<char>, k: int)
    requires
        state.wf(),
        state.has_worker(worker_id),
        0 <= k < state.operations.len(),
    ensures
        state.set_drain_worker(worker_id, true) is Ok,
        ({
            let draining = state.set_drain_worker(worker_id, true)->Ok_0;
            let i = state.worker_index(worker_id);
            &&& draining.operations == state.operations
            &&& draining.workers[i].running_operations == state.workers[i].running_operations
            &&& draining.dispatch().workers[i] == draining.workers[i]
            &&& state.operations[k].worker_id == Some(worker_id) ==> draining.dispatch().operations[k]
                == state.operations[k]
        }),
{
    let draining = state.set_drain_worker(worker_id, true)->Ok_0;
    let i = state.worker_index(worker_id);
    lemma_set_drain_keeps_wf(state, worker_id, true);
    lemma_dispatch_spares_paused_and_draining(draining, draining.operations.len(), i);
    if state.operations[k].worker_id == Some(worker_id) {
        lemma_dispatch_touches_only_queued(draining, draining.operations.len(), k);
    }
}

/// Whether no worker of the state can be given the operation at `k`.
pub open spec fn nobody_eligible(state: SchedulerView, k: int) -> bool {
    forall|w: int| 0 <= w < state.workers.len() ==> !#[trigger] state.eligible(w, k)
}

/// A dispatch pass leaves an operation queued only where no worker can be
/// given it: of the operations that the pass has gone through, none that is
/// still queued has a worker that could take it.
pub proof fn lemma_dispatch_leaves_no_match(state: SchedulerView, n: nat, k: int)
    requires
        state.wf(),
        n <= state.operations.len(),
        0 <= k < n,
        state.dispatch_prefix(n).operations[k].stage == ActionStage::Queued,
    ensures
        nobody_eligible(state.dispatch_prefix(n), k),
    decreases n,
{
    let earlier = state.dispatch_prefix((n - 1) as nat);
    let after = state.dispatch_prefix(n);
    lemma_dispatch_prefix_keeps_wf(state, (n - 1) as nat);
    lemma_first_eligible(earlier, n - 1, 0);
    if k == n - 1 {
        assert(earlier.operations[k].stage == ActionStage::Queued);
        assert(after == earlier);
    } else {
        assert(earlier.operations[k].stage == ActionStage::Queued);
        lemma_dispatch_leaves_no_match(state, (n - 1) as nat, k);
        assert forall|w: int| 0 <= w < after.workers.len() implies !#[trigger] after.eligible(
            w,
            k,
        ) by {
            assert(!earlier.eligible(w, k));
        }
    }
}

/// What a filter for queued operations hands out is queued: it has no
/// owner and has not ended.
pub proof fn lemma_queued_filter_yields_unowned(
    state: SchedulerView,
    filter: OperationFilterView,
    j: int,
)
    requires
        state.wf(),
        filter.stages == (OperationStageFlags { queued: true, ..OperationStageFlags::none() }),
        0 <= j < state.filter_operations(filter).len(),
    ensures
        state.filter_operations(filter)[j].stage == ActionStage::Queued,
        state.filter_operations(filter)[j].worker_id is None,
        !state.filter_operations(filter)[j].stage.finished(),
{
    lemma_filter_yields_passing(state, filter, j);
    let k = choose|k: int|
        0 <= k < state.operations.len() && state.operations[k] == state.filter_operations(
            filter,
        )[j];
    assert(state.operations[k].worker_id is Some <==> state.operations[k].stage
        == ActionStage::Executing);
}

/// What a filter for a worker hands out is owned by that worker now: the
/// store records the worker as the owner, and the worker holds the
/// operation among those assigned to it.
pub proof fn lemma_worker_filter_yields_owned(
    state: SchedulerView,
    filter: OperationFilterView,
    j: int,
)
    requires
        state.wf(),
        filter.worker_id is Some,
        0 <= j < state.filter_operations(filter).len(),
    ensures
        state.filter_operations(filter)[j].worker_id == filter.worker_id,
        state.owns(filter.worker_id->0, state.filter_operations(filter)[j].id),
{
    lemma_filter_yields_passing(state, filter, j);
    let k = choose|k: int|
        0 <= k < state.operations.len() && state.operations[k] == state.filter_operations(
            filter,
        )[j];
    assert(state.operations[k].worker_id is Some <==> state.operations[k].stage
        == ActionStage::Executing);
    assert(state.recorded_at_owner(k));
}

/// What a filter hands out is an operation of the store that passes the
/// filter, and a filter with a limit hands out no more than the limit.
pub proof fn lemma_filter_yields_passing(state: SchedulerView, filter: OperationFilterView, j: int)
    requires
        0 <= j < state.filter_operations(filter).len(),
    ensures
        state.filter_operations(filter)[j].passes(filter),
        exists|k: int|
            0 <= k < state.operations.len() && state.operations[k] == state.filter_operations(
                filter,
            )[j],
        filter.limit is Some ==> state.filter_operations(filter).len() <= filter.limit->0,
{
    let test = passing(filter);
    let found = state.operations.filter(test);
    state.operations.lemma_filter_pred(test, j);
    assert(found[j] == state.filter_operations(filter)[j]);
    assert(found.contains(found[j]));
    state.operations.lemma_filter_contains_rev(test, found[j]);
}

/// Whether a worker stands as another does but for what is assigned to it,
/// of which it holds no less.
pub open spec fn gained_at_most(before: WorkerView, after: WorkerView) -> bool {
    &&& after == (WorkerView { running_operations: after.running_operations, ..before })
    &&& after.running_operations.len() >= before.running_operations.len()
}

/// Whether an operation stands as another does, or has gone from the queue
/// to a worker and is otherwise the same.
pub open spec fn same_or_assigned(before: OperationView, after: OperationView) -> bool {
    ||| after == before
    ||| before.stage == ActionStage::Queued && after == (OperationView {
        stage: ActionStage::Executing,
        worker_id: after.worker_id,
        ..before
    })
}

/// What a dispatch pass, as far as it has gone, can have changed: a worker
/// only in what is assigned to it, of which it holds no less; an operation
/// only by going from the queue to a worker; and no operation that the pass
/// has not come to yet.
pub proof fn lemma_dispatch_changes_little(state: SchedulerView, n: nat)
    requires
        state.wf(),
        n <= state.operations.len(),
    ensures
        state.dispatch_prefix(n).workers.len() == state.workers.len(),
        state.dispatch_prefix(n).operations.len() == state.operations.len(),
        forall|i: int|
            0 <= i < state.workers.len() ==> gained_at_most(
                state.workers[i],
                #[trigger] state.dispatch_prefix(n).workers[i],
            ),
        forall|k: int|
            0 <= k < state.operations.len() ==> same_or_assigned(
                state.operations[k],
                #[trigger] state.dispatch_prefix(n).operations[k],
            ),
        forall|k: int|
            n <= k < state.operations.len() ==> #[trigger] state.dispatch_prefix(n).operations[k]
                == state.operations[k],
    decreases n,
{
    if n > 0 {
        let earlier = state.dispatch_prefix((n - 1) as nat);
        let after = state.dispatch_prefix(n);
        lemma_dispatch_changes_little(state, (n - 1) as nat);
        lemma_dispatch_prefix_keeps_wf(state, (n - 1) as nat);
        lemma_first_eligible(earlier, n - 1, 0);
        assert forall|i: int| 0 <= i < state.workers.len() implies gained_at_most(
            state.workers[i],
            #[trigger] after.workers[i],
        ) by {
            assert(gained_at_most(state.workers[i], earlier.workers[i]));
        }
        assert forall|k: int| 0 <= k < state.operations.len() implies same_or_assigned(
            state.operations[k],
            #[trigger] after.operations[k],
        ) by {
            assert(same_or_assigned(state.operations[k], earlier.operations[k]));
            assert(earlier.operations[n - 1] == state.operations[n - 1]);
        }
        assert forall|k: int| n <= k < state.operations.len() implies #[trigger] after.operations[k]
            == state.operations[k] by {
            assert(earlier.operations[k] == state.operations[k]);
        }
    }
}

/// A queued operation is passed over only for operations that are served
/// before it: where a worker could be given the operation at `k` before a
/// dispatch pass and the pass leaves the operation queued, the worker has
/// been given something by the time the pass comes to `k`.
pub proof fn lemma_passed_over_only_for_earlier(state: SchedulerView, w: int, k: int)
    requires
        state.wf(),
        0 <= w < state.workers.len(),
        0 <= k < state.operations.len(),
        state.eligible(w, k),
        state.dispatch().operations[k].stage == ActionStage::Queued,
    ensures
        state.dispatch_prefix(k as nat).workers[w].running_operations.len()
            > state.workers[w].running_operations.len(),
{
    let reached_k = state.dispatch_prefix(k as nat);
    let past_k = state.dispatch_prefix((k + 1) as nat);
    lemma_dispatch_changes_little(state, k as nat);
    lemma_dispatch_changes_little(state, (k + 1) as nat);
    lemma_dispatch_prefix_keeps_wf(state, k as nat);
    lemma_dispatch_prefix_keeps_wf(state, (k + 1) as nat);
    lemma_first_eligible(reached_k, k, 0);
    lemma_later_steps_keep(state, (k + 1) as nat, state.operations.len(), k);
    assert(past_k.operations[k].stage == ActionStage::Queued);
    assert(reached_k.operations[k] == state.operations[k]);
    assert(gained_at_most(state.workers[w], reached_k.workers[w]));
    assert(!reached_k.eligible(w, k));
}

/// An operation that a dispatch pass has left queued when it came to it is
/// still queued at any later point of the pass, and one that it has
/// assigned stays assigned.
pub proof fn lemma_later_steps_keep(state: SchedulerView, from: nat, to: nat, k: int)
    requires
        state.wf(),
        0 <= k < from <= to <= state.operations.len(),
    ensures
        state.dispatch_prefix(to).operations[k] == state.dispatch_prefix(from).operations[k],
    decreases to - from,
{
    if from < to {
        let earlier = state.dispatch_prefix((to - 1) as nat);
        lemma_later_steps_keep(state, from, (to - 1) as nat, k);
        lemma_dispatch_prefix_keeps_wf(state, (to - 1) as nat);
        lemma_first_eligible(earlier, to - 1, 0);
    }
}

/// Removal is safe to repeat: the second removal of a worker changes
/// nothing.
pub proof fn lemma_remove_worker_twice(state: SchedulerView, worker_id: Seq<char>)
    requires
        state.wf(),
    ensures
        state.remove_worker(worker_id).remove_worker(worker_id) == state.remove_worker(worker_id),
{
    if state.has_worker(worker_id) {
        let after = state.remove_worker(worker_id);
        let i = state.worker_index(worker_id);
        if after.has_worker(worker_id) {
            let a = after.worker_index(worker_id);
            let b = if a < i {
                a
            } else {
                a + 1
            };
            assert(state.workers[b] == after.workers[a]);
            lemma_worker_at(state, b);
        }
    }
}

/// Eviction is safe to repeat: a second eviction at the same time changes
/// nothing.
pub proof fn lemma_eviction_twice(state: SchedulerView, now: u64)
    requires
        state.wf(),
    ensures
        state.remove_timedout_workers(now).remove_timedout_workers(now)
            == state.remove_timedout_workers(now),
{
    let after = state.remove_timedout_workers(now);
    let again = after.remove_timedout_workers(now);
    let keep = |worker: WorkerView| !state.timed_out(worker, now);
    let keep_again = |worker: WorkerView| !after.timed_out(worker, now);
    lemma_filtered_workers(state, keep, state.workers.len() as int);
    assert(state.workers.take(state.workers.len() as int) =~= state.workers);
    lemma_remove_timedout_workers_keeps_wf(state, now);
    lemma_filter_keeps_all(after.workers, keep_again);
    assert(after.timed_out_ids(now) =~= Set::<Seq<char>>::empty()) by {
        assert forall|id: Seq<char>| !after.timed_out_ids(now).contains(id) by {
            if after.timed_out_ids(now).contains(id) {
                let i = choose|i: int|
                    0 <= i < after.workers.len() && (#[trigger] after.workers[i]).id == id
                        && after.timed_out(after.workers[i], now);
                assert(keep(after.workers[i]));
            }
        }
    }
    assert(again.operations =~= after.operations);
}

/// The stage of the operation that the store holds under the id.
pub open spec fn stage_of(state: SchedulerView, id: Seq<char>) -> ActionStage {
    state.operations[state.operation_index(id)].stage
}

/// Whether a request may take an operation from one stage to another. An
/// operation goes from the cache check to the queue when the check ends,
/// from the queue to a worker by a dispatch pass, from a worker back to the
/// queue when the worker is lost, and from a worker to its end by the
/// worker's report. Nothing leaves a stage in which an operation has
/// ended.
pub open spec fn step_allowed(before: ActionStage, after: ActionStage, request: Request) -> bool {
    ||| after == before
    ||| before == ActionStage::CacheCheck && after == ActionStage::Queued
        && request is CompleteCacheCheck
    ||| before == ActionStage::Queued && after == ActionStage::Executing && request is Dispatch
    ||| before == ActionStage::Executing && after == ActionStage::Queued && (request is RemoveWorker
        || request is RemoveTimedoutWorkers)
    ||| before == ActionStage::Executing && after.finished() && request is UpdateAction
}

/// No request drops an operation from the store, and every request moves
/// an operation only as [`step_allowed`] says.
pub proof fn lemma_stage_steps(state: SchedulerView, request: Request, id: Seq<char>)
    requires
        state.wf(),
        state.has_operation(id),
    ensures
        apply(state, request).has_operation(id),
        step_allowed(stage_of(state, id), stage_of(apply(state, request), id), request),
{
    let after = apply(state, request);
    let k = state.operation_index(id);
    lemma_apply_keeps_wf(state, request);
    match request {
        Request::AddOperation { id: new_id, action_digest, info, needs_cache_check } => {
            let operation = OperationView {
                id: new_id,
                action_digest,
                stage: if needs_cache_check {
                    ActionStage::CacheCheck
                } else {
                    ActionStage::Queued
                },
                worker_id: None,
                lost_workers: 0,
                info,
            };
            if state.add_operation(operation) is Ok {
                let place = queue_position(state.operations, operation);
                lemma_queue_position(state.operations, operation);
                let moved = if k < place {
                    k
                } else {
                    k + 1
                };
                assert(after.operations[moved] == state.operations[k]);
                lemma_operation_at(after, moved);
            }
        },
        Request::Dispatch => {
            lemma_dispatch_changes_little(state, state.operations.len());
            lemma_same_operation_ids(state, after);
            assert(same_or_assigned(state.operations[k], after.operations[k]));
        },
        Request::UpdateAction { worker_id, operation_id, update } => {
            lemma_same_operation_ids(state, after);
            if state.update_action(worker_id, operation_id, update) is Ok {
                let i = state.worker_index(worker_id);
                assert(state.assignment_recorded(i, operation_id));
            }
        },
        Request::RemoveWorker { worker_id } => {
            lemma_same_operation_ids(state, after);
            assert(state.operations[k].worker_id is Some <==> state.operations[k].stage
                == ActionStage::Executing);
        },
        Request::RemoveTimedoutWorkers { now } => {
            lemma_same_operation_ids(state, after);
            assert(state.operations[k].worker_id is Some <==> state.operations[k].stage
                == ActionStage::Executing);
        },
        _ => {
            lemma_same_operation_ids(state, after);
        },
    }
}

/// Whether no two operations of a list stand under one id.
pub open spec fn ids_differ(operations: Seq<OperationView>) -> bool {
    forall|i: int, j: int|
        0 <= i < j < operations.len() ==> (#[trigger] operations[i]).id != (
        #[trigger] operations[j]).id
}

/// What is left of the first `n` operations when those that fail a test
/// are taken out: operations of the first `n`, each passing the test, under
/// ids that still differ, and among them every one of the first `n` that
/// passes.
pub proof fn lemma_filtered_operations(
    operations: Seq<OperationView>,
    keep: spec_fn(OperationView) -> bool,
    n: int,
)
    requires
        ids_differ(operations),
        0 <= n <= operations.len(),
    ensures
        ({
            let kept = operations.take(n).filter(keep);
            &&& forall|a: int|
                0 <= a < kept.len() ==> keep(#[trigger] kept[a]) && exists|b: int|
                    0 <= b < n && operations[b] == kept[a]
            &&& ids_differ(kept)
            &&& forall|b: int|
                0 <= b < n && keep(#[trigger] operations[b]) ==> kept.contains(operations[b])
        }),
    decreases n,
{
    if n == 0 {
        assert(operations.take(0).filter(keep) =~= Seq::<OperationView>::empty());
    } else {
        lemma_filtered_operations(operations, keep, n - 1);
        let shorter = operations.take(n - 1);
        let last = operations[n - 1];
        assert(operations.take(n) =~= shorter.push(last));
        shorter.lemma_filter_push(last, keep);
        let earlier = shorter.filter(keep);
        let kept = operations.take(n).filter(keep);
        if keep(last) {
            assert(kept == earlier.push(last));
            assert forall|a: int| 0 <= a < kept.len() implies keep(#[trigger] kept[a])
                && exists|b: int| 0 <= b < n && operations[b] == kept[a] by {
                if a < earlier.len() {
                    assert(kept[a] == earlier[a]);
                    let b = choose|b: int| 0 <= b < n - 1 && operations[b] == earlier[a];
                    assert(operations[b] == kept[a]);
                } else {
                    assert(operations[n - 1] == kept[a]);
                }
            }
            assert forall|a: int, b: int| 0 <= a < b < kept.len() implies (#[trigger] kept[a]).id
                != (#[trigger] kept[b]).id by {
                if b < earlier.len() {
                    assert(earlier[a].id != earlier[b].id);
                } else {
                    assert(kept[a] == earlier[a]);
                    let x = choose|x: int| 0 <= x < n - 1 && operations[x] == earlier[a];
                    assert(operations[x].id != operations[n - 1].id);
                }
            }
            assert forall|b: int| 0 <= b < n && keep(#[trigger] operations[b]) implies kept.contains(
                operations[b],
            ) by {
                if b < n - 1 {
                    assert(earlier.contains(operations[b]));
                    let a = choose|a: int| 0 <= a < earlier.len() && earlier[a] == operations[b];
                    assert(kept[a] == operations[b]);
                } else {
                    assert(kept[earlier.len() as int] == operations[b]);
                }
            }
        } else {
            assert(kept == earlier);
            assert forall|a: int| 0 <= a < kept.len() implies keep(#[trigger] kept[a])
                && exists|b: int| 0 <= b < n && operations[b] == kept[a] by {
                let b = choose|b: int| 0 <= b < n - 1 && operations[b] == earlier[a];
                assert(operations[b] == kept[a]);
            }
        }
    }
}

/// Whether a filter's limit cuts nothing off a list: it has none, or no
/// more operations pass than it allows.
pub open spec fn limit_suffices(operations: Seq<OperationView>, filter: OperationFilterView) -> bool {
    filter.limit matches Some(most) ==> operations.filter(passing(filter)).len() <= most
}

/// What a filter hands out of a store whose ids differ: operations of the
/// store that pass it, each once, and no more than its limit allows; and
/// where the limit cuts nothing off, every operation that passes.
pub proof fn lemma_listing(operations: Seq<OperationView>, filter: OperationFilterView)
    requires
        ids_differ(operations),
    ensures
        forall|j: int|
            0 <= j < filtered(operations, filter).len() ==> (#[trigger] filtered(
                operations,
                filter,
            )[j]).passes(filter) && operations.contains(filtered(operations, filter)[j]),
        ids_differ(filtered(operations, filter)),
        filter.limit matches Some(most) ==> filtered(operations, filter).len() <= most,
        limit_suffices(operations, filter) ==> filtered(operations, filter) == operations.filter(
            passing(filter),
        ),
        limit_suffices(operations, filter) ==> forall|k: int|
            0 <= k < operations.len() && (#[trigger] operations[k]).passes(filter) ==> filtered(
                operations,
                filter,
            ).contains(operations[k]),
{
    let test = passing(filter);
    let found = operations.filter(test);
    let listed = filtered(operations, filter);
    lemma_filtered_operations(operations, test, operations.len() as int);
    assert(operations.take(operations.len() as int) =~= operations);
    assert forall|j: int| 0 <= j < listed.len() implies (#[trigger] listed[j]).passes(filter)
        && operations.contains(listed[j]) by {
        assert(listed[j] == found[j]);
        assert(test(found[j]));
        let b = choose|b: int| 0 <= b < operations.len() && operations[b] == found[j];
        assert(operations[b] == listed[j]);
    }
    assert forall|a: int, b: int| 0 <= a < b < listed.len() implies (#[trigger] listed[a]).id != (
    #[trigger] listed[b]).id by {
        assert(found[a].id != found[b].id);
    }
    if limit_suffices(operations, filter) {
        assert(listed == found);
        assert forall|k: int|
            0 <= k < operations.len() && (#[trigger] operations[k]).passes(filter) implies listed.contains(
            operations[k],
        ) by {
            assert(test(operations[k]));
        }
    }
}

/// What a filter for queued operations hands out of a consistent store is
/// queued: it has no owner and has not ended.
pub proof fn lemma_queued_listing(operations: Seq<OperationView>, filter: OperationFilterView)
    requires
        store_consistent(operations),
        filter.stages == (OperationStageFlags { queued: true, ..OperationStageFlags::none() }),
    ensures
        forall|j: int|
            0 <= j < filtered(operations, filter).len() ==> {
                &&& (#[trigger] filtered(operations, filter)[j]).stage == ActionStage::Queued
                &&& filtered(operations, filter)[j].worker_id is None
                &&& !filtered(operations, filter)[j].stage.finished()
            },
{
    lemma_listing(operations, filter);
    let listed = filtered(operations, filter);
    assert forall|j: int| 0 <= j < listed.len() implies {
        &&& (#[trigger] listed[j]).stage == ActionStage::Queued
        &&& listed[j].worker_id is None
        &&& !listed[j].stage.finished()
    } by {
        assert(listed[j].passes(filter));
        let k = choose|k: int| 0 <= k < operations.len() && operations[k] == listed[j];
        assert(operations[k].worker_id is Some <==> operations[k].stage
            == ActionStage::Executing);
    }
}

/// What a filter for a worker's executing operations hands out is what the
/// worker runs, each operation once: as many operations as are assigned to
/// the worker, each executing, owned by it and assigned to it, and among
/// them every one that is assigned to it. This holds where the filter's
/// limit, if it has one, is no less than what the worker runs.
pub proof fn lemma_worker_listing_is_what_it_runs(
    state: SchedulerView,
    i: int,
    filter: OperationFilterView,
)
    requires
        state.wf(),
        0 <= i < state.workers.len(),
        filter.worker_id == Some(state.workers[i].id),
        filter.stages.holds(ActionStage::Executing),
        filter.limit matches Some(most) ==> state.workers[i].running_operations.len() <= most,
    ensures
        filtered(state.operations, filter).len() == state.workers[i].running_operations.len(),
        filtered(state.operations, filter) == state.operations.filter(passing(filter)),
        ids_differ(filtered(state.operations, filter)),
        forall|j: int|
            0 <= j < filtered(state.operations, filter).len() ==> {
                &&& (#[trigger] filtered(state.operations, filter)[j]).stage
                    == ActionStage::Executing
                &&& filtered(state.operations, filter)[j].worker_id == Some(state.workers[i].id)
                &&& state.workers[i].running_operations.contains(
                    filtered(state.operations, filter)[j].id,
                )
            },
        forall|id: Seq<char>| #[trigger]
            state.workers[i].running_operations.contains(id) ==> exists|j: int|
                0 <= j < filtered(state.operations, filter).len() && (#[trigger] filtered(
                    state.operations,
                    filter,
                )[j]).id == id,
{
    let operations = state.operations;
    let running = state.workers[i].running_operations;
    let test = passing(filter);
    let found = operations.filter(test);
    let unlimited = OperationFilterView { limit: None, ..filter };
    assert(passing(unlimited) =~= test);
    assert(filtered(operations, unlimited) == found);
    lemma_listing(operations, unlimited);
    lemma_worker_at(state, i);
    assert forall|j: int| 0 <= j < found.len() implies {
        &&& (#[trigger] found[j]).stage == ActionStage::Executing
        &&& found[j].worker_id == Some(state.workers[i].id)
        &&& running.contains(found[j].id)
    } by {
        assert(found[j].passes(unlimited));
        let k = choose|k: int| 0 <= k < operations.len() && operations[k] == found[j];
        assert(operations[k].worker_id is Some <==> operations[k].stage
            == ActionStage::Executing);
        assert(state.recorded_at_owner(k));
    }
    assert forall|id: Seq<char>| #[trigger] running.contains(id) implies exists|j: int|
        0 <= j < found.len() && (#[trigger] found[j]).id == id by {
        assert(state.assignment_recorded(i, id));
        let k = state.operation_index(id);
        assert(operations[k].passes(unlimited));
        assert(found.contains(operations[k]));
        let j = choose|j: int| 0 <= j < found.len() && found[j] == operations[k];
        assert(found[j].id == id);
    }
    let ids = found.map_values(|operation: OperationView| operation.id);
    assert(ids.no_duplicates()) by {
        assert forall|a: int, b: int| 0 <= a < ids.len() && 0 <= b < ids.len() && a != b implies ids[a]
            != ids[b] by {
            if a < b {
                assert(found[a].id != found[b].id);
            } else {
                assert(found[b].id != found[a].id);
            }
        }
    }
    assert(ids.to_set() =~= running.to_set()) by {
        assert forall|id: Seq<char>| ids.to_set().contains(id) <==> running.to_set().contains(
            id,
        ) by {
            if ids.contains(id) {
                let j = choose|j: int| 0 <= j < ids.len() && ids[j] == id;
                assert(running.contains(found[j].id));
            }
            if running.contains(id) {
                let j = choose|j: int| 0 <= j < found.len() && (#[trigger] found[j]).id == id;
                assert(ids[j] == id);
            }
        }
    }
    ids.unique_seq_to_set();
    running.unique_seq_to_set();
    assert(found.len() == running.len());
    assert(filtered(operations, filter) == found);
}

/// After an eviction a filter for queued operations hands out what the
/// evicted workers ran: the operation at `k`, which a worker that has timed
/// out owned, is among what the filter hands out, queued and with no
/// owner. This holds where the filter's limit cuts nothing off.
pub proof fn lemma_evicted_work_is_listed(
    state: SchedulerView,
    now: u64,
    k: int,
    filter: OperationFilterView,
)
    requires
        state.wf(),
        0 <= k < state.operations.len(),
        state.operations[k].worker_id is Some,
        state.timed_out(state.workers[state.worker_index(state.operations[k].worker_id->0)], now),
        filter.stages.holds(ActionStage::Queued),
        filter.worker_id is None,
        limit_suffices(state.remove_timedout_workers(now).operations, filter),
    ensures
        state.remove_timedout_workers(now).operations[k] == requeued(state.operations[k]),
        filtered(state.remove_timedout_workers(now).operations, filter).contains(
            requeued(state.operations[k]),
        ),
{
    let after = state.remove_timedout_workers(now);
    lemma_eviction_requeues_the_lost(state, now, k);
    lemma_remove_timedout_workers_keeps_wf(state, now);
    lemma_listing(after.operations, filter);
    assert(after.operations[k].passes(filter));
}

} // verus!
