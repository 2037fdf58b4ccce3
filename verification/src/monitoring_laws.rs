//! What holds of the lists and the counts that are shown of a scheduler,
//! stated over its model and proved.

use vstd::prelude::*;
use crate::action_messages::ActionStage;
use crate::invariants::{lemma_remove_worker_keeps_wf, lemma_worker_at};
use crate::laws::{
    lemma_evicted_work_is_listed, lemma_queued_listing, lemma_worker_listing_is_what_it_runs,
    limit_suffices,
};
use crate::monitoring_server::{
    filter_for, lemma_same_count, operation_ended, operation_runs, operation_waits,
    shown_operation, shows_operations, stages_named, sums_up, OperationInfo, SchedulerStatus,
    DEFAULT_OPERATION_LIMIT,
};
use crate::operation_state_manager::{OperationFilterView, OperationStageFlags, OperationView};
use crate::scheduler_state::{
    filtered, passing, requeue_lost, requeued, store_consistent, SchedulerView,
};
use crate::worker::WorkerView;

verus! {

/// The word for queued operations names them, and the word for executing
/// operations names those.
pub proof fn lemma_stage_words()
    ensures
        stages_named("queued"@) == (OperationStageFlags {
            queued: true,
            ..OperationStageFlags::none()
        }),
        stages_named("executing"@) == (OperationStageFlags {
            executing: true,
            ..OperationStageFlags::none()
        }),
{
    reveal_strlit("queued");
    reveal_strlit("executing");
    assert("queued"@.len() != "executing"@.len());
}

/// A query for queued operations is shown only operations that wait: each
/// is named queued, has no owner and has not ended. This holds of every
/// consistent store, whatever worker and limit the query names.
pub proof fn lemma_queued_query_shows_waiting(
    operations: Seq<OperationView>,
    worker_id: Option<Seq<char>>,
    limit: Option<usize>,
    shown: Seq<OperationInfo>,
)
    requires
        store_consistent(operations),
        shows_operations(
            shown,
            filtered(operations, filter_for(Some("queued"@), worker_id, limit)),
        ),
    ensures
        forall|i: int|
            0 <= i < shown.len() ==> {
                &&& !(#[trigger] shown[i]).is_finished
                &&& shown[i].worker_id is None
                &&& shown[i].stage@ == "Queued"@
            },
{
    let filter = filter_for(Some("queued"@), worker_id, limit);
    lemma_stage_words();
    lemma_queued_listing(operations, filter);
    assert forall|i: int| 0 <= i < shown.len() implies {
        &&& !(#[trigger] shown[i]).is_finished
        &&& shown[i].worker_id is None
        &&& shown[i].stage@ == "Queued"@
    } by {
        assert(shown[i]@ == shown_operation(filtered(operations, filter)[i]));
    }
}

/// The limit that a query is held to: its own, or the default.
pub open spec fn limit_of(limit: Option<usize>) -> usize {
    match limit {
        Some(most) => most,
        None => DEFAULT_OPERATION_LIMIT,
    }
}

/// A query for the executing operations of a worker is shown what the
/// worker runs, each operation once: as many operations as are assigned to
/// the worker, each named executing, owned by the worker and not ended,
/// under ids that differ, and among them every operation that is assigned
/// to the worker. This holds where the worker runs no more than the query's
/// limit.
pub proof fn lemma_worker_query_shows_what_the_worker_runs(
    state: SchedulerView,
    i: int,
    limit: Option<usize>,
    shown: Seq<OperationInfo>,
)
    requires
        state.wf(),
        0 <= i < state.workers.len(),
        state.workers[i].running_operations.len() <= limit_of(limit),
        shows_operations(
            shown,
            filtered(
                state.operations,
                filter_for(Some("executing"@), Some(state.workers[i].id), limit),
            ),
        ),
    ensures
        shown.len() == state.workers[i].running_operations.len(),
        forall|j: int|
            0 <= j < shown.len() ==> {
                &&& !(#[trigger] shown[j]).is_finished
                &&& shown[j]@.worker_id == Some(state.workers[i].id)
                &&& shown[j].stage@ == "Executing"@
                &&& state.workers[i].running_operations.contains(shown[j].client_operation_id@)
            },
        forall|a: int, b: int|
            0 <= a < b < shown.len() ==> (#[trigger] shown[a]).client_operation_id@ != (
            #[trigger] shown[b]).client_operation_id@,
        forall|id: Seq<char>| #[trigger]
            state.workers[i].running_operations.contains(id) ==> exists|j: int|
                0 <= j < shown.len() && (#[trigger] shown[j]).client_operation_id@ == id,
{
    let filter = filter_for(Some("executing"@), Some(state.workers[i].id), limit);
    let listed = filtered(state.operations, filter);
    lemma_stage_words();
    lemma_worker_listing_is_what_it_runs(state, i, filter);
    assert forall|j: int| 0 <= j < shown.len() implies {
        &&& !(#[trigger] shown[j]).is_finished
        &&& shown[j]@.worker_id == Some(state.workers[i].id)
        &&& shown[j].stage@ == "Executing"@
        &&& state.workers[i].running_operations.contains(shown[j].client_operation_id@)
    } by {
        assert(shown[j]@ == shown_operation(listed[j]));
    }
    assert forall|a: int, b: int| 0 <= a < b < shown.len() implies (
    #[trigger] shown[a]).client_operation_id@ != (#[trigger] shown[b]).client_operation_id@ by {
        assert(shown[a]@ == shown_operation(listed[a]));
        assert(shown[b]@ == shown_operation(listed[b]));
        assert(listed[a].id != listed[b].id);
    }
    assert forall|id: Seq<char>| #[trigger]
        state.workers[i].running_operations.contains(id) implies exists|j: int|
        0 <= j < shown.len() && (#[trigger] shown[j]).client_operation_id@ == id by {
        let j = choose|j: int| 0 <= j < listed.len() && (#[trigger] listed[j]).id == id;
        assert(shown[j]@ == shown_operation(listed[j]));
    }
}

/// After an eviction a query for queued operations is shown what the
/// evicted workers ran: the operation at `k`, which a worker that has timed
/// out owned, is shown under its id, named queued, with no owner and not
/// ended. This holds where no more operations wait than the query's limit.
pub proof fn lemma_queued_query_shows_evicted_work(
    state: SchedulerView,
    now: u64,
    k: int,
    limit: Option<usize>,
    shown: Seq<OperationInfo>,
)
    requires
        state.wf(),
        0 <= k < state.operations.len(),
        state.operations[k].worker_id is Some,
        state.timed_out(state.workers[state.worker_index(state.operations[k].worker_id->0)], now),
        limit_suffices(
            state.remove_timedout_workers(now).operations,
            filter_for(Some("queued"@), None, limit),
        ),
        shows_operations(
            shown,
            filtered(
                state.remove_timedout_workers(now).operations,
                filter_for(Some("queued"@), None, limit),
            ),
        ),
    ensures
        exists|j: int|
            0 <= j < shown.len() && {
                &&& (#[trigger] shown[j]).client_operation_id@ == state.operations[k].id
                &&& shown[j].stage@ == "Queued"@
                &&& shown[j].worker_id is None
                &&& !shown[j].is_finished
            },
{
    let filter = filter_for(Some("queued"@), None, limit);
    let listed = filtered(state.remove_timedout_workers(now).operations, filter);
    lemma_stage_words();
    lemma_evicted_work_is_listed(state, now, k, filter);
    let j = choose|j: int| 0 <= j < listed.len() && listed[j] == requeued(state.operations[k]);
    assert(shown[j]@ == shown_operation(listed[j]));
}

/// A list of which no entry passes a test is left empty by it.
pub proof fn lemma_filter_drops_all<A>(list: Seq<A>, test: spec_fn(A) -> bool)
    requires
        forall|i: int| 0 <= i < list.len() ==> !test(#[trigger] list[i]),
    ensures
        list.filter(test).len() == 0,
    decreases list.len(),
{
    if list.len() == 0 {
        assert(list.filter(test) =~= list);
    } else {
        let shorter = list.drop_last();
        assert forall|i: int| 0 <= i < shorter.len() implies !test(#[trigger] shorter[i]) by {
            assert(shorter[i] == list[i]);
        }
        lemma_filter_drops_all(shorter, test);
        assert(list =~= shorter.push(list.last()));
        shorter.lemma_filter_push(list.last(), test);
        assert(!test(list[list.len() - 1]));
    }
}

/// Two tests of which every entry passes exactly one part a list in two.
pub proof fn lemma_filter_split<A>(list: Seq<A>, test: spec_fn(A) -> bool, other: spec_fn(A) -> bool)
    requires
        forall|i: int| 0 <= i < list.len() ==> test(#[trigger] list[i]) != other(list[i]),
    ensures
        list.filter(test).len() + list.filter(other).len() == list.len(),
    decreases list.len(),
{
    if list.len() == 0 {
        assert(list.filter(test) =~= list);
        assert(list.filter(other) =~= list);
    } else {
        let shorter = list.drop_last();
        assert forall|i: int| 0 <= i < shorter.len() implies test(#[trigger] shorter[i]) != other(
            shorter[i],
        ) by {
            assert(shorter[i] == list[i]);
        }
        lemma_filter_split(shorter, test, other);
        assert(list =~= shorter.push(list.last()));
        shorter.lemma_filter_push(list.last(), test);
        shorter.lemma_filter_push(list.last(), other);
        assert(test(list[list.len() - 1]) != other(list[list.len() - 1]));
    }
}

/// The test for an operation that a worker of `lost` owns.
pub open spec fn lost_work(lost: Set<Seq<char>>) -> spec_fn(OperationView) -> bool {
    |operation: OperationView| operation.worker_id is Some && lost.contains(operation.worker_id->0)
}

/// Whether every operation of a list has an owner exactly while it is
/// executing.
pub open spec fn owned_while_executing(operations: Seq<OperationView>) -> bool {
    forall|k: int|
        0 <= k < operations.len() ==> ((#[trigger] operations[k]).worker_id is Some
            <==> operations[k].stage == ActionStage::Executing)
}

/// How the counts move when workers are lost: as many operations fewer run
/// and as many more wait as the lost workers owned, and as many have ended
/// as before.
pub proof fn lemma_requeue_counts(operations: Seq<OperationView>, lost: Set<Seq<char>>)
    requires
        owned_while_executing(operations),
    ensures
        requeue_lost(operations, lost).len() == operations.len(),
        requeue_lost(operations, lost).filter(operation_runs()).len() + operations.filter(
            lost_work(lost),
        ).len() == operations.filter(operation_runs()).len(),
        requeue_lost(operations, lost).filter(operation_waits()).len() == operations.filter(
            operation_waits(),
        ).len() + operations.filter(lost_work(lost)).len(),
        requeue_lost(operations, lost).filter(operation_ended()).len() == operations.filter(
            operation_ended(),
        ).len(),
    decreases operations.len(),
{
    let after = requeue_lost(operations, lost);
    if operations.len() == 0 {
        assert(after =~= operations);
        assert(operations.filter(operation_runs()) =~= operations);
        assert(operations.filter(operation_waits()) =~= operations);
        assert(operations.filter(operation_ended()) =~= operations);
        assert(operations.filter(lost_work(lost)) =~= operations);
    } else {
        let shorter = operations.drop_last();
        let last = operations.last();
        let fewer = requeue_lost(shorter, lost);
        assert forall|k: int| 0 <= k < shorter.len() implies ((
        #[trigger] shorter[k]).worker_id is Some <==> shorter[k].stage
            == ActionStage::Executing) by {
            assert(shorter[k] == operations[k]);
        }
        lemma_requeue_counts(shorter, lost);
        assert(operations =~= shorter.push(last));
        assert(after =~= fewer.push(after.last()));
        assert(operations[operations.len() - 1].worker_id is Some
            <==> operations[operations.len() - 1].stage == ActionStage::Executing);
        shorter.lemma_filter_push(last, operation_runs());
        shorter.lemma_filter_push(last, operation_waits());
        shorter.lemma_filter_push(last, operation_ended());
        shorter.lemma_filter_push(last, lost_work(lost));
        fewer.lemma_filter_push(after.last(), operation_runs());
        fewer.lemma_filter_push(after.last(), operation_waits());
        fewer.lemma_filter_push(after.last(), operation_ended());
    }
}

/// How many operations are assigned to the workers of a list, all told.
pub open spec fn total_running(workers: Seq<WorkerView>) -> nat
    decreases workers.len(),
{
    if workers.len() == 0 {
        0
    } else {
        total_running(workers.drop_last()) + workers.last().running_operations.len()
    }
}

/// The test for an operation that is executing.
pub open spec fn operation_executes() -> spec_fn(OperationView) -> bool {
    |operation: OperationView| operation.stage == ActionStage::Executing
}

/// As many operations run as are assigned to the workers, all told, and as
/// many as the store records as executing.
pub proof fn lemma_running_count(state: SchedulerView)
    requires
        state.wf(),
    ensures
        state.operations.filter(operation_runs()).len() == total_running(state.workers),
        state.operations.filter(operation_runs()).len() == state.operations.filter(
            operation_executes(),
        ).len(),
    decreases state.workers.len(),
{
    let operations = state.operations;
    assert forall|k: int| 0 <= k < operations.len() implies operation_runs()(
        #[trigger] operations[k],
    ) == operation_executes()(operations[k]) by {
        assert(operations[k].worker_id is Some <==> operations[k].stage
            == ActionStage::Executing);
    }
    lemma_same_count(operations, operation_runs(), operations, operation_executes());
    if state.workers.len() == 0 {
        assert forall|k: int| 0 <= k < operations.len() implies !operation_runs()(
            #[trigger] operations[k],
        ) by {
            if operations[k].stage == ActionStage::Executing {
                assert(state.recorded_at_owner(k));
            }
        }
        lemma_filter_drops_all(operations, operation_runs());
    } else {
        let last = state.workers.len() - 1;
        let id = state.workers[last].id;
        let fewer = state.remove_worker(id);
        lemma_worker_at(state, last);
        lemma_remove_worker_keeps_wf(state, id);
        assert(fewer.workers =~= state.workers.drop_last());
        lemma_running_count(fewer);
        lemma_requeue_counts(operations, set![id]);
        let of_worker = OperationFilterView {
            stages: OperationStageFlags::all(),
            worker_id: Some(id),
            limit: None,
        };
        lemma_worker_listing_is_what_it_runs(state, last, of_worker);
        assert forall|k: int| 0 <= k < operations.len() implies lost_work(set![id])(
            #[trigger] operations[k],
        ) == passing(of_worker)(operations[k]) by {}
        lemma_same_count(operations, lost_work(set![id]), operations, passing(of_worker));
    }
}

/// The test for a worker that has timed out at `now`.
pub open spec fn silent(state: SchedulerView, now: u64) -> spec_fn(WorkerView) -> bool {
    |worker: WorkerView| state.timed_out(worker, now)
}

/// How an eviction moves what is counted: the workers that have timed out
/// leave, what they owned runs no longer and waits instead, and no
/// operation is added, dropped or ended.
pub proof fn lemma_eviction_moves_the_counts(state: SchedulerView, now: u64)
    requires
        state.wf(),
    ensures
        ({
            let after = state.remove_timedout_workers(now);
            let evicted = state.workers.filter(silent(state, now)).len();
            let moved = state.operations.filter(lost_work(state.timed_out_ids(now))).len();
            &&& after.workers.len() + evicted == state.workers.len()
            &&& after.operations.len() == state.operations.len()
            &&& after.operations.filter(operation_runs()).len() + moved
                == state.operations.filter(operation_runs()).len()
            &&& after.operations.filter(operation_waits()).len() == state.operations.filter(
                operation_waits(),
            ).len() + moved
            &&& after.operations.filter(operation_ended()).len() == state.operations.filter(
                operation_ended(),
            ).len()
        }),
{
    let keep = |worker: WorkerView| !state.timed_out(worker, now);
    lemma_filter_split(state.workers, keep, silent(state, now));
    lemma_requeue_counts(state.operations, state.timed_out_ids(now));
}

/// How an eviction moves the counts that sum up a scheduler: where one
/// status sums it up before and another after, the later one counts as many
/// workers fewer as have timed out, as many operations fewer running and as
/// many more waiting as those workers owned, and as many operations in all
/// and ended as the earlier one.
pub proof fn lemma_eviction_moves_the_status(
    state: SchedulerView,
    now: u64,
    earlier: SchedulerStatus,
    later: SchedulerStatus,
    start_time: u64,
    seen_earlier: u64,
    seen_later: u64,
)
    requires
        state.wf(),
        sums_up(earlier, state.workers, state.operations, start_time, seen_earlier),
        sums_up(
            later,
            state.remove_timedout_workers(now).workers,
            state.remove_timedout_workers(now).operations,
            start_time,
            seen_later,
        ),
    ensures
        ({
            let evicted = state.workers.filter(silent(state, now)).len();
            let moved = state.operations.filter(lost_work(state.timed_out_ids(now))).len();
            &&& later.total_workers == earlier.total_workers - evicted
            &&& later.executing_operations == earlier.executing_operations - moved
            &&& later.queued_operations == earlier.queued_operations + moved
            &&& later.total_operations == earlier.total_operations
            &&& later.completed_operations == earlier.completed_operations
        }),
{
    lemma_eviction_moves_the_counts(state, now);
}

/// What a status says of a well-formed scheduler: as many operations run
/// as are assigned to the workers, all told, and as many as the store
/// records as executing; and those that wait are those that have not ended
/// and have no owner.
pub proof fn lemma_status_agrees_with_the_workers(
    state: SchedulerView,
    status: SchedulerStatus,
    start_time: u64,
    now: u64,
)
    requires
        state.wf(),
        sums_up(status, state.workers, state.operations, start_time, now),
    ensures
        status.executing_operations == total_running(state.workers),
        status.executing_operations == state.operations.filter(operation_executes()).len(),
        status.queued_operations == state.operations.filter(operation_waits()).len(),
        status.queued_operations + status.executing_operations + status.completed_operations
            == status.total_operations,
{
    lemma_running_count(state);
    lemma_three_way(state.operations);
}

/// Every operation waits, runs or has ended, and does one of them only.
pub proof fn lemma_three_way(operations: Seq<OperationView>)
    ensures
        operations.filter(operation_waits()).len() + operations.filter(operation_runs()).len()
            + operations.filter(operation_ended()).len() == operations.len(),
    decreases operations.len(),
{
    if operations.len() == 0 {
        assert(operations.filter(operation_waits()) =~= operations);
        assert(operations.filter(operation_runs()) =~= operations);
        assert(operations.filter(operation_ended()) =~= operations);
    } else {
        let shorter = operations.drop_last();
        lemma_three_way(shorter);
        assert(operations =~= shorter.push(operations.last()));
        shorter.lemma_filter_push(operations.last(), operation_waits());
        shorter.lemma_filter_push(operations.last(), operation_runs());
        shorter.lemma_filter_push(operations.last(), operation_ended());
    }
}

} // verus!
