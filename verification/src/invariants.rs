//! Every request keeps the scheduler's state well formed.

use vstd::prelude::*;
use crate::action_messages::ActionStage;
use crate::operation_state_manager::OperationView;
use crate::scheduler_state::{queue_position, requeue_lost, served_before, SchedulerView};
use crate::worker::WorkerView;

verus! {

/// Where ids are distinct, the worker at `i` is the one found under its id.
pub proof fn lemma_worker_at(state: SchedulerView, i: int)
    requires
        state.workers_distinct(),
        0 <= i < state.workers.len(),
    ensures
        state.has_worker(state.workers[i].id),
        state.worker_index(state.workers[i].id) == i,
{
    let id = state.workers[i].id;
    assert(state.has_worker(id));
    let j = state.worker_index(id);
    assert(state.workers[j].id == id);
    if j < i {
        assert(state.workers[j].id != state.workers[i].id);
    }
    if i < j {
        assert(state.workers[i].id != state.workers[j].id);
    }
}

/// Where ids are distinct, the operation at `k` is the one found under its
/// id.
pub proof fn lemma_operation_at(state: SchedulerView, k: int)
    requires
        state.operations_distinct(),
        0 <= k < state.operations.len(),
    ensures
        state.has_operation(state.operations[k].id),
        state.operation_index(state.operations[k].id) == k,
{
    let id = state.operations[k].id;
    assert(state.has_operation(id));
    let j = state.operation_index(id);
    assert(state.operations[j].id == id);
    if j < k {
        assert(state.operations[j].id != state.operations[k].id);
    }
    if k < j {
        assert(state.operations[k].id != state.operations[j].id);
    }
}

/// A state whose workers carry the ids of another's, place by place, finds
/// the same worker under every id.
pub proof fn lemma_same_worker_ids(before: SchedulerView, after: SchedulerView)
    requires
        before.workers_distinct(),
        after.workers.len() == before.workers.len(),
        forall|i: int|
            0 <= i < before.workers.len() ==> (#[trigger] after.workers[i]).id
                == before.workers[i].id,
    ensures
        after.workers_distinct(),
        forall|id: Seq<char>| #[trigger] after.has_worker(id) == before.has_worker(id),
        forall|id: Seq<char>|
            before.has_worker(id) ==> #[trigger] after.worker_index(id) == before.worker_index(id),
{
    assert forall|i: int, j: int| 0 <= i < j < after.workers.len() implies (
    #[trigger] after.workers[i]).id != (#[trigger] after.workers[j]).id by {
        assert(before.workers[i].id != before.workers[j].id);
    }
    assert forall|id: Seq<char>| #[trigger] after.has_worker(id) == before.has_worker(id) by {
        if before.has_worker(id) {
            let i = before.worker_index(id);
            assert(after.workers[i].id == id);
        }
        if after.has_worker(id) {
            let i = after.worker_index(id);
            assert(before.workers[i].id == id);
        }
    }
    assert forall|id: Seq<char>| before.has_worker(id) implies #[trigger] after.worker_index(id)
        == before.worker_index(id) by {
        let i = before.worker_index(id);
        assert(after.workers[i].id == id);
        lemma_worker_at(after, i);
    }
}

/// A state whose operations carry the ids of another's, place by place,
/// finds the same operation under every id.
pub proof fn lemma_same_operation_ids(before: SchedulerView, after: SchedulerView)
    requires
        before.operations_distinct(),
        after.operations.len() == before.operations.len(),
        forall|k: int|
            0 <= k < before.operations.len() ==> (#[trigger] after.operations[k]).id
                == before.operations[k].id,
    ensures
        after.operations_distinct(),
        forall|id: Seq<char>| #[trigger] after.has_operation(id) == before.has_operation(id),
        forall|id: Seq<char>|
            before.has_operation(id) ==> #[trigger] after.operation_index(id)
                == before.operation_index(id),
{
    assert forall|i: int, j: int| 0 <= i < j < after.operations.len() implies (
    #[trigger] after.operations[i]).id != (#[trigger] after.operations[j]).id by {
        assert(before.operations[i].id != before.operations[j].id);
    }
    assert forall|id: Seq<char>| #[trigger] after.has_operation(id) == before.has_operation(
        id,
    ) by {
        if before.has_operation(id) {
            let k = before.operation_index(id);
            assert(after.operations[k].id == id);
        }
        if after.has_operation(id) {
            let k = after.operation_index(id);
            assert(before.operations[k].id == id);
        }
    }
    assert forall|id: Seq<char>| before.has_operation(id) implies #[trigger] after.operation_index(
        id,
    ) == before.operation_index(id) by {
        let k = before.operation_index(id);
        assert(after.operations[k].id == id);
        lemma_operation_at(after, k);
    }
}

/// A change to the workers that touches neither an id, nor what a worker
/// advertises, nor what is assigned to it, nor how much it can run, keeps
/// the state well formed.
pub proof fn lemma_worker_flags_keep_wf(before: SchedulerView, after: SchedulerView)
    requires
        before.wf(),
        after.operations == before.operations,
        after.workers.len() == before.workers.len(),
        forall|i: int|
            0 <= i < before.workers.len() ==> {
                &&& (#[trigger] after.workers[i]).id == before.workers[i].id
                &&& after.workers[i].platform_properties == before.workers[i].platform_properties
                &&& after.workers[i].running_operations == before.workers[i].running_operations
                &&& after.workers[i].max_inflight_tasks == before.workers[i].max_inflight_tasks
            },
    ensures
        after.wf(),
{
    lemma_same_worker_ids(before, after);
    lemma_same_operation_ids(before, after);
    assert forall|k: int|
        0 <= k < after.operations.len() && (#[trigger] after.operations[k]).stage
            == ActionStage::Executing implies after.recorded_at_owner(k) by {
        assert(before.recorded_at_owner(k));
        let owner = before.operations[k].worker_id->0;
        assert(after.worker_index(owner) == before.worker_index(owner));
    }
    assert forall|i: int, id: Seq<char>|
        0 <= i < after.workers.len() && #[trigger] after.workers[i].running_operations.contains(
            id,
        ) implies after.assignment_recorded(i, id) by {
        assert(before.workers[i].running_operations.contains(id));
        assert(before.assignment_recorded(i, id));
    }
}

/// Registration keeps the state well formed.
pub proof fn lemma_add_worker_keeps_wf(state: SchedulerView, worker: WorkerView)
    requires
        state.wf(),
        state.add_worker(worker) is Ok,
    ensures
        state.add_worker(worker)->Ok_0.wf(),
{
    let after = state.add_worker(worker)->Ok_0;
    let last = state.workers.len() as int;
    assert(after.workers[last] == worker.unassigned());
    assert forall|i: int| 0 <= i < last implies #[trigger] after.workers[i]
        == state.workers[i] by {}
    assert forall|i: int, j: int| 0 <= i < j < after.workers.len() implies (
    #[trigger] after.workers[i]).id != (#[trigger] after.workers[j]).id by {
        if j == last {
            assert(state.workers[i].id != worker.id);
        } else {
            assert(state.workers[i].id != state.workers[j].id);
        }
    }
    lemma_same_operation_ids(state, after);
    assert forall|k: int|
        0 <= k < after.operations.len() && (#[trigger] after.operations[k]).stage
            == ActionStage::Executing implies after.recorded_at_owner(k) by {
        assert(state.recorded_at_owner(k));
        let owner = state.operations[k].worker_id->0;
        let i = state.worker_index(owner);
        assert(after.workers[i].id == owner);
        lemma_worker_at(after, i);
    }
    assert forall|i: int, id: Seq<char>|
        0 <= i < after.workers.len() && #[trigger] after.workers[i].running_operations.contains(
            id,
        ) implies after.assignment_recorded(i, id) by {
        if i < last {
            assert(state.workers[i].running_operations.contains(id));
            assert(state.assignment_recorded(i, id));
        }
    }
}

/// A sign of life keeps the state well formed.
pub proof fn lemma_keep_alive_keeps_wf(state: SchedulerView, worker_id: Seq<char>, timestamp: u64)
    requires
        state.wf(),
        state.worker_keep_alive_received(worker_id, timestamp) is Ok,
    ensures
        state.worker_keep_alive_received(worker_id, timestamp)->Ok_0.wf(),
{
    lemma_worker_flags_keep_wf(state, state.worker_keep_alive_received(worker_id, timestamp)->Ok_0);
}

/// Draining on or off keeps the state well formed.
pub proof fn lemma_set_drain_keeps_wf(state: SchedulerView, worker_id: Seq<char>, is_draining: bool)
    requires
        state.wf(),
        state.set_drain_worker(worker_id, is_draining) is Ok,
    ensures
        state.set_drain_worker(worker_id, is_draining)->Ok_0.wf(),
{
    lemma_worker_flags_keep_wf(state, state.set_drain_worker(worker_id, is_draining)->Ok_0);
}

/// What a list without repeats holds after the entry at `place` is taken
/// out: all that it held but that entry, still without repeats.
pub proof fn lemma_remove_entry(list: Seq<Seq<char>>, place: int)
    requires
        list.no_duplicates(),
        0 <= place < list.len(),
    ensures
        list.remove(place).no_duplicates(),
        list.remove(place).len() == list.len() - 1,
        forall|entry: Seq<char>| #[trigger]
            list.remove(place).contains(entry) <==> list.contains(entry) && entry != list[place],
{
    let rest = list.remove(place);
    assert forall|a: int| 0 <= a < rest.len() implies #[trigger] rest[a] == list[if a < place {
        a
    } else {
        a + 1
    }] by {}
    assert forall|entry: Seq<char>| #[trigger]
        rest.contains(entry) <==> list.contains(entry) && entry != list[place] by {
        if rest.contains(entry) {
            let a = choose|a: int| 0 <= a < rest.len() && rest[a] == entry;
            let b = if a < place {
                a
            } else {
                a + 1
            };
            assert(list[b] == entry);
        }
        if list.contains(entry) && entry != list[place] {
            let b = choose|b: int| 0 <= b < list.len() && list[b] == entry;
            let a = if b < place {
                b
            } else {
                b - 1
            };
            assert(rest[a] == entry);
        }
    }
}

/// The first worker that can be given an operation is one that can be given
/// it, and none in front of it can.
pub proof fn lemma_first_eligible(state: SchedulerView, o: int, from: int)
    requires
        0 <= from,
    ensures
        match state.first_eligible(o, from) {
            Some(w) => from <= w < state.workers.len() && state.eligible(w, o) && forall|v: int|
                from <= v < w ==> !state.eligible(v, o),
            None => forall|v: int| from <= v < state.workers.len() ==> !state.eligible(v, o),
        },
    decreases state.workers.len() - from,
{
    if from < state.workers.len() && !state.eligible(from, o) {
        lemma_first_eligible(state, o, from + 1);
    }
}

/// Giving a queued operation to a worker that can be given it keeps the
/// state well formed.
pub proof fn lemma_assign_keeps_wf(state: SchedulerView, w: int, o: int)
    requires
        state.wf(),
        0 <= w < state.workers.len(),
        0 <= o < state.operations.len(),
        state.operations[o].stage == ActionStage::Queued,
        state.eligible(w, o),
    ensures
        state.assign(w, o).wf(),
{
    let after = state.assign(w, o);
    let id = state.operations[o].id;
    let held = state.workers[w].running_operations;
    lemma_same_worker_ids(state, after);
    lemma_same_operation_ids(state, after);
    lemma_operation_at(state, o);
    lemma_worker_at(state, w);
    assert(!held.contains(id)) by {
        if held.contains(id) {
            assert(state.assignment_recorded(w, id));
        }
    }
    assert(after.workers[w].running_operations.no_duplicates());
    assert forall|i: int, j: int| 0 <= i < j < after.operations.len() implies served_before(
        #[trigger] after.operations[i],
        #[trigger] after.operations[j],
    ) by {
        assert(served_before(state.operations[i], state.operations[j]));
    }
    assert forall|k: int|
        0 <= k < after.operations.len() && (#[trigger] after.operations[k]).stage
            == ActionStage::Executing implies after.recorded_at_owner(k) by {
        if k == o {
            assert(after.workers[w].running_operations[held.len() as int] == id);
        } else {
            assert(state.recorded_at_owner(k));
            let owner = state.operations[k].worker_id->0;
            let i = state.worker_index(owner);
            if i == w {
                let place = choose|place: int|
                    0 <= place < held.len() && held[place] == state.operations[k].id;
                assert(after.workers[w].running_operations[place] == state.operations[k].id);
            }
        }
    }
    assert forall|i: int, entry: Seq<char>|
        0 <= i < after.workers.len() && #[trigger] after.workers[i].running_operations.contains(
            entry,
        ) implies after.assignment_recorded(i, entry) by {
        if i == w && entry == id {
        } else {
            if i == w {
                let place = choose|place: int|
                    0 <= place < after.workers[w].running_operations.len()
                        && after.workers[w].running_operations[place] == entry;
                assert(held[place] == entry);
            }
            assert(state.workers[i].running_operations.contains(entry));
            assert(state.assignment_recorded(i, entry));
        }
    }
}

/// The end of an operation at the worker that holds it keeps the state well
/// formed.
pub proof fn lemma_complete_keeps_wf(state: SchedulerView, i: int, k: int, stage: ActionStage)
    requires
        state.wf(),
        0 <= i < state.workers.len(),
        0 <= k < state.operations.len(),
        state.workers[i].running_operations.contains(state.operations[k].id),
        stage != ActionStage::Executing,
    ensures
        state.complete(i, k, stage).wf(),
{
    let after = state.complete(i, k, stage);
    let id = state.operations[k].id;
    let held = state.workers[i].running_operations;
    let place = held.index_of(id);
    lemma_same_worker_ids(state, after);
    lemma_same_operation_ids(state, after);
    lemma_operation_at(state, k);
    lemma_worker_at(state, i);
    lemma_remove_entry(held, place);
    assert(state.assignment_recorded(i, id));
    assert forall|a: int, b: int| 0 <= a < b < after.operations.len() implies served_before(
        #[trigger] after.operations[a],
        #[trigger] after.operations[b],
    ) by {
        assert(served_before(state.operations[a], state.operations[b]));
    }
    assert forall|j: int|
        0 <= j < after.operations.len() && (#[trigger] after.operations[j]).stage
            == ActionStage::Executing implies after.recorded_at_owner(j) by {
        assert(state.recorded_at_owner(j));
        assert(state.operations[j].id != id) by {
            if j < k {
                assert(state.operations[j].id != state.operations[k].id);
            } else {
                assert(state.operations[k].id != state.operations[j].id);
            }
        }
    }
    assert forall|a: int, entry: Seq<char>|
        0 <= a < after.workers.len() && #[trigger] after.workers[a].running_operations.contains(
            entry,
        ) implies after.assignment_recorded(a, entry) by {
        assert(state.workers[a].running_operations.contains(entry));
        assert(state.assignment_recorded(a, entry));
        if a != i {
            assert(entry != id) by {
                if entry == id {
                    if a < i {
                        assert(state.workers[a].id != state.workers[i].id);
                    } else {
                        assert(state.workers[i].id != state.workers[a].id);
                    }
                }
            }
        }
    }
}

/// A worker's report keeps the state well formed.
pub proof fn lemma_update_action_keeps_wf(
    state: SchedulerView,
    worker_id: Seq<char>,
    operation_id: Seq<char>,
    update: crate::action_messages::UpdateOperationType,
)
    requires
        state.wf(),
        state.update_action(worker_id, operation_id, update) is Ok,
    ensures
        state.update_action(worker_id, operation_id, update)->Ok_0.wf(),
{
    if update != crate::action_messages::UpdateOperationType::StillExecuting {
        let i = state.worker_index(worker_id);
        assert(state.assignment_recorded(i, operation_id));
        let k = state.operation_index(operation_id);
        lemma_complete_keeps_wf(state, i, k, update.next_stage());
    }
}

/// The end of a cache check keeps the state well formed.
pub proof fn lemma_complete_cache_check_keeps_wf(state: SchedulerView, operation_id: Seq<char>)
    requires
        state.wf(),
        state.complete_cache_check(operation_id) is Ok,
    ensures
        state.complete_cache_check(operation_id)->Ok_0.wf(),
{
    let after = state.complete_cache_check(operation_id)->Ok_0;
    let k = state.operation_index(operation_id);
    lemma_same_worker_ids(state, after);
    lemma_same_operation_ids(state, after);
    assert forall|a: int, b: int| 0 <= a < b < after.operations.len() implies served_before(
        #[trigger] after.operations[a],
        #[trigger] after.operations[b],
    ) by {
        assert(served_before(state.operations[a], state.operations[b]));
    }
    assert forall|j: int|
        0 <= j < after.operations.len() && (#[trigger] after.operations[j]).stage
            == ActionStage::Executing implies after.recorded_at_owner(j) by {
        assert(state.recorded_at_owner(j));
    }
    assert forall|a: int, entry: Seq<char>|
        0 <= a < after.workers.len() && #[trigger] after.workers[a].running_operations.contains(
            entry,
        ) implies after.assignment_recorded(a, entry) by {
        assert(state.assignment_recorded(a, entry));
    }
}

/// The loss of workers keeps the state well formed: where exactly the
/// workers whose ids are in `lost` have left, each of the others standing as
/// it stood, and what the lost ones ran is queued again.
pub proof fn lemma_worker_loss_keeps_wf(
    before: SchedulerView,
    after: SchedulerView,
    lost: Set<Seq<char>>,
)
    requires
        before.wf(),
        after.operations == requeue_lost(before.operations, lost),
        after.workers_distinct(),
        forall|a: int|
            0 <= a < after.workers.len() ==> before.workers.contains(#[trigger] after.workers[a])
                && !lost.contains(after.workers[a].id),
        forall|b: int|
            0 <= b < before.workers.len() && !lost.contains((#[trigger] before.workers[b]).id)
                ==> after.workers.contains(before.workers[b]),
    ensures
        after.wf(),
{
    lemma_same_operation_ids(before, after);
    assert forall|i: int, j: int| 0 <= i < j < after.operations.len() implies served_before(
        #[trigger] after.operations[i],
        #[trigger] after.operations[j],
    ) by {
        assert(served_before(before.operations[i], before.operations[j]));
    }
    assert forall|a: int| 0 <= a < after.workers.len() implies (
    #[trigger] after.workers[a]).running_operations.no_duplicates()
        && after.workers[a].running_operations.len() <= after.workers[a].max_inflight_tasks by {
        let b = choose|b: int| 0 <= b < before.workers.len() && before.workers[b] == after.workers[a];
        assert(before.workers[b].running_operations.no_duplicates());
    }
    assert forall|k: int| 0 <= k < after.operations.len() implies ((
    #[trigger] after.operations[k]).worker_id is Some <==> after.operations[k].stage
        == ActionStage::Executing) by {
        assert(before.operations[k].worker_id is Some <==> before.operations[k].stage
            == ActionStage::Executing);
    }
    assert forall|k: int|
        0 <= k < after.operations.len() && (#[trigger] after.operations[k]).stage
            == ActionStage::Executing implies after.recorded_at_owner(k) by {
        assert(before.operations[k].worker_id is Some <==> before.operations[k].stage
            == ActionStage::Executing);
        assert(after.operations[k] == before.operations[k]);
        assert(before.recorded_at_owner(k));
        let owner = before.operations[k].worker_id->0;
        let b = before.worker_index(owner);
        assert(!lost.contains(before.workers[b].id));
        let a = choose|a: int| 0 <= a < after.workers.len() && after.workers[a] == before.workers[b];
        lemma_worker_at(after, a);
    }
    assert forall|a: int, id: Seq<char>|
        0 <= a < after.workers.len() && #[trigger] after.workers[a].running_operations.contains(
            id,
        ) implies after.assignment_recorded(a, id) by {
        let b = choose|b: int| 0 <= b < before.workers.len() && before.workers[b] == after.workers[a];
        assert(before.workers[b].running_operations.contains(id));
        assert(before.assignment_recorded(b, id));
        let k = before.operation_index(id);
        assert(after.operations[k] == before.operations[k]);
    }
}

/// Removal keeps the state well formed.
pub proof fn lemma_remove_worker_keeps_wf(state: SchedulerView, worker_id: Seq<char>)
    requires
        state.wf(),
    ensures
        state.remove_worker(worker_id).wf(),
{
    if state.has_worker(worker_id) {
        let after = state.remove_worker(worker_id);
        let i = state.worker_index(worker_id);
        assert forall|a: int| 0 <= a < after.workers.len() implies #[trigger] after.workers[a]
            == state.workers[if a < i {
            a
        } else {
            a + 1
        }] by {}
        assert forall|a: int, b: int| 0 <= a < b < after.workers.len() implies (
        #[trigger] after.workers[a]).id != (#[trigger] after.workers[b]).id by {
            let x = if a < i {
                a
            } else {
                a + 1
            };
            let y = if b < i {
                b
            } else {
                b + 1
            };
            assert(state.workers[x].id != state.workers[y].id);
        }
        assert forall|a: int| 0 <= a < after.workers.len() implies state.workers.contains(
            #[trigger] after.workers[a],
        ) && !set![worker_id].contains(after.workers[a].id) by {
            let x = if a < i {
                a
            } else {
                a + 1
            };
            assert(state.workers[x] == after.workers[a]);
            if x < i {
                assert(state.workers[x].id != state.workers[i].id);
            } else {
                assert(state.workers[i].id != state.workers[x].id);
            }
        }
        assert forall|b: int|
            0 <= b < state.workers.len() && !set![worker_id].contains(
                (#[trigger] state.workers[b]).id,
            ) implies after.workers.contains(state.workers[b]) by {
            let a = if b < i {
                b
            } else {
                b - 1
            };
            assert(after.workers[a] == state.workers[b]);
        }
        lemma_worker_loss_keeps_wf(state, after, set![worker_id]);
    }
}

/// What is left of the first `n` workers when those that fail a test are
/// taken out: workers of the first `n`, each passing the test, under ids
/// that still differ, and among them every one of the first `n` that passes.
pub proof fn lemma_filtered_workers(
    state: SchedulerView,
    keep: spec_fn(WorkerView) -> bool,
    n: int,
)
    requires
        state.workers_distinct(),
        0 <= n <= state.workers.len(),
    ensures
        ({
            let kept = state.workers.take(n).filter(keep);
            &&& forall|a: int|
                0 <= a < kept.len() ==> keep(#[trigger] kept[a]) && exists|b: int|
                    0 <= b < n && state.workers[b] == kept[a]
            &&& forall|a: int, b: int|
                0 <= a < b < kept.len() ==> (#[trigger] kept[a]).id != (#[trigger] kept[b]).id
            &&& forall|b: int|
                0 <= b < n && keep(#[trigger] state.workers[b]) ==> kept.contains(state.workers[b])
        }),
    decreases n,
{
    if n == 0 {
        assert(state.workers.take(0).filter(keep) =~= Seq::<WorkerView>::empty());
    } else {
        lemma_filtered_workers(state, keep, n - 1);
        let shorter = state.workers.take(n - 1);
        let last = state.workers[n - 1];
        assert(state.workers.take(n) =~= shorter.push(last));
        shorter.lemma_filter_push(last, keep);
        let earlier = shorter.filter(keep);
        let kept = state.workers.take(n).filter(keep);
        if keep(last) {
            assert(kept == earlier.push(last));
            assert forall|a: int| 0 <= a < kept.len() implies keep(#[trigger] kept[a])
                && exists|b: int| 0 <= b < n && state.workers[b] == kept[a] by {
                if a < earlier.len() {
                    assert(kept[a] == earlier[a]);
                    let b = choose|b: int| 0 <= b < n - 1 && state.workers[b] == earlier[a];
                    assert(state.workers[b] == kept[a]);
                } else {
                    assert(state.workers[n - 1] == kept[a]);
                }
            }
            assert forall|a: int, b: int| 0 <= a < b < kept.len() implies (#[trigger] kept[a]).id
                != (#[trigger] kept[b]).id by {
                if b < earlier.len() {
                    assert(earlier[a].id != earlier[b].id);
                } else {
                    assert(kept[a] == earlier[a]);
                    let x = choose|x: int| 0 <= x < n - 1 && state.workers[x] == earlier[a];
                    assert(state.workers[x].id != state.workers[n - 1].id);
                }
            }
            assert forall|b: int| 0 <= b < n && keep(#[trigger] state.workers[b]) implies kept.contains(
                state.workers[b],
            ) by {
                if b < n - 1 {
                    assert(earlier.contains(state.workers[b]));
                    let a = choose|a: int| 0 <= a < earlier.len() && earlier[a] == state.workers[b];
                    assert(kept[a] == state.workers[b]);
                } else {
                    assert(kept[earlier.len() as int] == state.workers[b]);
                }
            }
        } else {
            assert(kept == earlier);
            assert forall|a: int| 0 <= a < kept.len() implies keep(#[trigger] kept[a])
                && exists|b: int| 0 <= b < n && state.workers[b] == kept[a] by {
                let b = choose|b: int| 0 <= b < n - 1 && state.workers[b] == earlier[a];
                assert(state.workers[b] == kept[a]);
            }
        }
    }
}

/// Eviction keeps the state well formed.
pub proof fn lemma_remove_timedout_workers_keeps_wf(state: SchedulerView, now: u64)
    requires
        state.wf(),
    ensures
        state.remove_timedout_workers(now).wf(),
{
    let after = state.remove_timedout_workers(now);
    let keep = |worker: WorkerView| !state.timed_out(worker, now);
    let lost = state.timed_out_ids(now);
    lemma_filtered_workers(state, keep, state.workers.len() as int);
    assert(state.workers.take(state.workers.len() as int) =~= state.workers);
    assert forall|a: int| 0 <= a < after.workers.len() implies state.workers.contains(
        #[trigger] after.workers[a],
    ) && !lost.contains(after.workers[a].id) by {
        let b = choose|b: int| 0 <= b < state.workers.len() && state.workers[b] == after.workers[a];
        assert(keep(after.workers[a]));
        if lost.contains(after.workers[a].id) {
            let c = choose|c: int|
                0 <= c < state.workers.len() && (#[trigger] state.workers[c]).id
                    == after.workers[a].id && state.timed_out(state.workers[c], now);
            lemma_worker_at(state, b);
            lemma_worker_at(state, c);
        }
    }
    assert forall|b: int|
        0 <= b < state.workers.len() && !lost.contains((#[trigger] state.workers[b]).id) implies after.workers.contains(
        state.workers[b],
    ) by {
        assert(keep(state.workers[b]));
    }
    lemma_worker_loss_keeps_wf(state, after, lost);
}

/// Where a new operation goes: every operation in front of that place is
/// served before it, and the one at the place, if there is one, is not.
pub proof fn lemma_queue_position(operations: Seq<OperationView>, arrival: OperationView)
    ensures
        0 <= queue_position(operations, arrival) <= operations.len(),
        forall|j: int|
            0 <= j < queue_position(operations, arrival) ==> served_before(
                #[trigger] operations[j],
                arrival,
            ),
        queue_position(operations, arrival) < operations.len() ==> !served_before(
            operations[queue_position(operations, arrival)],
            arrival,
        ),
    decreases operations.len(),
{
    if operations.len() > 0 && served_before(operations[0], arrival) {
        let rest = operations.drop_first();
        lemma_queue_position(rest, arrival);
        assert forall|j: int| 0 <= j < queue_position(operations, arrival) implies served_before(
            #[trigger] operations[j],
            arrival,
        ) by {
            if j > 0 {
                assert(operations[j] == rest[j - 1]);
            }
        }
        let place = queue_position(rest, arrival);
        if place < rest.len() {
            assert(operations[place + 1] == rest[place]);
        }
    }
}

/// Submission keeps the state well formed, where the operation comes
/// without an owner and in a stage that needs none.
pub proof fn lemma_add_operation_keeps_wf(state: SchedulerView, operation: OperationView)
    requires
        state.wf(),
        state.add_operation(operation) is Ok,
        operation.worker_id is None,
        operation.stage != ActionStage::Executing,
    ensures
        state.add_operation(operation)->Ok_0.wf(),
{
    let after = state.add_operation(operation)->Ok_0;
    let place = queue_position(state.operations, operation);
    lemma_queue_position(state.operations, operation);
    lemma_same_worker_ids(state, after);
    assert(after.operations[place] == operation);
    assert forall|k: int| 0 <= k < after.operations.len() && k != place implies #[trigger] after.operations[k]
        == state.operations[if k < place {
        k
    } else {
        k - 1
    }] by {}
    assert forall|a: int, b: int| 0 <= a < b < after.operations.len() implies (
    #[trigger] after.operations[a]).id != (#[trigger] after.operations[b]).id by {
        let x = if a < place {
            a
        } else {
            a - 1
        };
        let y = if b < place {
            b
        } else {
            b - 1
        };
        if a == place {
            assert(state.operations[y].id != operation.id);
        } else if b == place {
            assert(state.operations[x].id != operation.id);
        } else {
            assert(state.operations[x].id != state.operations[y].id);
        }
    }
    assert forall|a: int, b: int| 0 <= a < b < after.operations.len() implies served_before(
        #[trigger] after.operations[a],
        #[trigger] after.operations[b],
    ) by {
        let x = if a < place {
            a
        } else {
            a - 1
        };
        let y = if b < place {
            b
        } else {
            b - 1
        };
        if a == place {
            assert(!served_before(state.operations[place], operation));
            if y > place {
                assert(served_before(state.operations[place], state.operations[y]));
            }
        } else if b == place {
            assert(served_before(state.operations[x], operation));
        } else {
            assert(served_before(state.operations[x], state.operations[y]));
        }
    }
    assert forall|k: int|
        0 <= k < after.operations.len() && (#[trigger] after.operations[k]).stage
            == ActionStage::Executing implies after.recorded_at_owner(k) by {
        let x = if k < place {
            k
        } else {
            k - 1
        };
        assert(state.recorded_at_owner(x));
    }
    assert forall|i: int, id: Seq<char>|
        0 <= i < after.workers.len() && #[trigger] after.workers[i].running_operations.contains(
            id,
        ) implies after.assignment_recorded(i, id) by {
        assert(state.assignment_recorded(i, id));
        let x = state.operation_index(id);
        let k = if x < place {
            x
        } else {
            x + 1
        };
        assert(after.operations[k] == state.operations[x]);
        lemma_operation_at(after, k);
    }
}

/// One step of a dispatch pass keeps the state well formed, adds and drops
/// no worker and no operation, and leaves every id where it was.
pub proof fn lemma_dispatch_one_keeps_wf(state: SchedulerView, o: int)
    requires
        state.wf(),
        0 <= o < state.operations.len(),
    ensures
        state.dispatch_one(o).wf(),
        state.dispatch_one(o).operations.len() == state.operations.len(),
        state.dispatch_one(o).workers.len() == state.workers.len(),
        state.dispatch_one(o).worker_timeout == state.worker_timeout,
{
    if state.operations[o].stage == ActionStage::Queued {
        lemma_first_eligible(state, o, 0);
        match state.first_eligible(o, 0) {
            Some(w) => {
                lemma_assign_keeps_wf(state, w, o);
            },
            None => {},
        }
    }
}

/// A dispatch pass, as far as it has gone, keeps the state well formed and
/// adds and drops no worker and no operation.
pub proof fn lemma_dispatch_prefix_keeps_wf(state: SchedulerView, n: nat)
    requires
        state.wf(),
        n <= state.operations.len(),
    ensures
        state.dispatch_prefix(n).wf(),
        state.dispatch_prefix(n).operations.len() == state.operations.len(),
        state.dispatch_prefix(n).workers.len() == state.workers.len(),
        state.dispatch_prefix(n).worker_timeout == state.worker_timeout,
    decreases n,
{
    if n > 0 {
        lemma_dispatch_prefix_keeps_wf(state, (n - 1) as nat);
        lemma_dispatch_one_keeps_wf(state.dispatch_prefix((n - 1) as nat), n - 1);
    }
}

/// A dispatch pass keeps the state well formed.
pub proof fn lemma_dispatch_keeps_wf(state: SchedulerView)
    requires
        state.wf(),
    ensures
        state.dispatch().wf(),
{
    lemma_dispatch_prefix_keeps_wf(state, state.operations.len());
}

/// The state with no worker and no operation is well formed.
pub proof fn lemma_empty_wf(worker_timeout: u64)
    ensures
        SchedulerView::empty(worker_timeout).wf(),
{
}

/// The place of a new operation is the first at which an operation stands
/// that is not served before it.
pub proof fn lemma_queue_position_found(
    operations: Seq<OperationView>,
    arrival: OperationView,
    place: int,
)
    requires
        0 <= place <= operations.len(),
        forall|j: int| 0 <= j < place ==> served_before(#[trigger] operations[j], arrival),
        place < operations.len() ==> !served_before(operations[place], arrival),
    ensures
        queue_position(operations, arrival) == place,
    decreases operations.len(),
{
    if place > 0 {
        let rest = operations.drop_first();
        assert(served_before(operations[0], arrival));
        assert forall|j: int| 0 <= j < place - 1 implies served_before(
            #[trigger] rest[j],
            arrival,
        ) by {
            assert(rest[j] == operations[j + 1]);
        }
        if place - 1 < rest.len() {
            assert(rest[place - 1] == operations[place]);
        }
        lemma_queue_position_found(rest, arrival, place - 1);
    }
}

} // verus!
