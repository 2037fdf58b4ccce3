//! The scheduler that keeps its workers and its operations in memory.

use vstd::prelude::*;
use crate::action_messages::{
    ActionInfo, ActionStage, OperationId, UpdateOperationType, WorkerId,
};
use crate::error::{plain, Error, ErrorKind};
use crate::laws::{pass_follows, served, verdict, Request};
use crate::invariants::{
    lemma_add_operation_keeps_wf, lemma_add_worker_keeps_wf, lemma_assign_keeps_wf,
    lemma_complete_cache_check_keeps_wf, lemma_complete_keeps_wf, lemma_empty_wf,
    lemma_first_eligible, lemma_keep_alive_keeps_wf, lemma_operation_at,
    lemma_queue_position_found, lemma_remove_timedout_workers_keeps_wf,
    lemma_remove_worker_keeps_wf, lemma_set_drain_keeps_wf, lemma_worker_at,
};
use crate::operation_state_manager::{
    operations_view, ClientStateManager, Operation, OperationFilter, OperationView,
};
use crate::scheduler_state::{
    lemma_wf_store_consistent, one_more, passing, requeue_lost, requeued, served_before,
    SchedulerView,
};
use crate::worker::{Worker, WorkerTimestamp, WorkerView};
use crate::worker_scheduler::{answers, exact, info_of, WorkerInfo, WorkerScheduler};

verus! {

/// The values of the workers of a list.
pub open spec fn workers_view(workers: Seq<Worker>) -> Seq<WorkerView> {
    workers.map_values(|worker: Worker| worker@)
}

/// The ids that a list holds.
pub open spec fn ids_of(ids: Seq<WorkerId>) -> Set<Seq<char>> {
    Set::new(|id: Seq<char>| exists|x: int| 0 <= x < ids.len() && (#[trigger] ids[x])@ == id)
}

/// Whether the list holds the id.
fn holds_id(ids: &Vec<WorkerId>, id: &WorkerId) -> (answer: bool)
    ensures
        answer == ids_of(ids@).contains(id@),
{
    let mut x: usize = 0;
    while x < ids.len()
        invariant
            x <= ids.len(),
            forall|y: int| 0 <= y < x ==> (#[trigger] ids@[y])@ != id@,
        decreases ids.len() - x,
    {
        if ids[x].same(id) {
            return true;
        }
        x = x + 1;
    }
    false
}

/// A scheduler that keeps the registry of workers and the store of
/// operations in memory, and answers every request at once.
///
/// A worker that registers under an id that is taken is turned away: the
/// worker that holds the id stays as it is.
pub struct SimpleScheduler {
    workers: Vec<Worker>,
    operations: Vec<Operation>,
    worker_timeout_s: u64,
}

impl View for SimpleScheduler {
    type V = SchedulerView;

    closed spec fn view(&self) -> SchedulerView {
        SchedulerView {
            workers: workers_view(self.workers@),
            operations: operations_view(self.operations@),
            worker_timeout: self.worker_timeout_s,
        }
    }
}

impl SimpleScheduler {
    /// Whether the scheduler is well formed: its state is, and so is every
    /// capability set that it holds.
    pub closed spec fn wf(&self) -> bool {
        &&& self@.wf()
        &&& forall|i: int| 0 <= i < self.workers@.len() ==> (#[trigger] self.workers@[i]).wf()
        &&& forall|k: int| 0 <= k < self.operations@.len() ==> (#[trigger] self.operations@[k]).wf()
    }

    /// A scheduler without workers and without operations, which lets a
    /// worker stay silent for `worker_timeout_s` seconds.
    pub fn new(worker_timeout_s: u64) -> (scheduler: SimpleScheduler)
        ensures
            scheduler.wf(),
            scheduler@ == SchedulerView::empty(worker_timeout_s),
    {
        let scheduler = SimpleScheduler {
            workers: Vec::new(),
            operations: Vec::new(),
            worker_timeout_s,
        };
        proof {
            assert(scheduler@.workers =~= Seq::empty());
            assert(scheduler@.operations =~= Seq::empty());
            lemma_empty_wf(worker_timeout_s);
        }
        scheduler
    }

    /// The place of the worker that is registered under the id.
    fn find_worker(&self, id: &WorkerId) -> (place: Option<usize>)
        ensures
            match place {
                Some(i) => i < self.workers@.len() && self@.workers[i as int].id == id@,
                None => !self@.has_worker(id@),
            },
    {
        let mut i: usize = 0;
        while i < self.workers.len()
            invariant
                i <= self.workers.len(),
                forall|j: int| 0 <= j < i ==> (#[trigger] self@.workers[j]).id != id@,
            decreases self.workers.len() - i,
        {
            if self.workers[i].id.same(id) {
                return Some(i);
            }
            i = i + 1;
        }
        None
    }

    /// The place of the operation that the store holds under the id.
    fn find_operation(&self, id: &OperationId) -> (place: Option<usize>)
        ensures
            match place {
                Some(k) => k < self.operations@.len() && self@.operations[k as int].id == id@,
                None => !self@.has_operation(id@),
            },
    {
        let mut k: usize = 0;
        while k < self.operations.len()
            invariant
                k <= self.operations.len(),
                forall|j: int| 0 <= j < k ==> (#[trigger] self@.operations[j]).id != id@,
            decreases self.operations.len() - k,
        {
            if self.operations[k].state.client_operation_id.same(id) {
                return Some(k);
            }
            k = k + 1;
        }
        None
    }

    /// Queues again every operation that a worker of `lost` owns.
    fn requeue_owned_by(&mut self, lost: &Vec<WorkerId>)
        requires
            forall|k: int|
                0 <= k < old(self).operations@.len() ==> (#[trigger] old(self).operations@[k]).wf(),
        ensures
            final(self).workers == old(self).workers,
            final(self).worker_timeout_s == old(self).worker_timeout_s,
            final(self)@.operations == requeue_lost(old(self)@.operations, ids_of(lost@)),
            forall|k: int|
                0 <= k < final(self).operations@.len() ==> (#[trigger] final(self).operations@[k]).wf(),
    {
        let ghost before = self@;
        let mut k: usize = 0;
        while k < self.operations.len()
            invariant
                k <= self.operations.len(),
                self.workers == old(self).workers,
                self.worker_timeout_s == old(self).worker_timeout_s,
                self.operations@.len() == before.operations.len(),
                forall|j: int|
                    0 <= j < k ==> (#[trigger] self@.operations[j]) == requeue_lost(
                        before.operations,
                        ids_of(lost@),
                    )[j],
                forall|j: int|
                    k <= j < self.operations@.len() ==> (#[trigger] self@.operations[j])
                        == before.operations[j],
                forall|j: int|
                    0 <= j < self.operations@.len() ==> (#[trigger] self.operations@[j]).wf(),
            decreases self.operations.len() - k,
        {
            let ghost earlier = self@;
            let ghost records = self.operations@;
            let owned = match &self.operations[k].state.worker_id {
                Some(owner) => holds_id(lost, owner),
                None => false,
            };
            if owned {
                self.operations[k].state.stage = ActionStage::Queued;
                self.operations[k].state.worker_id = None;
                if self.operations[k].state.lost_workers < u64::MAX {
                    self.operations[k].state.lost_workers = self.operations[k].state.lost_workers
                        + 1;
                }
                assert(self@.operations[k as int] == requeued(earlier.operations[k as int]));
                assert forall|j: int| 0 <= j < self.operations@.len() && j != k implies (
                #[trigger] self.operations@[j]) == records[j] by {}
            }
            assert forall|j: int| 0 <= j < self.operations@.len() && j != k implies (
            #[trigger] self@.operations[j]) == earlier.operations[j] by {
                assert(self.operations@[j] == records[j]);
            }
            k = k + 1;
        }
        assert(self@.operations =~= requeue_lost(before.operations, ids_of(lost@)));
    }
}

/// Whether a count is still under the limit, if there is one.
fn under_limit(limit: Option<usize>, count: usize) -> (answer: bool)
    ensures
        answer == (limit matches Some(most) ==> count < most),
{
    match limit {
        Some(most) => count < most,
        None => true,
    }
}

impl SimpleScheduler {
    /// How many workers are registered.
    pub fn worker_count(&self) -> (count: usize)
        ensures
            count == self@.workers.len(),
    {
        self.workers.len()
    }

    /// How many operations the store holds.
    pub fn operation_count(&self) -> (count: usize)
        ensures
            count == self@.operations.len(),
    {
        self.operations.len()
    }

    /// How long a worker may stay silent, in seconds.
    pub fn worker_timeout(&self) -> (seconds: u64)
        ensures
            seconds == self@.worker_timeout,
    {
        self.worker_timeout_s
    }

    /// Takes a new operation into the store, owned by nobody: in the stage
    /// of the cache check if it needs one, queued if not. It stands behind
    /// the operations that are served before it and in front of the others.
    /// An id that the store holds already is turned away with
    /// [`ErrorKind::AlreadyExists`].
    pub fn add_operation(
        &mut self,
        id: OperationId,
        action_digest: String,
        info: ActionInfo,
        needs_cache_check: bool,
    ) -> (result: Result<(), Error>)
        requires
            old(self).wf(),
            info.wf(),
        ensures
            final(self).wf(),
            answers(
                old(self)@,
                old(self)@.add_operation(
                    OperationView {
                        id: id@,
                        action_digest: action_digest@,
                        stage: if needs_cache_check {
                            ActionStage::CacheCheck
                        } else {
                            ActionStage::Queued
                        },
                        worker_id: None,
                        lost_workers: 0,
                        info: info@,
                    },
                ),
                result,
                final(self)@,
            ),
    {
        if self.find_operation(&id).is_some() {
            return Err(Error::new(ErrorKind::AlreadyExists));
        }
        let ghost before = self@;
        let stage = if needs_cache_check {
            ActionStage::CacheCheck
        } else {
            ActionStage::Queued
        };
        let operation = Operation::new(id, action_digest, info, stage);
        let ghost arrival = operation@;
        let mut place: usize = 0;
        while place < self.operations.len() && (self.operations[place].info.priority
            > operation.info.priority || (self.operations[place].info.priority
            == operation.info.priority && self.operations[place].info.insert_timestamp
            <= operation.info.insert_timestamp))
            invariant
                place <= self.operations.len(),
                arrival == operation@,
                forall|j: int|
                    0 <= j < place ==> served_before(#[trigger] self@.operations[j], arrival),
            decreases self.operations.len() - place,
        {
            place = place + 1;
        }
        proof {
            lemma_queue_position_found(before.operations, arrival, place as int);
        }
        let ghost records = self.operations@;
        self.operations.insert(place, operation);
        proof {
            assert(self@.operations =~= before.operations.insert(place as int, arrival));
            assert(self@.workers =~= before.workers);
            lemma_add_operation_keeps_wf(before, arrival);
            assert forall|k: int| 0 <= k < self.operations@.len() implies (
            #[trigger] self.operations@[k]).wf() by {
                if k != place {
                    assert(self.operations@[k] == records[if k < place {
                        k
                    } else {
                        k - 1
                    }]);
                }
            }
        }
        Ok(())
    }

    /// Ends the cache check of an operation that found nothing: the
    /// operation is queued. Where the store holds no operation under the id
    /// whose cache check is under way, the answer is
    /// [`ErrorKind::NotFound`].
    pub fn complete_cache_check(&mut self, operation_id: &OperationId) -> (result: Result<(), Error>)
        requires
            old(self).wf(),
        ensures
            final(self).wf(),
            answers(
                old(self)@,
                old(self)@.complete_cache_check(operation_id@),
                result,
                final(self)@,
            ),
    {
        let ghost before = self@;
        let k = match self.find_operation(operation_id) {
            Some(k) => k,
            None => {
                return Err(Error::new(ErrorKind::NotFound));
            },
        };
        proof {
            lemma_operation_at(before, k as int);
        }
        match self.operations[k].state.stage {
            ActionStage::CacheCheck => {},
            _ => {
                return Err(Error::new(ErrorKind::NotFound));
            },
        }
        let ghost records = self.operations@;
        self.operations[k].state.stage = ActionStage::Queued;
        proof {
            let expected = before.complete_cache_check(operation_id@)->Ok_0;
            assert forall|j: int| 0 <= j < records.len() && j != k implies #[trigger] self.operations@[j]
                == records[j] by {}
            assert(self@.operations =~= expected.operations);
            lemma_complete_cache_check_keeps_wf(before, operation_id@);
        }
        Ok(())
    }

    /// The first worker that can be given the operation at `o`.
    fn first_eligible_worker(&self, o: usize) -> (found: Option<usize>)
        requires
            self.wf(),
            o < self.operations@.len(),
        ensures
            match found {
                Some(w) => self@.first_eligible(o as int, 0) == Some(w as int),
                None => self@.first_eligible(o as int, 0) is None,
            },
    {
        let mut w: usize = 0;
        while w < self.workers.len()
            invariant
                self.wf(),
                o < self.operations@.len(),
                w <= self.workers.len(),
                self@.first_eligible(o as int, 0) == self@.first_eligible(o as int, w as int),
            decreases self.workers.len() - w,
        {
            if self.workers[w].can_accept_work()
                && self.operations[o].info.platform_properties.is_satisfied_by(
                &self.workers[w].platform_properties,
            ) {
                return Some(w);
            }
            w = w + 1;
        }
        None
    }

    /// A dispatch pass. The operations are gone through in the order in
    /// which they are served. Each one that is queued goes to the first
    /// worker, in the order of registration, that is neither paused nor
    /// draining, runs fewer operations than it can, and advertises what the
    /// operation requires; it stays queued where there is none. The
    /// assignment is recorded with the worker and with the operation at
    /// once.
    pub fn dispatch(&mut self)
        requires
            old(self).wf(),
        ensures
            final(self).wf(),
            final(self)@ == old(self)@.dispatch(),
    {
        let ghost before = self@;
        let mut o: usize = 0;
        while o < self.operations.len()
            invariant
                self.wf(),
                o <= self.operations@.len(),
                self.operations@.len() == before.operations.len(),
                self@ == before.dispatch_prefix(o as nat),
            decreases self.operations.len() - o,
        {
            let ghost earlier = self@;
            let queued = match self.operations[o].state.stage {
                ActionStage::Queued => true,
                _ => false,
            };
            if queued {
                match self.first_eligible_worker(o) {
                    Some(w) => {
                        proof {
                            lemma_first_eligible(earlier, o as int, 0);
                        }
                        let ghost workers = self.workers@;
                        let ghost records = self.operations@;
                        let operation_id = self.operations[o].state.client_operation_id.clone();
                        let worker_id = self.workers[w].id.clone();
                        self.workers[w].running_operations.push(operation_id);
                        self.operations[o].state.stage = ActionStage::Executing;
                        self.operations[o].state.worker_id = Some(worker_id);
                        proof {
                            let expected = earlier.assign(w as int, o as int);
                            assert forall|j: int| 0 <= j < workers.len() && j != w implies #[trigger] self.workers@[j]
                                == workers[j] by {}
                            assert forall|j: int| 0 <= j < records.len() && j != o implies #[trigger] self.operations@[j]
                                == records[j] by {}
                            assert(self@.workers[w as int].running_operations
                                =~= earlier.workers[w as int].running_operations.push(
                                earlier.operations[o as int].id,
                            ));
                            assert(self@.workers =~= expected.workers);
                            assert(self@.operations =~= expected.operations);
                            lemma_assign_keeps_wf(earlier, w as int, o as int);
                        }
                    },
                    None => {},
                }
            }
            o = o + 1;
        }
    }

    /// The place of the first operation at or behind `cursor` that passes
    /// the filter. Whoever draws operations one by one calls again with the
    /// place behind the one found, and stops when it has enough: the
    /// filter's limit plays no part here.
    pub fn next_operation(&self, filter: &OperationFilter, cursor: usize) -> (found: Option<usize>)
        ensures
            match found {
                Some(k) => cursor <= k < self@.operations.len() && self@.operations[k as int].passes(
                    filter@,
                ) && forall|j: int| cursor <= j < k ==> !(#[trigger] self@.operations[j]).passes(filter@),
                None => forall|j: int|
                    cursor <= j < self@.operations.len() ==> !(#[trigger] self@.operations[j]).passes(
                        filter@,
                    ),
            },
    {
        let mut k: usize = cursor;
        while k < self.operations.len()
            invariant
                cursor <= k,
                forall|j: int| cursor <= j < k ==> !(#[trigger] self@.operations[j]).passes(filter@),
            decreases self.operations.len() - k,
        {
            if self.operations[k].matches(filter) {
                return Some(k);
            }
            k = k + 1;
        }
        None
    }

    /// A copy of the operation at a place of the store.
    pub fn operation_at(&self, place: usize) -> (found: Option<Operation>)
        requires
            self.wf(),
        ensures
            match found {
                Some(operation) => place < self@.operations.len() && operation@
                    == self@.operations[place as int] && operation.wf(),
                None => place >= self@.operations.len(),
            },
    {
        if place < self.operations.len() {
            Some(self.operations[place].clone())
        } else {
            None
        }
    }

    /// A copy of the operation that the store holds under the id.
    pub fn get_operation(&self, operation_id: &OperationId) -> (found: Option<Operation>)
        requires
            self.wf(),
        ensures
            match found {
                Some(operation) => self@.has_operation(operation_id@) && operation@
                    == self@.operations[self@.operation_index(operation_id@)] && operation.wf(),
                None => !self@.has_operation(operation_id@),
            },
    {
        match self.find_operation(operation_id) {
            Some(k) => {
                proof {
                    lemma_operation_at(self@, k as int);
                }
                Some(self.operations[k].clone())
            },
            None => None,
        }
    }
}

/// One request to the scheduler, with what it carries.
#[derive(Debug)]
pub enum SchedulerRequest {
    AddWorker { worker: Worker },
    UpdateAction { worker_id: WorkerId, operation_id: OperationId, update: UpdateOperationType },
    KeepAlive { worker_id: WorkerId, timestamp: WorkerTimestamp },
    RemoveWorker { worker_id: WorkerId },
    RemoveTimedoutWorkers { now: WorkerTimestamp },
    SetDrainWorker { worker_id: WorkerId, is_draining: bool },
    AddOperation { id: OperationId, action_digest: String, info: ActionInfo, needs_cache_check: bool },
    CompleteCacheCheck { operation_id: OperationId },
    Dispatch,
}

impl View for SchedulerRequest {
    type V = Request;

    open spec fn view(&self) -> Request {
        match self {
            SchedulerRequest::AddWorker { worker } => Request::AddWorker { worker: worker@ },
            SchedulerRequest::UpdateAction {
                worker_id,
                operation_id,
                update,
            } => Request::UpdateAction {
                worker_id: worker_id@,
                operation_id: operation_id@,
                update: *update,
            },
            SchedulerRequest::KeepAlive { worker_id, timestamp } => Request::KeepAlive {
                worker_id: worker_id@,
                timestamp: *timestamp,
            },
            SchedulerRequest::RemoveWorker { worker_id } => Request::RemoveWorker {
                worker_id: worker_id@,
            },
            SchedulerRequest::RemoveTimedoutWorkers { now } => Request::RemoveTimedoutWorkers {
                now: *now,
            },
            SchedulerRequest::SetDrainWorker { worker_id, is_draining } => Request::SetDrainWorker {
                worker_id: worker_id@,
                is_draining: *is_draining,
            },
            SchedulerRequest::AddOperation {
                id,
                action_digest,
                info,
                needs_cache_check,
            } => Request::AddOperation {
                id: id@,
                action_digest: action_digest@,
                info: info@,
                needs_cache_check: *needs_cache_check,
            },
            SchedulerRequest::CompleteCacheCheck { operation_id } => Request::CompleteCacheCheck {
                operation_id: operation_id@,
            },
            SchedulerRequest::Dispatch => Request::Dispatch,
        }
    }
}

impl SchedulerRequest {
    /// Whether the capability set that the request carries, if it carries
    /// one, is well formed.
    pub open spec fn wf(&self) -> bool {
        match self {
            SchedulerRequest::AddWorker { worker } => worker.wf(),
            SchedulerRequest::AddOperation { info, .. } => info.wf(),
            _ => true,
        }
    }

    /// Whether the capability set that the request carries, if it carries
    /// one, is well formed. Whoever builds a request by hand asks this
    /// before handing it on.
    pub fn is_well_formed(&self) -> (answer: bool)
        ensures
            answer == self.wf(),
    {
        match self {
            SchedulerRequest::AddWorker { worker } => worker.platform_properties.is_well_formed(),
            SchedulerRequest::AddOperation { info, .. } => info.platform_properties.is_well_formed(),
            _ => true,
        }
    }

    /// Whether a dispatch pass follows the request where it succeeds.
    pub fn is_followed_by_a_pass(&self) -> (answer: bool)
        ensures
            answer == pass_follows(self@),
    {
        match self {
            SchedulerRequest::KeepAlive { .. } => false,
            SchedulerRequest::Dispatch => false,
            _ => true,
        }
    }
}

impl SimpleScheduler {
    /// Serves a request: does what the request asks and then, where it has
    /// succeeded and can have changed what waits or what the workers can
    /// take, makes a dispatch pass. A request that fails changes nothing,
    /// and no pass follows it.
    pub fn serve(&mut self, request: SchedulerRequest) -> (result: Result<(), Error>)
        requires
            old(self).wf(),
            request.wf(),
        ensures
            final(self).wf(),
            final(self)@ == served(old(self)@, request@),
            match result {
                Ok(_) => verdict(old(self)@, request@) is Ok,
                Err(error) => verdict(old(self)@, request@) is Err && error@ == plain(
                    verdict(old(self)@, request@)->Err_0,
                ),
            },
    {
        let follows = request.is_followed_by_a_pass();
        let result = match request {
            SchedulerRequest::AddWorker { worker } => self.add_worker(worker),
            SchedulerRequest::UpdateAction { worker_id, operation_id, update } => self.update_action(
                &worker_id,
                &operation_id,
                update,
            ),
            SchedulerRequest::KeepAlive { worker_id, timestamp } => self.worker_keep_alive_received(
                &worker_id,
                timestamp,
            ),
            SchedulerRequest::RemoveWorker { worker_id } => self.remove_worker(&worker_id),
            SchedulerRequest::RemoveTimedoutWorkers { now } => self.remove_timedout_workers(now),
            SchedulerRequest::SetDrainWorker { worker_id, is_draining } => self.set_drain_worker(
                &worker_id,
                is_draining,
            ),
            SchedulerRequest::AddOperation {
                id,
                action_digest,
                info,
                needs_cache_check,
            } => self.add_operation(id, action_digest, info, needs_cache_check),
            SchedulerRequest::CompleteCacheCheck { operation_id } => self.complete_cache_check(
                &operation_id,
            ),
            SchedulerRequest::Dispatch => {
                self.dispatch();
                Ok(())
            },
        };
        if follows && result.is_ok() {
            self.dispatch();
        }
        result
    }
}

impl ClientStateManager for SimpleScheduler {
    open spec fn operations(&self) -> Seq<OperationView> {
        self@.operations
    }

    open spec fn valid(&self) -> bool {
        self.wf()
    }

    proof fn lemma_valid_store(&self) {
        lemma_wf_store_consistent(self@);
    }

    /// Never fails.
    fn filter_operations(&self, filter: &OperationFilter) -> (result: Result<Vec<Operation>, Error>)
        ensures
            result is Ok,
    {
        let ghost test = passing(filter@);
        let ghost all = self@.operations;
        let mut found: Vec<Operation> = Vec::new();
        let mut i: usize = 0;
        proof {
            assert(all.take(0).filter(test) =~= Seq::<OperationView>::empty());
            assert(operations_view(found@) =~= Seq::<OperationView>::empty());
        }
        while i < self.operations.len() && under_limit(filter.limit, found.len())
            invariant
                self.wf(),
                all == self@.operations,
                test == passing(filter@),
                i <= self.operations.len(),
                operations_view(found@) == all.take(i as int).filter(test),
                filter.limit matches Some(most) ==> found@.len() <= most,
                forall|j: int| 0 <= j < found@.len() ==> (#[trigger] found@[j]).wf(),
            decreases self.operations.len() - i,
        {
            let ghost so_far = operations_view(found@);
            proof {
                assert(all.take(i + 1) =~= all.take(i as int).push(all[i as int]));
                all.take(i as int).lemma_filter_push(all[i as int], test);
            }
            if self.operations[i].matches(filter) {
                let copy = self.operations[i].clone();
                found.push(copy);
                assert(operations_view(found@) =~= so_far.push(all[i as int]));
            }
            i = i + 1;
        }
        proof {
            let whole = all.filter(test);
            assert(all =~= all.take(i as int) + all.skip(i as int));
            Seq::filter_distributes_over_add(all.take(i as int), all.skip(i as int), test);
            assert(whole == all.take(i as int).filter(test) + all.skip(i as int).filter(test));
            if i == self.operations.len() {
                assert(all.skip(i as int) =~= Seq::<OperationView>::empty());
                assert(all.skip(i as int).filter(test) =~= Seq::<OperationView>::empty());
                assert(whole =~= operations_view(found@));
            } else {
                let most = filter.limit->0;
                assert(operations_view(found@).len() == most);
                assert(whole.take(most as int) =~= operations_view(found@));
                if most >= whole.len() {
                    assert(whole =~= operations_view(found@));
                }
            }
        }
        Ok(found)
    }
}

impl WorkerScheduler for SimpleScheduler {
    open spec fn state(&self) -> SchedulerView {
        self@
    }

    open spec fn inv(&self) -> bool {
        self.wf()
    }

    proof fn lemma_inv_state_wf(&self) {
    }

    /// Never fails but with [`ErrorKind::AlreadyConnected`], and with that
    /// exactly when the id is taken.
    fn add_worker(&mut self, worker: Worker) -> (result: Result<(), Error>)
        ensures
            exact(old(self)@.add_worker(worker@), result),
    {
        if self.find_worker(&worker.id).is_some() {
            return Err(Error::new(ErrorKind::AlreadyConnected));
        }
        let ghost before = self@;
        let mut worker = worker;
        worker.running_operations = Vec::new();
        let ghost joined = worker@;
        self.workers.push(worker);
        proof {
            assert(joined.running_operations =~= Seq::empty());
            assert(self@.workers =~= before.workers.push(joined));
            assert(self@.operations =~= before.operations);
            lemma_add_worker_keeps_wf(before, joined);
        }
        Ok(())
    }

    /// Never fails but with [`ErrorKind::OwnershipViolation`], and with that
    /// exactly when the worker does not own the operation.
    fn update_action(
        &mut self,
        worker_id: &WorkerId,
        operation_id: &OperationId,
        update: UpdateOperationType,
    ) -> (result: Result<(), Error>)
        ensures
            exact(old(self)@.update_action(worker_id@, operation_id@, update), result),
    {
        let ghost before = self@;
        let i = match self.find_worker(worker_id) {
            Some(i) => i,
            None => {
                return Err(Error::new(ErrorKind::OwnershipViolation));
            },
        };
        proof {
            lemma_worker_at(before, i as int);
        }
        let place = match self.workers[i].running_position(operation_id) {
            Some(place) => place,
            None => {
                return Err(Error::new(ErrorKind::OwnershipViolation));
            },
        };
        let ghost held = before.workers[i as int].running_operations;
        assert(held[place as int] == operation_id@);
        assert(before.owns(worker_id@, operation_id@));
        let stage = update.stage_after();
        match update {
            UpdateOperationType::StillExecuting => {
                return Ok(());
            },
            _ => {},
        }
        assert(before.assignment_recorded(i as int, operation_id@));
        let k = match self.find_operation(operation_id) {
            Some(k) => k,
            None => {
                return Ok(());
            },
        };
        proof {
            lemma_operation_at(before, k as int);
            assert(held.index_of(operation_id@) == place);
        }
        let ghost workers = self.workers@;
        let ghost operations = self.operations@;
        self.workers[i].running_operations.remove(place);
        if self.workers[i].actions_completed < u64::MAX {
            self.workers[i].actions_completed = self.workers[i].actions_completed + 1;
        }
        self.operations[k].state.stage = stage;
        self.operations[k].state.worker_id = None;
        proof {
            let expected = before.complete(i as int, k as int, stage);
            assert forall|j: int| 0 <= j < workers.len() && j != i implies #[trigger] self.workers@[j]
                == workers[j] by {}
            assert forall|j: int| 0 <= j < operations.len() && j != k implies #[trigger] self.operations@[j]
                == operations[j] by {}
            assert(self@.workers[i as int].running_operations =~= held.remove(place as int));
            assert(self@.workers[i as int].actions_completed == one_more(
                before.workers[i as int].actions_completed,
            ));
            assert(self@.workers[i as int] == expected.workers[i as int]);
            assert(self@.workers =~= expected.workers);
            assert(self@.operations =~= expected.operations);
            lemma_complete_keeps_wf(before, i as int, k as int, stage);
        }
        Ok(())
    }

    /// Never fails but with [`ErrorKind::NotFound`], and with that exactly
    /// when no worker has the id.
    fn worker_keep_alive_received(&mut self, worker_id: &WorkerId, timestamp: WorkerTimestamp) -> (result:
        Result<(), Error>)
        ensures
            exact(old(self)@.worker_keep_alive_received(worker_id@, timestamp), result),
    {
        let ghost before = self@;
        let i = match self.find_worker(worker_id) {
            Some(i) => i,
            None => {
                return Err(Error::new(ErrorKind::NotFound));
            },
        };
        let ghost workers = self.workers@;
        if timestamp >= self.workers[i].last_update_timestamp {
            self.workers[i].last_update_timestamp = timestamp;
        }
        proof {
            lemma_worker_at(before, i as int);
            let expected = before.worker_keep_alive_received(worker_id@, timestamp)->Ok_0;
            assert forall|j: int| 0 <= j < workers.len() && j != i implies #[trigger] self.workers@[j]
                == workers[j] by {}
            assert(self@.workers =~= expected.workers);
            lemma_keep_alive_keeps_wf(before, worker_id@, timestamp);
        }
        Ok(())
    }

    /// Never fails.
    fn remove_worker(&mut self, worker_id: &WorkerId) -> (result: Result<(), Error>)
        ensures
            result is Ok,
    {
        let ghost before = self@;
        let i = match self.find_worker(worker_id) {
            Some(i) => i,
            None => {
                return Ok(());
            },
        };
        proof {
            lemma_worker_at(before, i as int);
        }
        let removed = self.workers.remove(i);
        let mut lost: Vec<WorkerId> = Vec::new();
        lost.push(removed.id);
        self.requeue_owned_by(&lost);
        proof {
            assert(lost@[0]@ == worker_id@);
            assert(ids_of(lost@) =~= set![worker_id@]);
            assert(self@.workers =~= before.workers.remove(i as int));
            lemma_remove_worker_keeps_wf(before, worker_id@);
        }
        Ok(())
    }

    /// Never fails.
    fn remove_timedout_workers(&mut self, now_timestamp: WorkerTimestamp) -> (result: Result<
        (),
        Error,
    >)
        ensures
            result is Ok,
    {
        let ghost before = self@;
        let ghost keep = |worker: WorkerView| !before.timed_out(worker, now_timestamp);
        let mut lost: Vec<WorkerId> = Vec::new();
        let mut i: usize = 0;
        let ghost mut seen: int = 0;
        proof {
            assert(before.workers.take(0).filter(keep) =~= Seq::<WorkerView>::empty());
            assert(workers_view(self.workers@).take(0) =~= Seq::<WorkerView>::empty());
            assert(workers_view(self.workers@).skip(0) =~= before.workers.skip(0));
        }
        while i < self.workers.len()
            invariant
                0 <= seen <= before.workers.len(),
                i <= self.workers@.len(),
                self.workers@.len() - i == before.workers.len() - seen,
                workers_view(self.workers@).take(i as int) == before.workers.take(seen).filter(keep),
                workers_view(self.workers@).skip(i as int) == before.workers.skip(seen),
                keep == (|worker: WorkerView| !before.timed_out(worker, now_timestamp)),
                before.worker_timeout == self.worker_timeout_s,
                self.operations == old(self).operations,
                self.worker_timeout_s == old(self).worker_timeout_s,
                forall|j: int| 0 <= j < self.workers@.len() ==> (#[trigger] self.workers@[j]).wf(),
                forall|id: Seq<char>|
                    ids_of(lost@).contains(id) <==> exists|b: int|
                        0 <= b < seen && (#[trigger] before.workers[b]).id == id
                            && before.timed_out(before.workers[b], now_timestamp),
            decreases self.workers.len() - i,
        {
            let ghost views = workers_view(self.workers@);
            let ghost records = self.workers@;
            let ghost listed = lost@;
            let ghost current = before.workers[seen];
            assert(views[i as int] == views.skip(i as int)[0]);
            assert(current == before.workers.skip(seen)[0]);
            assert(before.workers.take(seen + 1) =~= before.workers.take(seen).push(current));
            proof {
                before.workers.take(seen).lemma_filter_push(current, keep);
            }
            let silent = match self.workers[i].last_update_timestamp.checked_add(self.worker_timeout_s) {
                Some(deadline) => deadline < now_timestamp,
                None => false,
            };
            assert(silent == before.timed_out(current, now_timestamp));
            if silent {
                let removed = self.workers.remove(i);
                lost.push(removed.id);
                proof {
                    let after = workers_view(self.workers@);
                    assert(after =~= views.remove(i as int));
                    assert(after.take(i as int) =~= views.take(i as int));
                    assert(after.skip(i as int) =~= views.skip(i as int).skip(1));
                    assert(before.workers.skip(seen + 1) =~= before.workers.skip(seen).skip(1));
                    assert forall|j: int| 0 <= j < self.workers@.len() implies (
                    #[trigger] self.workers@[j]).wf() by {
                        assert(self.workers@[j] == records[if j < i {
                            j
                        } else {
                            j + 1
                        }]);
                    }
                    assert(lost@[listed.len() as int]@ == current.id);
                    assert forall|id: Seq<char>|
                        ids_of(lost@).contains(id) <==> exists|b: int|
                            0 <= b < seen + 1 && (#[trigger] before.workers[b]).id == id
                                && before.timed_out(before.workers[b], now_timestamp) by {
                        if ids_of(lost@).contains(id) {
                            let x = choose|x: int| 0 <= x < lost@.len() && (#[trigger] lost@[x])@ == id;
                            if x < listed.len() {
                                assert(listed[x]@ == id);
                                assert(ids_of(listed).contains(id));
                            } else {
                                assert(before.workers[seen].id == id);
                            }
                        }
                        if exists|b: int|
                            0 <= b < seen + 1 && (#[trigger] before.workers[b]).id == id
                                && before.timed_out(before.workers[b], now_timestamp) {
                            let b = choose|b: int|
                                0 <= b < seen + 1 && (#[trigger] before.workers[b]).id == id
                                    && before.timed_out(before.workers[b], now_timestamp);
                            if b < seen {
                                assert(ids_of(listed).contains(id));
                                let x = choose|x: int|
                                    0 <= x < listed.len() && (#[trigger] listed[x])@ == id;
                                assert(lost@[x]@ == id);
                            } else {
                                assert(lost@[listed.len() as int]@ == id);
                            }
                        }
                    }
                    seen = seen + 1;
                }
            } else {
                proof {
                    assert(views.take(i + 1) =~= views.take(i as int).push(views[i as int]));
                    assert(views.skip(i + 1) =~= views.skip(i as int).skip(1));
                    assert(before.workers.skip(seen + 1) =~= before.workers.skip(seen).skip(1));
                    assert forall|id: Seq<char>|
                        ids_of(lost@).contains(id) <==> exists|b: int|
                            0 <= b < seen + 1 && (#[trigger] before.workers[b]).id == id
                                && before.timed_out(before.workers[b], now_timestamp) by {
                        if exists|b: int|
                            0 <= b < seen + 1 && (#[trigger] before.workers[b]).id == id
                                && before.timed_out(before.workers[b], now_timestamp) {
                            let b = choose|b: int|
                                0 <= b < seen + 1 && (#[trigger] before.workers[b]).id == id
                                    && before.timed_out(before.workers[b], now_timestamp);
                            assert(b < seen);
                        }
                    }
                    seen = seen + 1;
                }
                i = i + 1;
            }
        }
        proof {
            assert(workers_view(self.workers@).take(i as int) =~= workers_view(self.workers@));
            assert(before.workers.take(seen) =~= before.workers);
            assert(ids_of(lost@) =~= before.timed_out_ids(now_timestamp));
        }
        self.requeue_owned_by(&lost);
        proof {
            lemma_remove_timedout_workers_keeps_wf(before, now_timestamp);
        }
        Ok(())
    }

    /// Never fails but with [`ErrorKind::NotFound`], and with that exactly
    /// when no worker has the id.
    fn set_drain_worker(&mut self, worker_id: &WorkerId, is_draining: bool) -> (result: Result<
        (),
        Error,
    >)
        ensures
            exact(old(self)@.set_drain_worker(worker_id@, is_draining), result),
    {
        let ghost before = self@;
        let i = match self.find_worker(worker_id) {
            Some(i) => i,
            None => {
                return Err(Error::new(ErrorKind::NotFound));
            },
        };
        let ghost workers = self.workers@;
        self.workers[i].is_draining = is_draining;
        proof {
            lemma_worker_at(before, i as int);
            let expected = before.set_drain_worker(worker_id@, is_draining)->Ok_0;
            assert forall|j: int| 0 <= j < workers.len() && j != i implies #[trigger] self.workers@[j]
                == workers[j] by {}
            assert(self@.workers =~= expected.workers);
            lemma_set_drain_keeps_wf(before, worker_id@, is_draining);
        }
        Ok(())
    }

    /// Never fails.
    fn get_worker_ids(&self) -> (result: Result<Vec<WorkerId>, Error>)
        ensures
            result is Ok,
    {
        let mut ids: Vec<WorkerId> = Vec::new();
        let mut i: usize = 0;
        while i < self.workers.len()
            invariant
                i <= self.workers.len(),
                ids@.len() == i,
                forall|j: int| 0 <= j < i ==> (#[trigger] ids@[j])@ == self@.workers[j].id,
            decreases self.workers.len() - i,
        {
            ids.push(self.workers[i].id.clone());
            i = i + 1;
        }
        Ok(ids)
    }

    /// Never fails.
    fn get_all_workers_info(&self) -> (result: Result<Vec<(WorkerId, WorkerInfo)>, Error>)
        ensures
            result is Ok,
    {
        let mut infos: Vec<(WorkerId, WorkerInfo)> = Vec::new();
        let mut i: usize = 0;
        while i < self.workers.len()
            invariant
                self.wf(),
                i <= self.workers.len(),
                infos@.len() == i,
                forall|j: int|
                    0 <= j < i ==> (#[trigger] infos@[j]).0@ == self@.workers[j].id && infos@[j].1@
                        == info_of(self@.workers[j]) && infos@[j].1.platform_properties.wf(),
            decreases self.workers.len() - i,
        {
            let id = self.workers[i].id.clone();
            let info = WorkerInfo::of(&self.workers[i]);
            infos.push((id, info));
            i = i + 1;
        }
        Ok(infos)
    }
}

} // verus!
