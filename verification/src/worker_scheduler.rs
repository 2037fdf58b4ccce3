//! The interface between the scheduler and what concerns its workers.

use vstd::prelude::*;
use crate::action_messages::{
    clone_operation_ids, operation_ids_view, OperationId, UpdateOperationType, WorkerId,
};
use crate::error::{plain, Error, ErrorKind};
use crate::platform_properties::{PlatformProperties, PropertyValueView};
use crate::scheduler_state::SchedulerView;
use crate::worker::{Worker, WorkerTimestamp, WorkerView};

verus! {

/// What is reported of a worker to those who watch the scheduler.
#[derive(Debug)]
pub struct WorkerInfo {
    pub platform_properties: PlatformProperties,
    pub last_update_timestamp: WorkerTimestamp,
    pub is_paused: bool,
    pub is_draining: bool,
    pub can_accept_work: bool,
    pub running_operations: Vec<OperationId>,
    pub connected_timestamp: u64,
    pub actions_completed: u64,
}

/// The mathematical value of a [`WorkerInfo`].
pub struct WorkerInfoView {
    pub platform_properties: Map<Seq<char>, PropertyValueView>,
    pub last_update_timestamp: u64,
    pub is_paused: bool,
    pub is_draining: bool,
    pub can_accept_work: bool,
    pub running_operations: Seq<Seq<char>>,
    pub connected_timestamp: u64,
    pub actions_completed: u64,
}

impl View for WorkerInfo {
    type V = WorkerInfoView;

    open spec fn view(&self) -> WorkerInfoView {
        WorkerInfoView {
            platform_properties: self.platform_properties@,
            last_update_timestamp: self.last_update_timestamp,
            is_paused: self.is_paused,
            is_draining: self.is_draining,
            can_accept_work: self.can_accept_work,
            running_operations: operation_ids_view(self.running_operations@),
            connected_timestamp: self.connected_timestamp,
            actions_completed: self.actions_completed,
        }
    }
}

/// What is reported of a worker that stands as `worker` does.
pub open spec fn info_of(worker: WorkerView) -> WorkerInfoView {
    WorkerInfoView {
        platform_properties: worker.platform_properties,
        last_update_timestamp: worker.last_update_timestamp,
        is_paused: worker.is_paused,
        is_draining: worker.is_draining,
        can_accept_work: worker.can_accept_work(),
        running_operations: worker.running_operations,
        connected_timestamp: worker.connected_timestamp,
        actions_completed: worker.actions_completed,
    }
}

impl WorkerInfo {
    /// What is reported of the worker, as it stands now.
    pub fn of(worker: &Worker) -> (info: WorkerInfo)
        requires
            worker.wf(),
        ensures
            info@ == info_of(worker@),
            info.platform_properties.wf(),
    {
        WorkerInfo {
            platform_properties: worker.platform_properties.clone(),
            last_update_timestamp: worker.last_update_timestamp,
            is_paused: worker.is_paused,
            is_draining: worker.is_draining,
            can_accept_work: worker.can_accept_work(),
            running_operations: clone_operation_ids(&worker.running_operations),
            connected_timestamp: worker.connected_timestamp,
            actions_completed: worker.actions_completed,
        }
    }
}

/// Whether the outcome of a request is one that the model allows. A request
/// that succeeds has done what the model says. One that fails has changed
/// nothing, and fails as the model says or because something that the
/// scheduler depends on failed.
pub open spec fn allowed(
    before: SchedulerView,
    expected: Result<SchedulerView, ErrorKind>,
    result: Result<(), Error>,
    after: SchedulerView,
) -> bool {
    match result {
        Ok(_) => expected == Ok::<SchedulerView, ErrorKind>(after),
        Err(error) => after == before && (error@.kind == ErrorKind::CollaboratorFailure
            || expected == Err::<SchedulerView, ErrorKind>(error@.kind)),
    }
}

/// Whether the outcome of a request is the very one that the model gives:
/// success where the model succeeds, and where it fails its error, without
/// context.
pub open spec fn exact(expected: Result<SchedulerView, ErrorKind>, result: Result<(), Error>) -> bool {
    match result {
        Ok(_) => expected is Ok,
        Err(error) => expected is Err && error@ == plain(expected->Err_0),
    }
}

/// Whether a request was answered as the model says: it has done what the
/// model says and succeeded, or changed nothing and failed with the model's
/// error.
pub open spec fn answers(
    before: SchedulerView,
    expected: Result<SchedulerView, ErrorKind>,
    result: Result<(), Error>,
    after: SchedulerView,
) -> bool {
    allowed(before, expected, result, after) && exact(expected, result)
}

/// Whether a snapshot lists the workers of a state, in their order.
pub open spec fn lists_workers(ids: Seq<WorkerId>, state: SchedulerView) -> bool {
    &&& ids.len() == state.workers.len()
    &&& forall|i: int| 0 <= i < ids.len() ==> (#[trigger] ids[i])@ == state.workers[i].id
}

/// Whether a snapshot reports the workers of a state, in their order.
pub open spec fn reports_workers(infos: Seq<(WorkerId, WorkerInfo)>, state: SchedulerView) -> bool {
    &&& infos.len() == state.workers.len()
    &&& forall|i: int|
        0 <= i < infos.len() ==> (#[trigger] infos[i]).0@ == state.workers[i].id && infos[i].1@
            == info_of(state.workers[i]) && infos[i].1.platform_properties.wf()
}

/// What the scheduler offers to the connections of its workers, to the
/// liveness timer and to those who watch it. Every request is answered from
/// the state as it stands; none waits.
///
/// An implementation keeps a state that [`SchedulerView`] models and that
/// stays well formed. No request is promised to succeed, since an
/// implementation may rest on something that fails; what is promised is
/// what holds of each outcome.
pub trait WorkerScheduler {
    /// The state of the scheduler.
    spec fn state(&self) -> SchedulerView;

    /// What the implementation keeps true of itself between requests.
    spec fn inv(&self) -> bool;

    /// Between requests the state is well formed.
    proof fn lemma_inv_state_wf(&self)
        requires
            self.inv(),
        ensures
            self.state().wf(),
    ;

    /// Registers a worker, which from then on is given work when it can
    /// take it. A worker whose id is registered already is turned away with
    /// [`ErrorKind::AlreadyConnected`].
    fn add_worker(&mut self, worker: Worker) -> (result: Result<(), Error>)
        requires
            old(self).inv(),
            worker.wf(),
        ensures
            final(self).inv(),
            allowed(
                old(self).state(),
                old(self).state().add_worker(worker@),
                result,
                final(self).state(),
            ),
    ;

    /// Takes a worker's report on an operation. A report from a worker that
    /// does not own the operation fails with
    /// [`ErrorKind::OwnershipViolation`].
    fn update_action(
        &mut self,
        worker_id: &WorkerId,
        operation_id: &OperationId,
        update: UpdateOperationType,
    ) -> (result: Result<(), Error>)
        requires
            old(self).inv(),
        ensures
            final(self).inv(),
            allowed(
                old(self).state(),
                old(self).state().update_action(worker_id@, operation_id@, update),
                result,
                final(self).state(),
            ),
    ;

    /// Takes a worker's sign of life. An unknown worker gives
    /// [`ErrorKind::NotFound`].
    fn worker_keep_alive_received(&mut self, worker_id: &WorkerId, timestamp: WorkerTimestamp) -> (result:
        Result<(), Error>)
        requires
            old(self).inv(),
        ensures
            final(self).inv(),
            allowed(
                old(self).state(),
                old(self).state().worker_keep_alive_received(worker_id@, timestamp),
                result,
                final(self).state(),
            ),
    ;

    /// Removes a worker and queues again what it ran.
    fn remove_worker(&mut self, worker_id: &WorkerId) -> (result: Result<(), Error>)
        requires
            old(self).inv(),
        ensures
            final(self).inv(),
            allowed(
                old(self).state(),
                Ok(old(self).state().remove_worker(worker_id@)),
                result,
                final(self).state(),
            ),
    ;

    /// Removes the workers that have timed out at `now_timestamp` and queues
    /// again what they ran.
    fn remove_timedout_workers(&mut self, now_timestamp: WorkerTimestamp) -> (result: Result<
        (),
        Error,
    >)
        requires
            old(self).inv(),
        ensures
            final(self).inv(),
            allowed(
                old(self).state(),
                Ok(old(self).state().remove_timedout_workers(now_timestamp)),
                result,
                final(self).state(),
            ),
    ;

    /// Turns the draining of a worker on or off. An unknown worker gives
    /// [`ErrorKind::NotFound`].
    fn set_drain_worker(&mut self, worker_id: &WorkerId, is_draining: bool) -> (result: Result<
        (),
        Error,
    >)
        requires
            old(self).inv(),
        ensures
            final(self).inv(),
            allowed(
                old(self).state(),
                old(self).state().set_drain_worker(worker_id@, is_draining),
                result,
                final(self).state(),
            ),
    ;

    /// The ids of the registered workers, in the order of registration.
    fn get_worker_ids(&self) -> (result: Result<Vec<WorkerId>, Error>)
        requires
            self.inv(),
        ensures
            match result {
                Ok(ids) => lists_workers(ids@, self.state()),
                Err(error) => error@.kind == ErrorKind::CollaboratorFailure,
            },
    ;

    /// What is reported of each registered worker, in the order of
    /// registration.
    fn get_all_workers_info(&self) -> (result: Result<Vec<(WorkerId, WorkerInfo)>, Error>)
        requires
            self.inv(),
        ensures
            match result {
                Ok(infos) => reports_workers(infos@, self.state()),
                Err(error) => error@.kind == ErrorKind::CollaboratorFailure,
            },
    ;
}

} // verus!
