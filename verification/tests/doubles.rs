use nativelink_scheduler::action_messages::{OperationId, UpdateOperationType, WorkerId};
use nativelink_scheduler::error::{Error, ErrorKind};
use nativelink_scheduler::monitoring_server::{MonitoringServer, OperationQuery};
use nativelink_scheduler::operation_state_manager::{
    ClientStateManager, Operation, OperationFilter, OperationView,
};
use nativelink_scheduler::scheduler_state::SchedulerView;
use nativelink_scheduler::simple_scheduler::SimpleScheduler;
use nativelink_scheduler::worker::{Worker, WorkerTimestamp};
use nativelink_scheduler::worker_scheduler::{WorkerInfo, WorkerScheduler};

/// A scheduler whose store is gone: every request fails.
struct Unreachable;

fn gone() -> Error {
    Error::new(ErrorKind::CollaboratorFailure).err_tip("store is gone")
}

impl WorkerScheduler for Unreachable {
    fn state(&self) -> SchedulerView {
        unreachable!()
    }

    fn inv(&self) -> bool {
        unreachable!()
    }

    fn lemma_inv_state_wf(&self) {
        unreachable!()
    }

    fn add_worker(&mut self, _worker: Worker) -> Result<(), Error> {
        Err(gone())
    }

    fn update_action(
        &mut self,
        _worker_id: &WorkerId,
        _operation_id: &OperationId,
        _update: UpdateOperationType,
    ) -> Result<(), Error> {
        Err(gone())
    }

    fn worker_keep_alive_received(&mut self, _worker_id: &WorkerId, _timestamp: WorkerTimestamp) -> Result<(), Error> {
        Err(gone())
    }

    fn remove_worker(&mut self, _worker_id: &WorkerId) -> Result<(), Error> {
        Err(gone())
    }

    fn remove_timedout_workers(&mut self, _now_timestamp: WorkerTimestamp) -> Result<(), Error> {
        Err(gone())
    }

    fn set_drain_worker(&mut self, _worker_id: &WorkerId, _is_draining: bool) -> Result<(), Error> {
        Err(gone())
    }

    fn get_worker_ids(&self) -> Result<Vec<WorkerId>, Error> {
        Err(gone())
    }

    fn get_all_workers_info(&self) -> Result<Vec<(WorkerId, WorkerInfo)>, Error> {
        Err(gone())
    }
}

impl ClientStateManager for Unreachable {
    fn operations(&self) -> vstd::seq::Seq<OperationView> {
        unreachable!()
    }

    fn valid(&self) -> bool {
        unreachable!()
    }

    fn lemma_valid_store(&self) {
        unreachable!()
    }

    fn filter_operations(&self, _filter: &OperationFilter) -> Result<Vec<Operation>, Error> {
        Err(gone())
    }
}

#[test]
fn failure_of_the_scheduler_is_answered_with_500() {
    let server = MonitoringServer::new(0);
    let failed = server.get_workers_internal(&Unreachable).unwrap_err();
    assert_eq!(failed.kind, ErrorKind::CollaboratorFailure);
    assert_eq!(failed.context, vec!["store is gone".to_string(), "Failed to get workers info".to_string()]);
    let (status, text) = server.get_workers(&Unreachable).unwrap_err();
    assert_eq!(status, 500);
    assert_eq!(text, "CollaboratorFailure: store is gone: Failed to get workers info");
    let (status, text) = server.get_worker(&Unreachable, "w").unwrap_err();
    assert_eq!(status, 500);
    assert_eq!(text, "CollaboratorFailure: store is gone: Failed to get workers info");
}

#[test]
fn failure_of_the_store_is_answered_with_500() {
    let server = MonitoringServer::new(0);
    let failed = server.get_operations_internal(&Unreachable, &None).unwrap_err();
    assert_eq!(failed.kind, ErrorKind::CollaboratorFailure);
    assert_eq!(failed.context, vec!["store is gone".to_string(), "Failed to filter operations".to_string()]);
    let (status, text) = server.get_operation(&Unreachable, "a").unwrap_err();
    assert_eq!(status, 500);
    assert_eq!(text, "CollaboratorFailure: store is gone: Failed to filter operations");
    let (status, text) = server.get_operations(&Unreachable, OperationQuery { stage: None, worker_id: None, limit: None }).unwrap_err();
    assert_eq!(status, 500);
    assert_eq!(text, "CollaboratorFailure: store is gone: Failed to filter operations");
    assert_eq!(
        server.get_all_operations_internal(&Unreachable).unwrap_err().context,
        vec!["store is gone".to_string(), "Failed to filter operations".to_string()]
    );
}

#[test]
fn failure_behind_the_status_is_answered_with_500_and_says_what_failed() {
    let server = MonitoringServer::new(0);
    let failed = server.get_scheduler_status_internal(&Unreachable, &Unreachable, 5).unwrap_err();
    assert_eq!(failed.kind, ErrorKind::CollaboratorFailure);
    assert_eq!(failed.context, vec!["store is gone".to_string(), "Failed to get workers info".to_string()]);
    let (status, text) = server.get_scheduler_status(&Unreachable, &Unreachable, 5).unwrap_err();
    assert_eq!(status, 500);
    assert_eq!(text, "CollaboratorFailure: store is gone: Failed to get workers info");
    let (status, text) = server.get_scheduler_metrics(&Unreachable, &Unreachable, 5).unwrap_err();
    assert_eq!(status, 500);
    assert_eq!(text, "CollaboratorFailure: store is gone: Failed to get workers info");

    let scheduler = SimpleScheduler::new(1);
    let (status, text) = server.get_scheduler_status(&scheduler, &Unreachable, 5).unwrap_err();
    assert_eq!(status, 500);
    assert_eq!(text, "CollaboratorFailure: store is gone: Failed to filter operations");
}
