use nativelink_scheduler::action_messages::{
    ActionInfo, ActionStage, OperationId, UpdateOperationType, WorkerId,
};
use nativelink_scheduler::error::ErrorKind;
use nativelink_scheduler::platform_properties::{PlatformProperties, PlatformPropertyValue};
use nativelink_scheduler::simple_scheduler::{SchedulerRequest, SimpleScheduler};
use nativelink_scheduler::worker::Worker;
use nativelink_scheduler::worker_scheduler::WorkerScheduler;

fn info(priority: i32, insert_timestamp: u64) -> ActionInfo {
    ActionInfo {
        command_digest: "command".to_string(),
        input_root_digest: "input".to_string(),
        priority,
        timeout: 30,
        platform_properties: PlatformProperties::new(),
        load_timestamp: 0,
        insert_timestamp,
    }
}

fn submit(id: &str, at: u64, needs_cache_check: bool) -> SchedulerRequest {
    SchedulerRequest::AddOperation {
        id: OperationId::new(id),
        action_digest: "d".to_string(),
        info: info(0, at),
        needs_cache_check,
    }
}

fn register(id: &str, slots: usize) -> SchedulerRequest {
    SchedulerRequest::AddWorker {
        worker: Worker::new(WorkerId::new(id), PlatformProperties::new(), 0, slots),
    }
}

fn stage(scheduler: &SimpleScheduler, id: &str) -> ActionStage {
    scheduler.get_operation(&OperationId::new(id)).unwrap().state.stage
}

fn owner(scheduler: &SimpleScheduler, id: &str) -> Option<String> {
    scheduler.get_operation(&OperationId::new(id)).unwrap().state.worker_id.map(|owner| owner.0)
}

#[test]
fn pass_follows_every_request_but_a_sign_of_life_and_a_pass() {
    assert!(register("w", 1).is_followed_by_a_pass());
    assert!(submit("a", 1, false).is_followed_by_a_pass());
    assert!(SchedulerRequest::UpdateAction {
        worker_id: WorkerId::new("w"),
        operation_id: OperationId::new("a"),
        update: UpdateOperationType::StillExecuting,
    }
    .is_followed_by_a_pass());
    assert!(SchedulerRequest::RemoveWorker { worker_id: WorkerId::new("w") }.is_followed_by_a_pass());
    assert!(SchedulerRequest::RemoveTimedoutWorkers { now: 3 }.is_followed_by_a_pass());
    assert!(SchedulerRequest::SetDrainWorker { worker_id: WorkerId::new("w"), is_draining: false }
        .is_followed_by_a_pass());
    assert!(SchedulerRequest::CompleteCacheCheck { operation_id: OperationId::new("a") }
        .is_followed_by_a_pass());
    assert!(!SchedulerRequest::KeepAlive { worker_id: WorkerId::new("w"), timestamp: 1 }
        .is_followed_by_a_pass());
    assert!(!SchedulerRequest::Dispatch.is_followed_by_a_pass());
}

#[test]
fn submitted_operation_is_dispatched_at_once() {
    let mut scheduler = SimpleScheduler::new(10);
    assert!(scheduler.serve(register("w", 1)).is_ok());
    assert!(scheduler.serve(submit("a", 1, false)).is_ok());
    assert_eq!(stage(&scheduler, "a"), ActionStage::Executing);
    assert_eq!(owner(&scheduler, "a"), Some("w".to_string()));
    assert!(scheduler.serve(submit("b", 2, false)).is_ok());
    assert_eq!(stage(&scheduler, "b"), ActionStage::Queued);
}

#[test]
fn waiting_operation_is_dispatched_when_a_worker_registers() {
    let mut scheduler = SimpleScheduler::new(10);
    assert!(scheduler.serve(submit("a", 1, false)).is_ok());
    assert_eq!(stage(&scheduler, "a"), ActionStage::Queued);
    assert!(scheduler.serve(register("w", 1)).is_ok());
    assert_eq!(owner(&scheduler, "a"), Some("w".to_string()));
}

#[test]
fn freed_slot_is_filled_at_once() {
    let mut scheduler = SimpleScheduler::new(10);
    assert!(scheduler.serve(register("w", 1)).is_ok());
    assert!(scheduler.serve(submit("a", 1, false)).is_ok());
    assert!(scheduler.serve(submit("b", 2, false)).is_ok());
    assert!(scheduler
        .serve(SchedulerRequest::UpdateAction {
            worker_id: WorkerId::new("w"),
            operation_id: OperationId::new("a"),
            update: UpdateOperationType::CompletedSuccessfully,
        })
        .is_ok());
    assert_eq!(stage(&scheduler, "a"), ActionStage::CompletedSuccess);
    assert_eq!(owner(&scheduler, "b"), Some("w".to_string()));
}

#[test]
fn lost_work_goes_to_the_next_worker_at_once() {
    let mut scheduler = SimpleScheduler::new(10);
    assert!(scheduler.serve(register("first", 1)).is_ok());
    assert!(scheduler.serve(register("second", 1)).is_ok());
    assert!(scheduler.serve(submit("a", 1, false)).is_ok());
    assert_eq!(owner(&scheduler, "a"), Some("first".to_string()));
    assert!(scheduler.serve(SchedulerRequest::RemoveWorker { worker_id: WorkerId::new("first") }).is_ok());
    assert_eq!(owner(&scheduler, "a"), Some("second".to_string()));
    assert_eq!(scheduler.get_operation(&OperationId::new("a")).unwrap().state.lost_workers, 1);

    assert!(scheduler.serve(register("third", 1)).is_ok());
    assert!(scheduler.serve(SchedulerRequest::RemoveTimedoutWorkers { now: 11 }).is_ok());
    assert_eq!(scheduler.worker_count(), 0);
    assert_eq!(stage(&scheduler, "a"), ActionStage::Queued);
    assert_eq!(scheduler.get_operation(&OperationId::new("a")).unwrap().state.lost_workers, 2);
}

#[test]
fn end_of_draining_and_of_a_cache_check_are_followed_by_a_pass() {
    let mut scheduler = SimpleScheduler::new(10);
    assert!(scheduler.serve(register("w", 2)).is_ok());
    assert!(scheduler
        .serve(SchedulerRequest::SetDrainWorker { worker_id: WorkerId::new("w"), is_draining: true })
        .is_ok());
    assert!(scheduler.serve(submit("a", 1, false)).is_ok());
    assert!(scheduler.serve(submit("b", 2, true)).is_ok());
    assert_eq!(stage(&scheduler, "a"), ActionStage::Queued);
    assert_eq!(stage(&scheduler, "b"), ActionStage::CacheCheck);
    assert!(scheduler
        .serve(SchedulerRequest::SetDrainWorker { worker_id: WorkerId::new("w"), is_draining: false })
        .is_ok());
    assert_eq!(stage(&scheduler, "a"), ActionStage::Executing);
    assert_eq!(stage(&scheduler, "b"), ActionStage::CacheCheck);
    assert!(scheduler
        .serve(SchedulerRequest::CompleteCacheCheck { operation_id: OperationId::new("b") })
        .is_ok());
    assert_eq!(stage(&scheduler, "b"), ActionStage::Executing);
}

#[test]
fn sign_of_life_is_followed_by_no_pass() {
    let mut scheduler = SimpleScheduler::new(10);
    assert!(scheduler.add_worker(Worker::new(WorkerId::new("w"), PlatformProperties::new(), 0, 1)).is_ok());
    assert!(scheduler
        .add_operation(OperationId::new("a"), "d".to_string(), info(0, 1), false)
        .is_ok());
    assert!(scheduler
        .serve(SchedulerRequest::KeepAlive { worker_id: WorkerId::new("w"), timestamp: 4 })
        .is_ok());
    assert_eq!(stage(&scheduler, "a"), ActionStage::Queued);
    assert_eq!(scheduler.get_all_workers_info().unwrap()[0].1.last_update_timestamp, 4);
    assert!(scheduler.serve(SchedulerRequest::Dispatch).is_ok());
    assert_eq!(stage(&scheduler, "a"), ActionStage::Executing);
}

#[test]
fn failed_request_changes_nothing_and_is_followed_by_no_pass() {
    let mut scheduler = SimpleScheduler::new(10);
    assert!(scheduler.add_worker(Worker::new(WorkerId::new("w"), PlatformProperties::new(), 0, 1)).is_ok());
    assert!(scheduler
        .add_operation(OperationId::new("a"), "d".to_string(), info(0, 1), false)
        .is_ok());
    let refused = scheduler.serve(register("w", 5)).unwrap_err();
    assert_eq!(refused.kind, ErrorKind::AlreadyConnected);
    assert!(refused.context.is_empty());
    assert_eq!(stage(&scheduler, "a"), ActionStage::Queued);
    let refused = scheduler.serve(submit("a", 9, false)).unwrap_err();
    assert_eq!(refused.kind, ErrorKind::AlreadyExists);
    assert_eq!(stage(&scheduler, "a"), ActionStage::Queued);
    let refused = scheduler
        .serve(SchedulerRequest::SetDrainWorker { worker_id: WorkerId::new("x"), is_draining: true })
        .unwrap_err();
    assert_eq!(refused.kind, ErrorKind::NotFound);
    let refused = scheduler
        .serve(SchedulerRequest::CompleteCacheCheck { operation_id: OperationId::new("a") })
        .unwrap_err();
    assert_eq!(refused.kind, ErrorKind::NotFound);
    let refused = scheduler
        .serve(SchedulerRequest::UpdateAction {
            worker_id: WorkerId::new("w"),
            operation_id: OperationId::new("a"),
            update: UpdateOperationType::StillExecuting,
        })
        .unwrap_err();
    assert_eq!(refused.kind, ErrorKind::OwnershipViolation);
    let refused = scheduler
        .serve(SchedulerRequest::KeepAlive { worker_id: WorkerId::new("x"), timestamp: 1 })
        .unwrap_err();
    assert_eq!(refused.kind, ErrorKind::NotFound);
    assert_eq!(stage(&scheduler, "a"), ActionStage::Queued);
    assert_eq!(owner(&scheduler, "a"), None);
}

#[test]
fn request_tells_whether_its_capability_set_is_well_formed() {
    assert!(register("w", 1).is_well_formed());
    assert!(SchedulerRequest::Dispatch.is_well_formed());
    let mut worker = Worker::new(WorkerId::new("w"), PlatformProperties::new(), 0, 1);
    worker.platform_properties.entries.push(("a".to_string(), PlatformPropertyValue::Minimum(1)));
    worker.platform_properties.entries.push(("a".to_string(), PlatformPropertyValue::Minimum(2)));
    assert!(!SchedulerRequest::AddWorker { worker }.is_well_formed());
    let mut details = info(0, 0);
    details.platform_properties.entries.push(("a".to_string(), PlatformPropertyValue::Minimum(1)));
    details.platform_properties.entries.push(("a".to_string(), PlatformPropertyValue::Minimum(2)));
    assert!(!SchedulerRequest::AddOperation {
        id: OperationId::new("a"),
        action_digest: "d".to_string(),
        info: details,
        needs_cache_check: false,
    }
    .is_well_formed());
}
