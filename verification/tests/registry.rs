use nativelink_scheduler::action_messages::{
    ActionInfo, ActionStage, OperationId, UpdateOperationType, WorkerId,
};
use nativelink_scheduler::error::ErrorKind;
use nativelink_scheduler::platform_properties::{PlatformProperties, PlatformPropertyValue};
use nativelink_scheduler::simple_scheduler::SimpleScheduler;
use nativelink_scheduler::worker::Worker;
use nativelink_scheduler::worker_scheduler::{WorkerInfo, WorkerScheduler};

fn plain_worker(id: &str, connected: u64, slots: usize) -> Worker {
    Worker::new(WorkerId::new(id), PlatformProperties::new(), connected, slots)
}

fn plain_action(priority: i32, insert_timestamp: u64) -> ActionInfo {
    ActionInfo {
        command_digest: "command".to_string(),
        input_root_digest: "input".to_string(),
        priority,
        timeout: 30,
        platform_properties: PlatformProperties::new(),
        load_timestamp: 0,
        insert_timestamp,
    }
}

fn ids(scheduler: &SimpleScheduler) -> Vec<String> {
    scheduler.get_worker_ids().unwrap().into_iter().map(|id| id.0).collect()
}

fn info(scheduler: &SimpleScheduler, worker: &str) -> WorkerInfo {
    let infos = scheduler.get_all_workers_info().unwrap();
    infos.into_iter().find(|(id, _)| id.0 == worker).unwrap().1
}

#[test]
fn new_scheduler_is_empty() {
    let scheduler = SimpleScheduler::new(7);
    assert_eq!(scheduler.worker_count(), 0);
    assert_eq!(scheduler.operation_count(), 0);
    assert_eq!(scheduler.worker_timeout(), 7);
    assert!(ids(&scheduler).is_empty());
    assert!(scheduler.get_all_workers_info().unwrap().is_empty());
}

#[test]
fn new_worker_starts_idle() {
    let worker = plain_worker("w", 12, 3);
    assert_eq!(worker.id.0, "w");
    assert_eq!(worker.last_update_timestamp, 12);
    assert_eq!(worker.connected_timestamp, 12);
    assert!(!worker.is_paused);
    assert!(!worker.is_draining);
    assert!(worker.running_operations.is_empty());
    assert_eq!(worker.actions_completed, 0);
    assert_eq!(worker.max_inflight_tasks, 3);
    assert!(worker.can_accept_work());
    assert!(!plain_worker("full", 0, 0).can_accept_work());
}

#[test]
fn workers_are_listed_in_the_order_of_registration() {
    let mut scheduler = SimpleScheduler::new(10);
    for id in ["c", "a", "b"] {
        assert!(scheduler.add_worker(plain_worker(id, 0, 1)).is_ok());
    }
    assert_eq!(ids(&scheduler), vec!["c".to_string(), "a".to_string(), "b".to_string()]);
    assert_eq!(scheduler.worker_count(), 3);
    let infos = scheduler.get_all_workers_info().unwrap();
    let listed: Vec<String> = infos.iter().map(|(id, _)| id.0.clone()).collect();
    assert_eq!(listed, vec!["c".to_string(), "a".to_string(), "b".to_string()]);
}

#[test]
fn second_registration_under_one_id_is_turned_away() {
    let mut scheduler = SimpleScheduler::new(10);
    let mut first = plain_worker("w", 3, 2);
    first.platform_properties.insert("arch".to_string(), PlatformPropertyValue::Exact("x86".to_string()));
    assert!(scheduler.add_worker(first).is_ok());
    let refused = scheduler.add_worker(plain_worker("w", 99, 7)).unwrap_err();
    assert_eq!(refused.kind, ErrorKind::AlreadyConnected);
    assert!(refused.context.is_empty());
    assert_eq!(ids(&scheduler), vec!["w".to_string()]);
    let kept = info(&scheduler, "w");
    assert_eq!(kept.connected_timestamp, 3);
    assert_eq!(kept.platform_properties.len(), 1);
}

#[test]
fn id_is_free_again_after_removal() {
    let mut scheduler = SimpleScheduler::new(10);
    assert!(scheduler.add_worker(plain_worker("w", 1, 1)).is_ok());
    assert!(scheduler.remove_worker(&WorkerId::new("w")).is_ok());
    assert!(scheduler.add_worker(plain_worker("w", 2, 1)).is_ok());
    assert_eq!(info(&scheduler, "w").connected_timestamp, 2);
}

#[test]
fn registration_starts_with_nothing_assigned() {
    let mut scheduler = SimpleScheduler::new(10);
    let mut worker = plain_worker("w", 0, 4);
    worker.running_operations.push(OperationId::new("ghost"));
    worker.actions_completed = 5;
    assert!(scheduler.add_worker(worker).is_ok());
    let registered = info(&scheduler, "w");
    assert!(registered.running_operations.is_empty());
    assert_eq!(registered.actions_completed, 5);
    assert!(registered.can_accept_work);
}

#[test]
fn worker_that_starts_paused_gets_no_work() {
    let mut scheduler = SimpleScheduler::new(10);
    let mut worker = plain_worker("w", 0, 4);
    worker.is_paused = true;
    assert!(scheduler.add_worker(worker).is_ok());
    assert!(scheduler
        .add_operation(OperationId::new("a"), "d".to_string(), plain_action(0, 1), false)
        .is_ok());
    scheduler.dispatch();
    assert_eq!(
        scheduler.get_operation(&OperationId::new("a")).unwrap().state.stage,
        ActionStage::Queued
    );
    let shown = info(&scheduler, "w");
    assert!(shown.is_paused);
    assert!(!shown.can_accept_work);
}

#[test]
fn sign_of_life_moves_the_time_forward_only() {
    let mut scheduler = SimpleScheduler::new(10);
    assert!(scheduler.add_worker(plain_worker("w", 5, 1)).is_ok());
    assert_eq!(info(&scheduler, "w").last_update_timestamp, 5);
    assert!(scheduler.worker_keep_alive_received(&WorkerId::new("w"), 9).is_ok());
    assert_eq!(info(&scheduler, "w").last_update_timestamp, 9);
    assert!(scheduler.worker_keep_alive_received(&WorkerId::new("w"), 7).is_ok());
    assert_eq!(info(&scheduler, "w").last_update_timestamp, 9);
    assert!(scheduler.worker_keep_alive_received(&WorkerId::new("w"), 9).is_ok());
    assert_eq!(info(&scheduler, "w").last_update_timestamp, 9);
    assert_eq!(info(&scheduler, "w").connected_timestamp, 5);
}

#[test]
fn sign_of_life_from_a_stranger_is_not_found() {
    let mut scheduler = SimpleScheduler::new(10);
    assert!(scheduler.add_worker(plain_worker("w", 5, 1)).is_ok());
    let missing = scheduler.worker_keep_alive_received(&WorkerId::new("x"), 9).unwrap_err();
    assert_eq!(missing.kind, ErrorKind::NotFound);
    assert!(missing.is_not_found());
    assert!(missing.context.is_empty());
    assert_eq!(info(&scheduler, "w").last_update_timestamp, 5);
}

#[test]
fn late_sign_of_life_does_not_save_an_older_silence() {
    let mut scheduler = SimpleScheduler::new(10);
    assert!(scheduler.add_worker(plain_worker("w", 0, 1)).is_ok());
    assert!(scheduler.worker_keep_alive_received(&WorkerId::new("w"), 30).is_ok());
    assert!(scheduler.worker_keep_alive_received(&WorkerId::new("w"), 2).is_ok());
    assert!(scheduler.remove_timedout_workers(40).is_ok());
    assert_eq!(ids(&scheduler), vec!["w".to_string()]);
    assert!(scheduler.remove_timedout_workers(41).is_ok());
    assert!(ids(&scheduler).is_empty());
}

#[test]
fn eviction_takes_only_the_silent() {
    let mut scheduler = SimpleScheduler::new(5);
    for (id, at) in [("a", 0u64), ("b", 10), ("c", 3), ("d", 20)] {
        assert!(scheduler.add_worker(plain_worker(id, at, 1)).is_ok());
    }
    assert!(scheduler.remove_timedout_workers(12).is_ok());
    assert_eq!(ids(&scheduler), vec!["b".to_string(), "d".to_string()]);
    assert!(scheduler.remove_timedout_workers(15).is_ok());
    assert_eq!(ids(&scheduler), vec!["b".to_string(), "d".to_string()]);
    assert!(scheduler.remove_timedout_workers(16).is_ok());
    assert_eq!(ids(&scheduler), vec!["d".to_string()]);
}

#[test]
fn eviction_with_nothing_timed_out_changes_nothing() {
    let mut scheduler = SimpleScheduler::new(5);
    assert!(scheduler.remove_timedout_workers(1000).is_ok());
    assert!(scheduler.add_worker(plain_worker("a", 100, 1)).is_ok());
    assert!(scheduler
        .add_operation(OperationId::new("op"), "d".to_string(), plain_action(0, 1), false)
        .is_ok());
    scheduler.dispatch();
    assert!(scheduler.remove_timedout_workers(0).is_ok());
    assert!(scheduler.remove_timedout_workers(105).is_ok());
    assert_eq!(ids(&scheduler), vec!["a".to_string()]);
    assert_eq!(info(&scheduler, "a").running_operations.len(), 1);
}

#[test]
fn removing_a_stranger_changes_nothing() {
    let mut scheduler = SimpleScheduler::new(5);
    assert!(scheduler.remove_worker(&WorkerId::new("x")).is_ok());
    assert!(scheduler.add_worker(plain_worker("a", 0, 1)).is_ok());
    assert!(scheduler
        .add_operation(OperationId::new("op"), "d".to_string(), plain_action(0, 1), false)
        .is_ok());
    scheduler.dispatch();
    assert!(scheduler.remove_worker(&WorkerId::new("x")).is_ok());
    assert_eq!(ids(&scheduler), vec!["a".to_string()]);
    assert_eq!(
        scheduler.get_operation(&OperationId::new("op")).unwrap().state.stage,
        ActionStage::Executing
    );
    assert!(scheduler.remove_worker(&WorkerId::new("a")).is_ok());
    assert!(scheduler.remove_worker(&WorkerId::new("a")).is_ok());
    assert!(ids(&scheduler).is_empty());
}

#[test]
fn draining_a_stranger_is_not_found() {
    let mut scheduler = SimpleScheduler::new(5);
    let missing = scheduler.set_drain_worker(&WorkerId::new("x"), true).unwrap_err();
    assert_eq!(missing.kind, ErrorKind::NotFound);
    assert!(missing.context.is_empty());
}

#[test]
fn draining_touches_one_flag_of_one_worker() {
    let mut scheduler = SimpleScheduler::new(5);
    assert!(scheduler.add_worker(plain_worker("a", 1, 2)).is_ok());
    assert!(scheduler.add_worker(plain_worker("b", 2, 2)).is_ok());
    assert!(scheduler.set_drain_worker(&WorkerId::new("b"), true).is_ok());
    let a = info(&scheduler, "a");
    let b = info(&scheduler, "b");
    assert!(!a.is_draining);
    assert!(a.can_accept_work);
    assert!(b.is_draining);
    assert!(!b.is_paused);
    assert!(!b.can_accept_work);
    assert_eq!(b.last_update_timestamp, 2);
    assert_eq!(b.connected_timestamp, 2);
    assert_eq!(ids(&scheduler), vec!["a".to_string(), "b".to_string()]);
}

#[test]
fn end_of_an_operation_is_recorded_on_both_sides() {
    let mut scheduler = SimpleScheduler::new(5);
    assert!(scheduler.add_worker(plain_worker("w", 0, 3)).is_ok());
    for (id, at) in [("a", 1u64), ("b", 2), ("c", 3)] {
        assert!(scheduler
            .add_operation(OperationId::new(id), "d".to_string(), plain_action(0, at), false)
            .is_ok());
    }
    scheduler.dispatch();
    assert!(scheduler
        .update_action(&WorkerId::new("w"), &OperationId::new("b"), UpdateOperationType::CompletedWithFailure)
        .is_ok());
    let b = scheduler.get_operation(&OperationId::new("b")).unwrap();
    assert_eq!(b.state.stage, ActionStage::CompletedFailure);
    assert!(b.state.worker_id.is_none());
    assert!(b.state.stage.is_finished());
    let shown = info(&scheduler, "w");
    let running: Vec<String> = shown.running_operations.into_iter().map(|id| id.0).collect();
    assert_eq!(running, vec!["a".to_string(), "c".to_string()]);
    assert_eq!(shown.actions_completed, 1);

    assert!(scheduler
        .update_action(&WorkerId::new("w"), &OperationId::new("a"), UpdateOperationType::CompletedSuccessfully)
        .is_ok());
    assert_eq!(
        scheduler.get_operation(&OperationId::new("a")).unwrap().state.stage,
        ActionStage::CompletedSuccess
    );
    assert_eq!(info(&scheduler, "w").actions_completed, 2);

    let again = scheduler
        .update_action(&WorkerId::new("w"), &OperationId::new("a"), UpdateOperationType::CompletedSuccessfully)
        .unwrap_err();
    assert_eq!(again.kind, ErrorKind::OwnershipViolation);
    assert_eq!(info(&scheduler, "w").actions_completed, 2);
}

#[test]
fn report_that_an_operation_still_runs_changes_nothing() {
    let mut scheduler = SimpleScheduler::new(5);
    assert!(scheduler.add_worker(plain_worker("w", 0, 1)).is_ok());
    assert!(scheduler
        .add_operation(OperationId::new("a"), "d".to_string(), plain_action(0, 1), false)
        .is_ok());
    scheduler.dispatch();
    assert!(scheduler
        .update_action(&WorkerId::new("w"), &OperationId::new("a"), UpdateOperationType::StillExecuting)
        .is_ok());
    let a = scheduler.get_operation(&OperationId::new("a")).unwrap();
    assert_eq!(a.state.stage, ActionStage::Executing);
    assert_eq!(a.state.worker_id.map(|id| id.0), Some("w".to_string()));
    let shown = info(&scheduler, "w");
    assert_eq!(shown.running_operations.len(), 1);
    assert_eq!(shown.actions_completed, 0);
    assert_eq!(shown.last_update_timestamp, 0);
}

#[test]
fn counter_of_completed_actions_stops_at_its_end() {
    let mut scheduler = SimpleScheduler::new(5);
    let mut worker = plain_worker("w", 0, 1);
    worker.actions_completed = u64::MAX - 1;
    assert!(scheduler.add_worker(worker).is_ok());
    for (id, at) in [("a", 1u64), ("b", 2)] {
        assert!(scheduler
            .add_operation(OperationId::new(id), "d".to_string(), plain_action(0, at), false)
            .is_ok());
        scheduler.dispatch();
        assert!(scheduler
            .update_action(&WorkerId::new("w"), &OperationId::new(id), UpdateOperationType::CompletedSuccessfully)
            .is_ok());
    }
    assert_eq!(info(&scheduler, "w").actions_completed, u64::MAX);
}

#[test]
fn update_names_its_stage() {
    assert_eq!(UpdateOperationType::StillExecuting.stage_after(), ActionStage::Executing);
    assert_eq!(UpdateOperationType::CompletedSuccessfully.stage_after(), ActionStage::CompletedSuccess);
    assert_eq!(UpdateOperationType::CompletedWithFailure.stage_after(), ActionStage::CompletedFailure);
}

#[test]
fn stages_have_names_and_ends() {
    assert_eq!(ActionStage::CacheCheck.name(), "CacheCheck");
    assert_eq!(ActionStage::Queued.name(), "Queued");
    assert_eq!(ActionStage::Executing.name(), "Executing");
    assert_eq!(ActionStage::CompletedSuccess.name(), "CompletedSuccess");
    assert_eq!(ActionStage::CompletedFailure.name(), "CompletedFailure");
    assert!(!ActionStage::CacheCheck.is_finished());
    assert!(!ActionStage::Queued.is_finished());
    assert!(!ActionStage::Executing.is_finished());
    assert!(ActionStage::CompletedSuccess.is_finished());
    assert!(ActionStage::CompletedFailure.is_finished());
}

#[test]
fn ids_compare_by_their_characters() {
    let a = WorkerId::new("w-1");
    assert!(a.same(&WorkerId::new("w-1")));
    assert!(!a.same(&WorkerId::new("w-2")));
    assert!(!a.same(&WorkerId::new("")));
    assert_eq!(a.as_str(), "w-1");
    assert_eq!(a.clone().0, "w-1");
    let o = OperationId::new("op");
    assert!(o.same(&OperationId::new("op")));
    assert!(!o.same(&OperationId::new("Op")));
    assert_eq!(o.as_str(), "op");
    assert_eq!(o.clone().0, "op");
}
