use nativelink_scheduler::action_messages::{ActionInfo, ActionStage, OperationId, WorkerId};
use nativelink_scheduler::platform_properties::{PlatformProperties, PlatformPropertyValue};
use nativelink_scheduler::simple_scheduler::SimpleScheduler;
use nativelink_scheduler::worker::Worker;
use nativelink_scheduler::worker_scheduler::WorkerScheduler;

fn set(pairs: Vec<(&str, PlatformPropertyValue)>) -> PlatformProperties {
    let mut properties = PlatformProperties::new();
    for (name, value) in pairs {
        properties.insert(name.to_string(), value);
    }
    properties
}

fn text(value: &str) -> PlatformPropertyValue {
    PlatformPropertyValue::Exact(value.to_string())
}

fn needing(priority: i32, insert_timestamp: u64, required: PlatformProperties) -> ActionInfo {
    ActionInfo {
        command_digest: "command".to_string(),
        input_root_digest: "input".to_string(),
        priority,
        timeout: 30,
        platform_properties: required,
        load_timestamp: 0,
        insert_timestamp,
    }
}

fn submit(scheduler: &mut SimpleScheduler, id: &str, info: ActionInfo) {
    assert!(scheduler.add_operation(OperationId::new(id), "digest".to_string(), info, false).is_ok());
}

fn register(scheduler: &mut SimpleScheduler, id: &str, advertised: PlatformProperties, slots: usize) {
    assert!(scheduler.add_worker(Worker::new(WorkerId::new(id), advertised, 0, slots)).is_ok());
}

fn owner(scheduler: &SimpleScheduler, id: &str) -> Option<String> {
    scheduler.get_operation(&OperationId::new(id)).unwrap().state.worker_id.map(|owner| owner.0)
}

fn stage(scheduler: &SimpleScheduler, id: &str) -> ActionStage {
    scheduler.get_operation(&OperationId::new(id)).unwrap().state.stage
}

fn running(scheduler: &SimpleScheduler, worker: &str) -> Vec<String> {
    let infos = scheduler.get_all_workers_info().unwrap();
    let (_, info) = infos.into_iter().find(|(id, _)| id.0 == worker).unwrap();
    info.running_operations.into_iter().map(|id| id.0).collect()
}

#[test]
fn dispatch_on_an_empty_scheduler_does_nothing() {
    let mut scheduler = SimpleScheduler::new(1);
    scheduler.dispatch();
    assert_eq!(scheduler.worker_count(), 0);
    assert_eq!(scheduler.operation_count(), 0);
}

#[test]
fn operation_waits_while_there_is_no_worker() {
    let mut scheduler = SimpleScheduler::new(1);
    submit(&mut scheduler, "a", needing(0, 1, PlatformProperties::new()));
    scheduler.dispatch();
    assert_eq!(stage(&scheduler, "a"), ActionStage::Queued);
    assert_eq!(owner(&scheduler, "a"), None);
}

#[test]
fn first_registered_worker_that_fits_is_taken() {
    let mut scheduler = SimpleScheduler::new(1);
    register(&mut scheduler, "arm", set(vec![("arch", text("arm"))]), 2);
    register(&mut scheduler, "x86-first", set(vec![("arch", text("x86"))]), 2);
    register(&mut scheduler, "x86-second", set(vec![("arch", text("x86"))]), 2);
    submit(&mut scheduler, "a", needing(0, 1, set(vec![("arch", text("x86"))])));
    scheduler.dispatch();
    assert_eq!(owner(&scheduler, "a"), Some("x86-first".to_string()));
    assert!(running(&scheduler, "arm").is_empty());
    assert!(running(&scheduler, "x86-second").is_empty());
}

#[test]
fn operation_that_nobody_can_run_stays_queued() {
    let mut scheduler = SimpleScheduler::new(1);
    register(&mut scheduler, "arm", set(vec![("arch", text("arm"))]), 2);
    submit(&mut scheduler, "a", needing(0, 1, set(vec![("arch", text("x86"))])));
    submit(&mut scheduler, "b", needing(0, 2, set(vec![("arch", text("arm"))])));
    scheduler.dispatch();
    assert_eq!(stage(&scheduler, "a"), ActionStage::Queued);
    assert_eq!(owner(&scheduler, "b"), Some("arm".to_string()));
}

#[test]
fn full_worker_is_passed_over() {
    let mut scheduler = SimpleScheduler::new(1);
    register(&mut scheduler, "small", PlatformProperties::new(), 1);
    register(&mut scheduler, "large", PlatformProperties::new(), 2);
    for (id, at) in [("a", 1u64), ("b", 2), ("c", 3), ("d", 4)] {
        submit(&mut scheduler, id, needing(0, at, PlatformProperties::new()));
    }
    scheduler.dispatch();
    assert_eq!(running(&scheduler, "small"), vec!["a".to_string()]);
    assert_eq!(running(&scheduler, "large"), vec!["b".to_string(), "c".to_string()]);
    assert_eq!(stage(&scheduler, "d"), ActionStage::Queued);
    assert_eq!(owner(&scheduler, "d"), None);
    scheduler.dispatch();
    assert_eq!(stage(&scheduler, "d"), ActionStage::Queued);
}

#[test]
fn worker_without_slots_gets_nothing() {
    let mut scheduler = SimpleScheduler::new(1);
    register(&mut scheduler, "none", PlatformProperties::new(), 0);
    submit(&mut scheduler, "a", needing(0, 1, PlatformProperties::new()));
    scheduler.dispatch();
    assert_eq!(stage(&scheduler, "a"), ActionStage::Queued);
}

#[test]
fn priority_goes_before_age_and_age_before_arrival() {
    let mut scheduler = SimpleScheduler::new(1);
    submit(&mut scheduler, "old-low", needing(1, 10, PlatformProperties::new()));
    submit(&mut scheduler, "young-high", needing(9, 50, PlatformProperties::new()));
    submit(&mut scheduler, "old-high", needing(9, 20, PlatformProperties::new()));
    submit(&mut scheduler, "twin-first", needing(5, 30, PlatformProperties::new()));
    submit(&mut scheduler, "twin-second", needing(5, 30, PlatformProperties::new()));
    submit(&mut scheduler, "negative", needing(-3, 0, PlatformProperties::new()));
    register(&mut scheduler, "w", PlatformProperties::new(), 1);
    let expected = ["old-high", "young-high", "twin-first", "twin-second", "old-low", "negative"];
    for id in expected {
        scheduler.dispatch();
        assert_eq!(running(&scheduler, "w"), vec![id.to_string()]);
        assert!(scheduler
            .update_action(
                &WorkerId::new("w"),
                &OperationId::new(id),
                nativelink_scheduler::action_messages::UpdateOperationType::CompletedSuccessfully
            )
            .is_ok());
    }
    scheduler.dispatch();
    assert!(running(&scheduler, "w").is_empty());
}

#[test]
fn lower_priority_that_fits_is_served_when_the_higher_does_not() {
    let mut scheduler = SimpleScheduler::new(1);
    register(&mut scheduler, "arm", set(vec![("arch", text("arm"))]), 1);
    submit(&mut scheduler, "high", needing(10, 1, set(vec![("arch", text("x86"))])));
    submit(&mut scheduler, "low", needing(1, 2, set(vec![("arch", text("arm"))])));
    scheduler.dispatch();
    assert_eq!(stage(&scheduler, "high"), ActionStage::Queued);
    assert_eq!(owner(&scheduler, "low"), Some("arm".to_string()));
}

#[test]
fn minimum_requirement_picks_a_worker_with_enough() {
    let mut scheduler = SimpleScheduler::new(1);
    register(&mut scheduler, "two", set(vec![("cores", PlatformPropertyValue::Minimum(2))]), 4);
    register(&mut scheduler, "eight", set(vec![("cores", PlatformPropertyValue::Minimum(8))]), 4);
    submit(
        &mut scheduler,
        "heavy",
        needing(0, 1, set(vec![("cores", PlatformPropertyValue::Minimum(4))])),
    );
    submit(
        &mut scheduler,
        "light",
        needing(0, 2, set(vec![("cores", PlatformPropertyValue::Minimum(1))])),
    );
    submit(
        &mut scheduler,
        "huge",
        needing(0, 3, set(vec![("cores", PlatformPropertyValue::Minimum(9))])),
    );
    scheduler.dispatch();
    assert_eq!(owner(&scheduler, "heavy"), Some("eight".to_string()));
    assert_eq!(owner(&scheduler, "light"), Some("two".to_string()));
    assert_eq!(stage(&scheduler, "huge"), ActionStage::Queued);
}

#[test]
fn second_pass_changes_nothing() {
    let mut scheduler = SimpleScheduler::new(1);
    register(&mut scheduler, "w1", PlatformProperties::new(), 1);
    register(&mut scheduler, "w2", PlatformProperties::new(), 1);
    for (id, at) in [("a", 1u64), ("b", 2), ("c", 3)] {
        submit(&mut scheduler, id, needing(0, at, PlatformProperties::new()));
    }
    scheduler.dispatch();
    let first: Vec<Option<String>> = ["a", "b", "c"].iter().map(|id| owner(&scheduler, id)).collect();
    scheduler.dispatch();
    let second: Vec<Option<String>> = ["a", "b", "c"].iter().map(|id| owner(&scheduler, id)).collect();
    assert_eq!(first, second);
    assert_eq!(first, vec![Some("w1".to_string()), Some("w2".to_string()), None]);
}

#[test]
fn ended_operations_are_not_dispatched_again() {
    let mut scheduler = SimpleScheduler::new(1);
    register(&mut scheduler, "w", PlatformProperties::new(), 2);
    submit(&mut scheduler, "a", needing(0, 1, PlatformProperties::new()));
    scheduler.dispatch();
    assert!(scheduler
        .update_action(
            &WorkerId::new("w"),
            &OperationId::new("a"),
            nativelink_scheduler::action_messages::UpdateOperationType::CompletedWithFailure
        )
        .is_ok());
    scheduler.dispatch();
    assert_eq!(stage(&scheduler, "a"), ActionStage::CompletedFailure);
    assert_eq!(owner(&scheduler, "a"), None);
    assert!(running(&scheduler, "w").is_empty());
}

#[test]
fn lost_operation_keeps_its_place_in_the_queue() {
    let mut scheduler = SimpleScheduler::new(1);
    register(&mut scheduler, "w", PlatformProperties::new(), 1);
    submit(&mut scheduler, "first", needing(5, 1, PlatformProperties::new()));
    scheduler.dispatch();
    submit(&mut scheduler, "later", needing(5, 2, PlatformProperties::new()));
    assert!(scheduler.remove_worker(&WorkerId::new("w")).is_ok());
    register(&mut scheduler, "next", PlatformProperties::new(), 1);
    scheduler.dispatch();
    assert_eq!(owner(&scheduler, "first"), Some("next".to_string()));
    assert_eq!(stage(&scheduler, "later"), ActionStage::Queued);
}
