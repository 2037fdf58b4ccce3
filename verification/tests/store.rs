use nativelink_scheduler::action_messages::{ActionInfo, ActionStage, OperationId, WorkerId};
use nativelink_scheduler::error::ErrorKind;
use nativelink_scheduler::operation_state_manager::{
    ClientStateManager, Operation, OperationFilter, OperationStageFlags,
};
use nativelink_scheduler::platform_properties::{PlatformProperties, PlatformPropertyValue};
use nativelink_scheduler::simple_scheduler::SimpleScheduler;
use nativelink_scheduler::worker::Worker;
use nativelink_scheduler::worker_scheduler::WorkerScheduler;

fn info(priority: i32, insert_timestamp: u64) -> ActionInfo {
    ActionInfo {
        command_digest: "command".to_string(),
        input_root_digest: "input".to_string(),
        priority,
        timeout: 30,
        platform_properties: PlatformProperties::new(),
        load_timestamp: 4,
        insert_timestamp,
    }
}

fn names(found: &[Operation]) -> Vec<String> {
    found.iter().map(|operation| operation.state.client_operation_id.0.clone()).collect()
}

fn stage_filter(stages: OperationStageFlags) -> OperationFilter {
    let mut filter = OperationFilter::new();
    filter.stages = stages;
    filter
}

/// Five operations: `done` has ended, `run1` and `run2` are with workers,
/// `wait` is queued and `check` awaits its cache check.
fn busy_scheduler() -> SimpleScheduler {
    let mut scheduler = SimpleScheduler::new(10);
    assert!(scheduler
        .add_worker(Worker::new(WorkerId::new("w1"), PlatformProperties::new(), 0, 1))
        .is_ok());
    assert!(scheduler
        .add_worker(Worker::new(WorkerId::new("w2"), PlatformProperties::new(), 0, 1))
        .is_ok());
    assert!(scheduler.add_operation(OperationId::new("done"), "d0".to_string(), info(9, 1), false).is_ok());
    scheduler.dispatch();
    assert!(scheduler
        .update_action(
            &WorkerId::new("w1"),
            &OperationId::new("done"),
            nativelink_scheduler::action_messages::UpdateOperationType::CompletedSuccessfully
        )
        .is_ok());
    assert!(scheduler.add_operation(OperationId::new("run1"), "d1".to_string(), info(5, 1), false).is_ok());
    assert!(scheduler.add_operation(OperationId::new("run2"), "d2".to_string(), info(5, 2), false).is_ok());
    assert!(scheduler.add_operation(OperationId::new("wait"), "d3".to_string(), info(5, 3), false).is_ok());
    assert!(scheduler.add_operation(OperationId::new("check"), "d4".to_string(), info(1, 1), true).is_ok());
    scheduler.dispatch();
    scheduler
}

#[test]
fn new_operation_is_queued_and_owned_by_nobody() {
    let mut scheduler = SimpleScheduler::new(10);
    let mut details = info(3, 8);
    details.platform_properties.insert("os".to_string(), PlatformPropertyValue::Exact("linux".to_string()));
    assert!(scheduler.add_operation(OperationId::new("a"), "abc".to_string(), details, false).is_ok());
    assert_eq!(scheduler.operation_count(), 1);
    let stored = scheduler.get_operation(&OperationId::new("a")).unwrap();
    assert_eq!(stored.as_state().client_operation_id.0, "a");
    assert_eq!(stored.as_state().stage, ActionStage::Queued);
    assert!(stored.as_state().worker_id.is_none());
    assert_eq!(stored.as_state().action_digest, "abc");
    assert_eq!(stored.as_action_info().command_digest, "command");
    assert_eq!(stored.as_action_info().input_root_digest, "input");
    assert_eq!(stored.as_action_info().priority, 3);
    assert_eq!(stored.as_action_info().timeout, 30);
    assert_eq!(stored.as_action_info().load_timestamp, 4);
    assert_eq!(stored.as_action_info().insert_timestamp, 8);
    assert_eq!(stored.as_action_info().platform_properties.len(), 1);
    assert!(scheduler.get_operation(&OperationId::new("b")).is_none());
}

#[test]
fn second_operation_under_one_id_is_turned_away() {
    let mut scheduler = SimpleScheduler::new(10);
    assert!(scheduler.add_operation(OperationId::new("a"), "first".to_string(), info(1, 1), false).is_ok());
    let refused = scheduler
        .add_operation(OperationId::new("a"), "second".to_string(), info(9, 9), true)
        .unwrap_err();
    assert_eq!(refused.kind, ErrorKind::AlreadyExists);
    assert!(refused.context.is_empty());
    assert_eq!(scheduler.operation_count(), 1);
    let kept = scheduler.get_operation(&OperationId::new("a")).unwrap();
    assert_eq!(kept.state.action_digest, "first");
    assert_eq!(kept.state.stage, ActionStage::Queued);
    assert_eq!(kept.info.priority, 1);
}

#[test]
fn store_keeps_the_order_of_service() {
    let mut scheduler = SimpleScheduler::new(10);
    for (id, priority, at) in
        [("c", 1, 5u64), ("a", 7, 9), ("e", 1, 5), ("b", 7, 10), ("d", 1, 4), ("z", i32::MIN, 0), ("top", i32::MAX, u64::MAX)]
    {
        assert!(scheduler.add_operation(OperationId::new(id), "d".to_string(), info(priority, at), false).is_ok());
    }
    let all = scheduler.filter_operations(&OperationFilter::new()).unwrap();
    assert_eq!(names(&all), vec!["top", "a", "b", "d", "c", "e", "z"]);
    for place in 0..7 {
        let at_place = scheduler.operation_at(place).unwrap();
        assert_eq!(at_place.state.client_operation_id.0, names(&all)[place]);
    }
    assert!(scheduler.operation_at(7).is_none());
}

#[test]
fn cache_check_ends_in_the_queue() {
    let mut scheduler = SimpleScheduler::new(10);
    assert!(scheduler
        .add_worker(Worker::new(WorkerId::new("w"), PlatformProperties::new(), 0, 1))
        .is_ok());
    assert!(scheduler.add_operation(OperationId::new("a"), "d".to_string(), info(1, 1), true).is_ok());
    let stored = scheduler.get_operation(&OperationId::new("a")).unwrap();
    assert_eq!(stored.state.stage, ActionStage::CacheCheck);
    assert!(stored.state.worker_id.is_none());
    scheduler.dispatch();
    assert_eq!(
        scheduler.get_operation(&OperationId::new("a")).unwrap().state.stage,
        ActionStage::CacheCheck
    );

    assert!(scheduler.complete_cache_check(&OperationId::new("a")).is_ok());
    assert_eq!(
        scheduler.get_operation(&OperationId::new("a")).unwrap().state.stage,
        ActionStage::Queued
    );
    scheduler.dispatch();
    assert_eq!(
        scheduler.get_operation(&OperationId::new("a")).unwrap().state.stage,
        ActionStage::Executing
    );
}

#[test]
fn cache_check_can_end_only_once_and_only_where_it_began() {
    let mut scheduler = SimpleScheduler::new(10);
    let unknown = scheduler.complete_cache_check(&OperationId::new("a")).unwrap_err();
    assert_eq!(unknown.kind, ErrorKind::NotFound);
    assert!(scheduler.add_operation(OperationId::new("a"), "d".to_string(), info(1, 1), true).is_ok());
    assert!(scheduler.add_operation(OperationId::new("b"), "d".to_string(), info(1, 2), false).is_ok());
    assert!(scheduler.complete_cache_check(&OperationId::new("a")).is_ok());
    let twice = scheduler.complete_cache_check(&OperationId::new("a")).unwrap_err();
    assert_eq!(twice.kind, ErrorKind::NotFound);
    assert!(twice.context.is_empty());
    let queued = scheduler.complete_cache_check(&OperationId::new("b")).unwrap_err();
    assert_eq!(queued.kind, ErrorKind::NotFound);
    assert_eq!(
        scheduler.get_operation(&OperationId::new("b")).unwrap().state.stage,
        ActionStage::Queued
    );
}

#[test]
fn filter_without_conditions_hands_out_everything() {
    let scheduler = busy_scheduler();
    let all = scheduler.filter_operations(&OperationFilter::new()).unwrap();
    assert_eq!(names(&all), vec!["done", "run1", "run2", "wait", "check"]);
    let empty = SimpleScheduler::new(1);
    assert!(empty.filter_operations(&OperationFilter::new()).unwrap().is_empty());
}

#[test]
fn queued_filter_hands_out_only_what_waits() {
    let scheduler = busy_scheduler();
    let queued = scheduler.filter_operations(&stage_filter(OperationStageFlags::queued())).unwrap();
    assert_eq!(names(&queued), vec!["wait"]);
    for operation in &queued {
        assert!(operation.state.worker_id.is_none());
        assert!(!operation.state.stage.is_finished());
        assert_eq!(operation.state.stage, ActionStage::Queued);
    }
}

#[test]
fn each_stage_has_its_filter() {
    let scheduler = busy_scheduler();
    let executing = scheduler.filter_operations(&stage_filter(OperationStageFlags::executing())).unwrap();
    assert_eq!(names(&executing), vec!["run1", "run2"]);
    let completed = scheduler.filter_operations(&stage_filter(OperationStageFlags::completed())).unwrap();
    assert_eq!(names(&completed), vec!["done"]);
    let checking = scheduler.filter_operations(&stage_filter(OperationStageFlags::cache_check())).unwrap();
    assert_eq!(names(&checking), vec!["check"]);
    let mut two = OperationStageFlags::queued();
    two.completed = true;
    let mixed = scheduler.filter_operations(&stage_filter(two)).unwrap();
    assert_eq!(names(&mixed), vec!["done", "wait"]);
    let mut none = OperationStageFlags::queued();
    none.queued = false;
    assert!(scheduler.filter_operations(&stage_filter(none)).unwrap().is_empty());
}

#[test]
fn stage_flags_hold_what_they_name() {
    let any = OperationStageFlags::any();
    for stage in [
        ActionStage::CacheCheck,
        ActionStage::Queued,
        ActionStage::Executing,
        ActionStage::CompletedSuccess,
        ActionStage::CompletedFailure,
    ] {
        assert!(any.contains(stage));
    }
    let completed = OperationStageFlags::completed();
    assert!(completed.contains(ActionStage::CompletedSuccess));
    assert!(completed.contains(ActionStage::CompletedFailure));
    assert!(!completed.contains(ActionStage::Executing));
    assert!(!completed.contains(ActionStage::Queued));
    assert!(!completed.contains(ActionStage::CacheCheck));
    assert!(OperationStageFlags::queued().contains(ActionStage::Queued));
    assert!(!OperationStageFlags::queued().contains(ActionStage::Executing));
    assert!(OperationStageFlags::executing().contains(ActionStage::Executing));
    assert!(!OperationStageFlags::executing().contains(ActionStage::CompletedSuccess));
    assert!(OperationStageFlags::cache_check().contains(ActionStage::CacheCheck));
    assert!(!OperationStageFlags::cache_check().contains(ActionStage::Queued));
}

#[test]
fn worker_filter_hands_out_only_what_the_worker_owns() {
    let scheduler = busy_scheduler();
    let mut filter = OperationFilter::new();
    filter.worker_id = Some(WorkerId::new("w2"));
    let owned = scheduler.filter_operations(&filter).unwrap();
    assert_eq!(names(&owned), vec!["run2"]);
    assert_eq!(owned[0].state.worker_id.as_ref().map(|id| id.0.clone()), Some("w2".to_string()));
    let infos = scheduler.get_all_workers_info().unwrap();
    let of_w2: Vec<String> = infos[1].1.running_operations.iter().map(|id| id.0.clone()).collect();
    assert_eq!(of_w2, vec!["run2".to_string()]);

    filter.worker_id = Some(WorkerId::new("nobody"));
    assert!(scheduler.filter_operations(&filter).unwrap().is_empty());

    filter.worker_id = Some(WorkerId::new("w1"));
    filter.stages = OperationStageFlags::queued();
    assert!(scheduler.filter_operations(&filter).unwrap().is_empty());
}

#[test]
fn limit_cuts_the_answer_short() {
    let scheduler = busy_scheduler();
    let mut filter = OperationFilter::new();
    filter.limit = Some(2);
    assert_eq!(names(&scheduler.filter_operations(&filter).unwrap()), vec!["done", "run1"]);
    filter.limit = Some(0);
    assert!(scheduler.filter_operations(&filter).unwrap().is_empty());
    filter.limit = Some(5);
    assert_eq!(scheduler.filter_operations(&filter).unwrap().len(), 5);
    filter.limit = Some(usize::MAX);
    assert_eq!(scheduler.filter_operations(&filter).unwrap().len(), 5);
    filter.limit = Some(1);
    filter.stages = OperationStageFlags::executing();
    assert_eq!(names(&scheduler.filter_operations(&filter).unwrap()), vec!["run1"]);
}

#[test]
fn operations_can_be_drawn_one_by_one() {
    let scheduler = busy_scheduler();
    let filter = stage_filter(OperationStageFlags::executing());
    let first = scheduler.next_operation(&filter, 0);
    assert_eq!(first, Some(1));
    let second = scheduler.next_operation(&filter, 2);
    assert_eq!(second, Some(2));
    assert_eq!(scheduler.next_operation(&filter, 3), None);
    assert_eq!(scheduler.next_operation(&filter, 100), None);
    assert_eq!(scheduler.next_operation(&filter, 1), Some(1));

    let mut drawn = Vec::new();
    let mut cursor = 0;
    while let Some(place) = scheduler.next_operation(&OperationFilter::new(), cursor) {
        drawn.push(scheduler.operation_at(place).unwrap());
        cursor = place + 1;
    }
    assert_eq!(names(&drawn), names(&scheduler.filter_operations(&OperationFilter::new()).unwrap()));
}

#[test]
fn operation_tells_whether_a_filter_lets_it_through() {
    let operation = Operation::new(OperationId::new("a"), "d".to_string(), info(0, 0), ActionStage::Queued);
    assert!(operation.matches(&OperationFilter::new()));
    assert!(operation.matches(&stage_filter(OperationStageFlags::queued())));
    assert!(!operation.matches(&stage_filter(OperationStageFlags::executing())));
    let mut by_worker = OperationFilter::new();
    by_worker.worker_id = Some(WorkerId::new("w"));
    assert!(!operation.matches(&by_worker));
    let copy = operation.clone();
    assert_eq!(copy.state.client_operation_id.0, "a");
    assert_eq!(copy.state.stage, ActionStage::Queued);
    assert_eq!(copy.info.command_digest, "command");
}

#[test]
fn default_filter_asks_for_everything() {
    let filter = OperationFilter::new();
    assert_eq!(filter.stages, OperationStageFlags::any());
    assert!(filter.worker_id.is_none());
    assert!(filter.limit.is_none());
}
