//! What the scheduler shows to those who watch it: the lists of workers and
//! operations, the counts drawn from them, and the health of the process.
//! All of it is derived from snapshots; nothing is kept here.

use vstd::prelude::*;
use vstd::string::StringExecFns;
use crate::action_messages::{operation_ids_view, OperationId, WorkerId};
use crate::error::{strings_view, Error, ErrorKind, ErrorView};
use crate::operation_state_manager::{
    operations_view, ClientStateManager, Operation, OperationFilter, OperationFilterView,
    OperationStageFlags, OperationView,
};
use crate::platform_properties::{PlatformProperties, PropertyValueView};
use crate::scheduler_state::{filtered, lemma_unconditional_filter, unconditional};
use crate::worker::WorkerView;
use crate::worker_scheduler::{info_of, WorkerInfoView, WorkerScheduler};

verus! {

/// How many operations a query is given where it names no limit.
pub const DEFAULT_OPERATION_LIMIT: usize = 1000;

/// What is shown of a worker.
#[derive(Debug)]
pub struct WorkerInfo {
    pub id: String,
    pub platform_properties: PlatformProperties,
    pub last_update_timestamp: u64,
    pub is_paused: bool,
    pub is_draining: bool,
    pub can_accept_work: bool,
    pub running_operations: Vec<String>,
    pub connected_timestamp: u64,
    pub actions_completed: u64,
}

/// The mathematical value of a [`WorkerInfo`]: the worker's id, and what the
/// scheduler reports of the worker.
pub struct ShownWorker {
    pub id: Seq<char>,
    pub info: WorkerInfoView,
}

impl View for WorkerInfo {
    type V = ShownWorker;

    open spec fn view(&self) -> ShownWorker {
        ShownWorker {
            id: self.id@,
            info: WorkerInfoView {
                platform_properties: self.platform_properties@,
                last_update_timestamp: self.last_update_timestamp,
                is_paused: self.is_paused,
                is_draining: self.is_draining,
                can_accept_work: self.can_accept_work,
                running_operations: strings_view(self.running_operations@),
                connected_timestamp: self.connected_timestamp,
                actions_completed: self.actions_completed,
            },
        }
    }
}

/// What is shown of an operation.
#[derive(Debug)]
pub struct OperationInfo {
    pub client_operation_id: String,
    pub stage: String,
    pub worker_id: Option<String>,
    pub action_digest: String,
    pub command_digest: String,
    pub input_root_digest: String,
    pub priority: i32,
    pub timeout: u64,
    pub platform_properties: PlatformProperties,
    pub load_timestamp: u64,
    pub insert_timestamp: u64,
    pub is_finished: bool,
}

/// The mathematical value of an [`OperationInfo`].
pub struct ShownOperation {
    pub client_operation_id: Seq<char>,
    pub stage: Seq<char>,
    pub worker_id: Option<Seq<char>>,
    pub action_digest: Seq<char>,
    pub command_digest: Seq<char>,
    pub input_root_digest: Seq<char>,
    pub priority: i32,
    pub timeout: u64,
    pub platform_properties: Map<Seq<char>, PropertyValueView>,
    pub load_timestamp: u64,
    pub insert_timestamp: u64,
    pub is_finished: bool,
}

/// The characters of an optional string.
pub open spec fn optional_text(text: Option<String>) -> Option<Seq<char>> {
    match text {
        Some(text) => Some(text@),
        None => None,
    }
}

impl View for OperationInfo {
    type V = ShownOperation;

    open spec fn view(&self) -> ShownOperation {
        ShownOperation {
            client_operation_id: self.client_operation_id@,
            stage: self.stage@,
            worker_id: optional_text(self.worker_id),
            action_digest: self.action_digest@,
            command_digest: self.command_digest@,
            input_root_digest: self.input_root_digest@,
            priority: self.priority,
            timeout: self.timeout,
            platform_properties: self.platform_properties@,
            load_timestamp: self.load_timestamp,
            insert_timestamp: self.insert_timestamp,
            is_finished: self.is_finished,
        }
    }
}

/// What is shown of an operation that stands as `operation` does: its
/// stage by name, its owner if it has one, and whether it has ended.
pub open spec fn shown_operation(operation: OperationView) -> ShownOperation {
    ShownOperation {
        client_operation_id: operation.id,
        stage: operation.stage.stage_name(),
        worker_id: operation.worker_id,
        action_digest: operation.action_digest,
        command_digest: operation.info.command_digest,
        input_root_digest: operation.info.input_root_digest,
        priority: operation.info.priority,
        timeout: operation.info.timeout,
        platform_properties: operation.info.platform_properties,
        load_timestamp: operation.info.load_timestamp,
        insert_timestamp: operation.info.insert_timestamp,
        is_finished: operation.stage.finished(),
    }
}

/// The counts that sum up the scheduler.
#[derive(Clone, Copy, Debug, PartialEq, Eq, Structural)]
pub struct SchedulerStatus {
    pub total_workers: usize,
    pub active_workers: usize,
    pub paused_workers: usize,
    pub draining_workers: usize,
    pub total_operations: usize,
    pub queued_operations: usize,
    pub executing_operations: usize,
    pub completed_operations: usize,
    pub uptime_seconds: u64,
}

/// The health of the process.
#[derive(Debug)]
pub struct SystemHealth {
    pub status: String,
    pub timestamp: u64,
    pub uptime_seconds: u64,
}

/// What a query for operations asks for.
#[derive(Debug)]
pub struct OperationQuery {
    pub stage: Option<String>,
    pub worker_id: Option<String>,
    pub limit: Option<usize>,
}

/// The counts of workers in a report of the scheduler's load.
#[derive(Clone, Copy, Debug, PartialEq, Eq, Structural)]
pub struct WorkerMetrics {
    pub total: usize,
    pub active: usize,
    pub paused: usize,
    pub draining: usize,
}

/// The counts of operations in a report of the scheduler's load.
#[derive(Clone, Copy, Debug, PartialEq, Eq, Structural)]
pub struct OperationMetrics {
    pub total: usize,
    pub queued: usize,
    pub executing: usize,
    pub completed: usize,
}

/// A report of the scheduler's load.
#[derive(Clone, Copy, Debug, PartialEq, Eq, Structural)]
pub struct SchedulerMetrics {
    pub workers: WorkerMetrics,
    pub operations: OperationMetrics,
    pub uptime_seconds: u64,
}

/// The stages that a query names: one stage under its name, every stage
/// under any other word.
pub open spec fn stages_named(name: Seq<char>) -> OperationStageFlags {
    if name == "queued"@ {
        OperationStageFlags { queued: true, ..OperationStageFlags::none() }
    } else if name == "executing"@ {
        OperationStageFlags { executing: true, ..OperationStageFlags::none() }
    } else if name == "completed"@ {
        OperationStageFlags { completed: true, ..OperationStageFlags::none() }
    } else if name == "cache_check"@ {
        OperationStageFlags { cache_check: true, ..OperationStageFlags::none() }
    } else {
        OperationStageFlags::all()
    }
}

/// The filter that answers a query: the stages that the query names, or
/// all; the worker that it names, if any; and its limit, or
/// [`DEFAULT_OPERATION_LIMIT`]. Where there is no query every stage and
/// every worker count, up to the same limit.
pub open spec fn filter_for(
    stage: Option<Seq<char>>,
    worker_id: Option<Seq<char>>,
    limit: Option<usize>,
) -> OperationFilterView {
    OperationFilterView {
        stages: match stage {
            Some(name) => stages_named(name),
            None => OperationStageFlags::all(),
        },
        worker_id,
        limit: match limit {
            Some(most) => Some(most),
            None => Some(DEFAULT_OPERATION_LIMIT),
        },
    }
}

/// Whether a text is the given word.
fn is_word(text: &String, word: &str) -> (answer: bool)
    ensures
        answer == (text@ == word@),
{
    *text == String::from_str(word)
}

/// The stages that a query names.
pub fn parse_stages(name: &String) -> (stages: OperationStageFlags)
    ensures
        stages == stages_named(name@),
{
    if is_word(name, "queued") {
        OperationStageFlags::queued()
    } else if is_word(name, "executing") {
        OperationStageFlags::executing()
    } else if is_word(name, "completed") {
        OperationStageFlags::completed()
    } else if is_word(name, "cache_check") {
        OperationStageFlags::cache_check()
    } else {
        OperationStageFlags::any()
    }
}

/// The filter that answers a query.
pub fn operation_filter(query: &Option<OperationQuery>) -> (filter: OperationFilter)
    ensures
        filter@ == match query {
            Some(query) => filter_for(
                optional_text(query.stage),
                optional_text(query.worker_id),
                query.limit,
            ),
            None => filter_for(None, None, None),
        },
{
    let mut filter = OperationFilter::new();
    filter.limit = Some(DEFAULT_OPERATION_LIMIT);
    match query {
        Some(query) => {
            match &query.stage {
                Some(name) => {
                    filter.stages = parse_stages(name);
                },
                None => {},
            }
            match &query.worker_id {
                Some(id) => {
                    filter.worker_id = Some(WorkerId(id.clone()));
                },
                None => {},
            }
            match query.limit {
                Some(most) => {
                    filter.limit = Some(most);
                },
                None => {},
            }
        },
        None => {},
    }
    filter
}

/// The characters of each operation id of a list, as strings.
fn id_strings(ids: &Vec<OperationId>) -> (texts: Vec<String>)
    ensures
        strings_view(texts@) == operation_ids_view(ids@),
{
    let mut texts: Vec<String> = Vec::new();
    let mut i: usize = 0;
    while i < ids.len()
        invariant
            i <= ids.len(),
            texts@.len() == i,
            forall|j: int| 0 <= j < i ==> (#[trigger] texts@[j])@ == ids@[j]@,
        decreases ids.len() - i,
    {
        texts.push(ids[i].0.clone());
        i = i + 1;
    }
    assert(strings_view(texts@) =~= operation_ids_view(ids@));
    texts
}

/// What is shown of a worker: its id, and what the scheduler reports of
/// it.
pub fn shown_worker(id: &WorkerId, info: &crate::worker_scheduler::WorkerInfo) -> (shown: WorkerInfo)
    requires
        info.platform_properties.wf(),
    ensures
        shown@ == (ShownWorker { id: id@, info: info@ }),
        shown.platform_properties.wf(),
{
    WorkerInfo {
        id: id.0.clone(),
        platform_properties: info.platform_properties.clone(),
        last_update_timestamp: info.last_update_timestamp,
        is_paused: info.is_paused,
        is_draining: info.is_draining,
        can_accept_work: info.can_accept_work,
        running_operations: id_strings(&info.running_operations),
        connected_timestamp: info.connected_timestamp,
        actions_completed: info.actions_completed,
    }
}

/// What is shown of each worker of a snapshot, in the snapshot's order.
pub fn shown_workers(infos: &Vec<(WorkerId, crate::worker_scheduler::WorkerInfo)>) -> (shown: Vec<
    WorkerInfo,
>)
    requires
        forall|i: int| 0 <= i < infos@.len() ==> (#[trigger] infos@[i]).1.platform_properties.wf(),
    ensures
        shown@.len() == infos@.len(),
        forall|i: int|
            0 <= i < infos@.len() ==> (#[trigger] shown@[i])@ == (ShownWorker {
                id: infos@[i].0@,
                info: infos@[i].1@,
            }),
{
    let mut shown: Vec<WorkerInfo> = Vec::new();
    let mut i: usize = 0;
    while i < infos.len()
        invariant
            i <= infos.len(),
            shown@.len() == i,
            forall|j: int| 0 <= j < infos@.len() ==> (#[trigger] infos@[j]).1.platform_properties.wf(),
            forall|j: int|
                0 <= j < i ==> (#[trigger] shown@[j])@ == (ShownWorker {
                    id: infos@[j].0@,
                    info: infos@[j].1@,
                }),
        decreases infos.len() - i,
    {
        let one = shown_worker(&infos[i].0, &infos[i].1);
        shown.push(one);
        i = i + 1;
    }
    shown
}

/// What is shown of an operation.
pub fn shown(operation: &Operation) -> (info: OperationInfo)
    requires
        operation.wf(),
    ensures
        info@ == shown_operation(operation@),
{
    let worker_id = match &operation.state.worker_id {
        Some(id) => Some(id.0.clone()),
        None => None,
    };
    OperationInfo {
        client_operation_id: operation.state.client_operation_id.0.clone(),
        stage: operation.state.stage.name(),
        worker_id,
        action_digest: operation.state.action_digest.clone(),
        command_digest: operation.info.command_digest.clone(),
        input_root_digest: operation.info.input_root_digest.clone(),
        priority: operation.info.priority,
        timeout: operation.info.timeout,
        platform_properties: operation.info.platform_properties.clone(),
        load_timestamp: operation.info.load_timestamp,
        insert_timestamp: operation.info.insert_timestamp,
        is_finished: operation.state.stage.is_finished(),
    }
}

/// What is shown of the first operations of a list, in the list's order:
/// of all of them, or of as many as the limit allows.
pub fn shown_operations(operations: &Vec<Operation>, limit: usize) -> (infos: Vec<OperationInfo>)
    requires
        forall|i: int| 0 <= i < operations@.len() ==> (#[trigger] operations@[i]).wf(),
    ensures
        infos@.len() == if operations@.len() <= limit {
            operations@.len()
        } else {
            limit as nat
        },
        forall|i: int|
            0 <= i < infos@.len() ==> (#[trigger] infos@[i])@ == shown_operation(operations@[i]@),
{
    let mut infos: Vec<OperationInfo> = Vec::new();
    let mut i: usize = 0;
    while i < operations.len() && i < limit
        invariant
            i <= operations.len(),
            i <= limit,
            infos@.len() == i,
            forall|j: int| 0 <= j < operations@.len() ==> (#[trigger] operations@[j]).wf(),
            forall|j: int|
                0 <= j < i ==> (#[trigger] infos@[j])@ == shown_operation(operations@[j]@),
        decreases operations.len() - i,
    {
        let one = shown(&operations[i]);
        infos.push(one);
        i = i + 1;
    }
    infos
}

/// The test for a worker that takes new work.
pub open spec fn accepting() -> spec_fn(WorkerInfo) -> bool {
    |worker: WorkerInfo| worker.can_accept_work
}

/// The test for a worker that is paused.
pub open spec fn paused() -> spec_fn(WorkerInfo) -> bool {
    |worker: WorkerInfo| worker.is_paused
}

/// The test for a worker that is draining.
pub open spec fn draining() -> spec_fn(WorkerInfo) -> bool {
    |worker: WorkerInfo| worker.is_draining
}

/// The test for an operation that waits: it has not ended and has no
/// owner.
pub open spec fn waiting() -> spec_fn(OperationInfo) -> bool {
    |operation: OperationInfo| !operation.is_finished && operation.worker_id is None
}

/// The test for an operation that runs: it has not ended and has an owner.
pub open spec fn running() -> spec_fn(OperationInfo) -> bool {
    |operation: OperationInfo| !operation.is_finished && operation.worker_id is Some
}

/// The test for an operation that has ended.
pub open spec fn ended() -> spec_fn(OperationInfo) -> bool {
    |operation: OperationInfo| operation.is_finished
}

/// The seconds from `start_time` to `now`; none where `now` lies before.
pub open spec fn seconds_since(start_time: u64, now: u64) -> u64 {
    if now >= start_time {
        (now - start_time) as u64
    } else {
        0
    }
}

/// The seconds from `start_time` to `now`.
pub fn uptime(start_time: u64, now: u64) -> (seconds: u64)
    ensures
        seconds == seconds_since(start_time, now),
{
    if now >= start_time {
        now - start_time
    } else {
        0
    }
}

/// The counts that sum up the scheduler, drawn from the two lists: of the
/// workers how many there are, how many take new work, how many are paused
/// and how many drain; of the operations how many there are, how many wait,
/// how many run and how many have ended.
pub fn scheduler_status(
    workers: &Vec<WorkerInfo>,
    operations: &Vec<OperationInfo>,
    start_time: u64,
    now: u64,
) -> (status: SchedulerStatus)
    ensures
        status.total_workers == workers@.len(),
        status.active_workers == workers@.filter(accepting()).len(),
        status.paused_workers == workers@.filter(paused()).len(),
        status.draining_workers == workers@.filter(draining()).len(),
        status.total_operations == operations@.len(),
        status.queued_operations == operations@.filter(waiting()).len(),
        status.executing_operations == operations@.filter(running()).len(),
        status.completed_operations == operations@.filter(ended()).len(),
        status.uptime_seconds == seconds_since(start_time, now),
{
    let mut active: usize = 0;
    let mut held: usize = 0;
    let mut leaving: usize = 0;
    let mut i: usize = 0;
    proof {
        assert(workers@.take(0) =~= Seq::<WorkerInfo>::empty());
    }
    while i < workers.len()
        invariant
            i <= workers.len(),
            active <= i,
            held <= i,
            leaving <= i,
            active == workers@.take(i as int).filter(accepting()).len(),
            held == workers@.take(i as int).filter(paused()).len(),
            leaving == workers@.take(i as int).filter(draining()).len(),
        decreases workers.len() - i,
    {
        proof {
            let seen = workers@.take(i as int);
            assert(workers@.take(i + 1) =~= seen.push(workers@[i as int]));
            seen.lemma_filter_push(workers@[i as int], accepting());
            seen.lemma_filter_push(workers@[i as int], paused());
            seen.lemma_filter_push(workers@[i as int], draining());
        }
        if workers[i].can_accept_work {
            active = active + 1;
        }
        if workers[i].is_paused {
            held = held + 1;
        }
        if workers[i].is_draining {
            leaving = leaving + 1;
        }
        i = i + 1;
    }
    let mut queued: usize = 0;
    let mut executing: usize = 0;
    let mut completed: usize = 0;
    let mut k: usize = 0;
    proof {
        assert(workers@.take(i as int) =~= workers@);
        assert(operations@.take(0) =~= Seq::<OperationInfo>::empty());
    }
    while k < operations.len()
        invariant
            k <= operations.len(),
            queued <= k,
            executing <= k,
            completed <= k,
            queued == operations@.take(k as int).filter(waiting()).len(),
            executing == operations@.take(k as int).filter(running()).len(),
            completed == operations@.take(k as int).filter(ended()).len(),
        decreases operations.len() - k,
    {
        proof {
            let seen = operations@.take(k as int);
            assert(operations@.take(k + 1) =~= seen.push(operations@[k as int]));
            seen.lemma_filter_push(operations@[k as int], waiting());
            seen.lemma_filter_push(operations@[k as int], running());
            seen.lemma_filter_push(operations@[k as int], ended());
        }
        if operations[k].is_finished {
            completed = completed + 1;
        } else if operations[k].worker_id.is_none() {
            queued = queued + 1;
        } else {
            executing = executing + 1;
        }
        k = k + 1;
    }
    proof {
        assert(operations@.take(k as int) =~= operations@);
    }
    SchedulerStatus {
        total_workers: workers.len(),
        active_workers: active,
        paused_workers: held,
        draining_workers: leaving,
        total_operations: operations.len(),
        queued_operations: queued,
        executing_operations: executing,
        completed_operations: completed,
        uptime_seconds: uptime(start_time, now),
    }
}

/// The report of the scheduler's load: the counts of a status, by group.
pub fn scheduler_metrics(status: &SchedulerStatus) -> (metrics: SchedulerMetrics)
    ensures
        metrics == (SchedulerMetrics {
            workers: WorkerMetrics {
                total: status.total_workers,
                active: status.active_workers,
                paused: status.paused_workers,
                draining: status.draining_workers,
            },
            operations: OperationMetrics {
                total: status.total_operations,
                queued: status.queued_operations,
                executing: status.executing_operations,
                completed: status.completed_operations,
            },
            uptime_seconds: status.uptime_seconds,
        }),
{
    SchedulerMetrics {
        workers: WorkerMetrics {
            total: status.total_workers,
            active: status.active_workers,
            paused: status.paused_workers,
            draining: status.draining_workers,
        },
        operations: OperationMetrics {
            total: status.total_operations,
            queued: status.queued_operations,
            executing: status.executing_operations,
            completed: status.completed_operations,
        },
        uptime_seconds: status.uptime_seconds,
    }
}

/// The health of a process that started at `start_time`, as seen at `now`.
pub fn system_health(start_time: u64, now: u64) -> (health: SystemHealth)
    ensures
        health.status@ == "healthy"@,
        health.timestamp == now,
        health.uptime_seconds == seconds_since(start_time, now),
{
    SystemHealth {
        status: String::from_str("healthy"),
        timestamp: now,
        uptime_seconds: uptime(start_time, now),
    }
}

/// What is said of something that was looked for under an id and not
/// found: what it is, the id, and that it was not found.
pub open spec fn not_found_text(what: Seq<char>, id: Seq<char>) -> Seq<char> {
    what + " "@ + id + " not found"@
}

/// The error for something that was looked for under an id and not found.
pub open spec fn not_found(what: Seq<char>, id: Seq<char>) -> ErrorView {
    ErrorView { kind: ErrorKind::NotFound, context: seq![not_found_text(what, id)] }
}

/// The error for something that was looked for under an id and not found.
fn not_found_error(what: &str, id: &str) -> (error: Error)
    ensures
        error@ == not_found(what@, id@),
{
    let mut text = String::from_str(what);
    text.append(" ");
    text.append(id);
    text.append(" not found");
    let error = Error::new(ErrorKind::NotFound).err_tip(text.as_str());
    assert(error@.context =~= seq![not_found_text(what@, id@)]);
    error
}

/// The first worker of a list that is shown under the id. Where there is
/// none the answer is the error that says so, of kind
/// [`ErrorKind::NotFound`].
pub fn find_worker(workers: Vec<WorkerInfo>, worker_id: &str) -> (result: Result<WorkerInfo, Error>)
    ensures
        match result {
            Ok(worker) => worker.id@ == worker_id@ && exists|i: int|
                #![trigger workers@[i]]
                0 <= i < workers@.len() && workers@[i] == worker && forall|j: int|
                    0 <= j < i ==> (#[trigger] workers@[j]).id@ != worker_id@,
            Err(error) => error@ == not_found("Worker"@, worker_id@) && forall|j: int|
                0 <= j < workers@.len() ==> (#[trigger] workers@[j]).id@ != worker_id@,
        },
{
    let mut list = workers;
    let wanted = String::from_str(worker_id);
    let mut i: usize = 0;
    while i < list.len()
        invariant
            i <= list.len(),
            list@ == workers@,
            wanted@ == worker_id@,
            forall|j: int| 0 <= j < i ==> (#[trigger] workers@[j]).id@ != worker_id@,
        decreases list.len() - i,
    {
        if list[i].id == wanted {
            let worker = list.remove(i);
            assert(workers@[i as int] == worker);
            return Ok(worker);
        }
        i = i + 1;
    }
    Err(not_found_error("Worker", worker_id))
}

/// The first operation of a list that is shown under the id. Where there
/// is none the answer is the error that says so, of kind
/// [`ErrorKind::NotFound`].
pub fn find_operation(operations: Vec<OperationInfo>, operation_id: &str) -> (result: Result<
    OperationInfo,
    Error,
>)
    ensures
        match result {
            Ok(operation) => operation.client_operation_id@ == operation_id@ && exists|i: int|
                #![trigger operations@[i]]
                0 <= i < operations@.len() && operations@[i] == operation && forall|j: int|
                    0 <= j < i ==> (#[trigger] operations@[j]).client_operation_id@ != operation_id@,
            Err(error) => error@ == not_found("Operation"@, operation_id@) && forall|j: int|
                0 <= j < operations@.len() ==> (#[trigger] operations@[j]).client_operation_id@
                    != operation_id@,
        },
{
    let mut list = operations;
    let wanted = String::from_str(operation_id);
    let mut i: usize = 0;
    while i < list.len()
        invariant
            i <= list.len(),
            list@ == operations@,
            wanted@ == operation_id@,
            forall|j: int|
                0 <= j < i ==> (#[trigger] operations@[j]).client_operation_id@ != operation_id@,
        decreases list.len() - i,
    {
        if list[i].client_operation_id == wanted {
            let operation = list.remove(i);
            assert(operations@[i as int] == operation);
            return Ok(operation);
        }
        i = i + 1;
    }
    Err(not_found_error("Operation", operation_id))
}

/// The status with which an error is answered: 404 for what was not found,
/// 500 for everything else.
pub open spec fn status_for(kind: ErrorKind) -> u16 {
    if kind == ErrorKind::NotFound {
        404
    } else {
        500
    }
}

/// The status and the text with which an error is answered.
pub fn error_response(error: &Error) -> (response: (u16, String))
    ensures
        response.0 == status_for(error@.kind),
        response.1@ == crate::error::description(
            crate::error::kind_name(error@.kind),
            error@.context,
        ),
{
    let status: u16 = if error.is_not_found() {
        404
    } else {
        500
    };
    (status, error.describe())
}

/// Two lists of one length, with a test for each that agree place by place,
/// hold equally many entries that pass.
pub proof fn lemma_same_count<A, B>(
    left: Seq<A>,
    test: spec_fn(A) -> bool,
    right: Seq<B>,
    other: spec_fn(B) -> bool,
)
    requires
        left.len() == right.len(),
        forall|i: int| 0 <= i < left.len() ==> test(#[trigger] left[i]) == other(right[i]),
    ensures
        left.filter(test).len() == right.filter(other).len(),
    decreases left.len(),
{
    if left.len() == 0 {
        assert(left.filter(test) =~= Seq::<A>::empty());
        assert(right.filter(other) =~= Seq::<B>::empty());
    } else {
        let shorter = left.drop_last();
        let fewer = right.drop_last();
        assert forall|i: int| 0 <= i < shorter.len() implies test(#[trigger] shorter[i]) == other(
            fewer[i],
        ) by {
            assert(shorter[i] == left[i]);
        }
        lemma_same_count(shorter, test, fewer, other);
        assert(left =~= shorter.push(left.last()));
        assert(right =~= fewer.push(right.last()));
        shorter.lemma_filter_push(left.last(), test);
        fewer.lemma_filter_push(right.last(), other);
        assert(test(left[left.len() - 1]) == other(right[left.len() - 1]));
    }
}

/// Whether a list shows the workers of a registry, in their order.
pub open spec fn shows_workers(shown: Seq<WorkerInfo>, workers: Seq<WorkerView>) -> bool {
    &&& shown.len() == workers.len()
    &&& forall|i: int|
        0 <= i < shown.len() ==> (#[trigger] shown[i])@ == (ShownWorker {
            id: workers[i].id,
            info: info_of(workers[i]),
        })
}

/// Whether a list shows the operations of another, in their order.
pub open spec fn shows_operations(shown: Seq<OperationInfo>, operations: Seq<OperationView>) -> bool {
    &&& shown.len() == operations.len()
    &&& forall|i: int|
        0 <= i < shown.len() ==> (#[trigger] shown[i])@ == shown_operation(operations[i])
}

/// The test for a registered worker that takes new work.
pub open spec fn worker_accepts() -> spec_fn(WorkerView) -> bool {
    |worker: WorkerView| worker.can_accept_work()
}

/// The test for a registered worker that is paused.
pub open spec fn worker_paused() -> spec_fn(WorkerView) -> bool {
    |worker: WorkerView| worker.is_paused
}

/// The test for a registered worker that is draining.
pub open spec fn worker_draining() -> spec_fn(WorkerView) -> bool {
    |worker: WorkerView| worker.is_draining
}

/// The test for an operation of the store that waits.
pub open spec fn operation_waits() -> spec_fn(OperationView) -> bool {
    |operation: OperationView| !operation.stage.finished() && operation.worker_id is None
}

/// The test for an operation of the store that runs.
pub open spec fn operation_runs() -> spec_fn(OperationView) -> bool {
    |operation: OperationView| !operation.stage.finished() && operation.worker_id is Some
}

/// The test for an operation of the store that has ended.
pub open spec fn operation_ended() -> spec_fn(OperationView) -> bool {
    |operation: OperationView| operation.stage.finished()
}

/// Whether a status sums up the given workers and operations for a process
/// that started at `start_time`, as seen at `now`.
pub open spec fn sums_up(
    status: SchedulerStatus,
    workers: Seq<WorkerView>,
    operations: Seq<OperationView>,
    start_time: u64,
    now: u64,
) -> bool {
    &&& status.total_workers == workers.len()
    &&& status.active_workers == workers.filter(worker_accepts()).len()
    &&& status.paused_workers == workers.filter(worker_paused()).len()
    &&& status.draining_workers == workers.filter(worker_draining()).len()
    &&& status.total_operations == operations.len()
    &&& status.queued_operations == operations.filter(operation_waits()).len()
    &&& status.executing_operations == operations.filter(operation_runs()).len()
    &&& status.completed_operations == operations.filter(operation_ended()).len()
    &&& status.uptime_seconds == seconds_since(start_time, now)
}

/// Whether an error is a failure of something that the scheduler depends
/// on, to which `tip` was added last as context.
pub open spec fn failed_with_tip(error: ErrorView, tip: Seq<char>) -> bool {
    error.kind == ErrorKind::CollaboratorFailure && error.context.len() > 0 && error.context.last()
        == tip
}

/// What is shown for a snapshot of the workers: the workers where there is
/// a snapshot, and where there is none its error with the context that
/// says what failed.
pub fn workers_from(
    snapshot: Result<Vec<(WorkerId, crate::worker_scheduler::WorkerInfo)>, Error>,
) -> (result: Result<Vec<WorkerInfo>, Error>)
    requires
        snapshot matches Ok(infos) ==> forall|i: int|
            0 <= i < infos@.len() ==> (#[trigger] infos@[i]).1.platform_properties.wf(),
    ensures
        match snapshot {
            Ok(infos) => result matches Ok(shown) && shown@.len() == infos@.len() && forall|i: int|
                0 <= i < infos@.len() ==> (#[trigger] shown@[i])@ == (ShownWorker {
                    id: infos@[i].0@,
                    info: infos@[i].1@,
                }),
            Err(error) => result matches Err(tipped) && tipped@.kind == error@.kind
                && tipped@.context == error@.context.push(workers_tip()),
        },
{
    match snapshot {
        Ok(infos) => Ok(shown_workers(&infos)),
        Err(error) => Err(error.err_tip("Failed to get workers info")),
    }
}

/// What is shown for what a filter handed out: the operations, up to the
/// limit, where something was handed out, and where the query failed its
/// error with the context that says what failed.
pub fn operations_from(found: Result<Vec<Operation>, Error>, limit: usize) -> (result: Result<
    Vec<OperationInfo>,
    Error,
>)
    requires
        found matches Ok(operations) ==> forall|i: int|
            0 <= i < operations@.len() ==> (#[trigger] operations@[i]).wf(),
    ensures
        match found {
            Ok(operations) => result matches Ok(infos) && infos@.len() == (if operations@.len()
                <= limit {
                operations@.len()
            } else {
                limit as nat
            }) && forall|i: int|
                0 <= i < infos@.len() ==> (#[trigger] infos@[i])@ == shown_operation(
                    operations@[i]@,
                ),
            Err(error) => result matches Err(tipped) && tipped@.kind == error@.kind
                && tipped@.context == error@.context.push(operations_tip()),
        },
{
    match found {
        Ok(operations) => Ok(shown_operations(&operations, limit)),
        Err(error) => Err(error.err_tip("Failed to filter operations")),
    }
}

/// Whether `tip` is the piece of context that was added last.
pub open spec fn tipped(context: Seq<Seq<char>>, tip: Seq<char>) -> bool {
    context.len() > 0 && context.last() == tip
}

/// Whether a response answers the failure of something that the scheduler
/// depends on: status 500, with the description of an error of kind
/// [`ErrorKind::CollaboratorFailure`] to which `tip` was added last.
pub open spec fn server_failure(status: u16, text: Seq<char>, tip: Seq<char>) -> bool {
    &&& status == 500
    &&& exists|context: Seq<Seq<char>>| #[trigger]
        tipped(context, tip) && text == crate::error::description(
            crate::error::kind_name(ErrorKind::CollaboratorFailure),
            context,
        )
}

/// What is said when the workers cannot be had.
pub open spec fn workers_tip() -> Seq<char> {
    "Failed to get workers info"@
}

/// What is said when the operations cannot be had.
pub open spec fn operations_tip() -> Seq<char> {
    "Failed to filter operations"@
}

/// The response to a failure of something that the scheduler depends on.
fn failure_response(error: &Error) -> (response: (u16, String))
    requires
        error@.kind == ErrorKind::CollaboratorFailure,
        error@.context.len() > 0,
    ensures
        server_failure(response.0, response.1@, error@.context.last()),
{
    let response = error_response(error);
    assert(tipped(error@.context, error@.context.last()));
    response
}

/// The text with which a miss is answered.
pub open spec fn not_found_answer(what: Seq<char>, id: Seq<char>) -> Seq<char> {
    crate::error::description(
        crate::error::kind_name(ErrorKind::NotFound),
        seq![not_found_text(what, id)],
    )
}

/// The view onto a scheduler for those who watch it. It keeps nothing but
/// the time at which the process started: every answer is drawn from the
/// scheduler and the store as they stand when asked.
pub struct MonitoringServer {
    start_time: u64,
}

impl MonitoringServer {
    /// The time at which the process started, in seconds.
    pub closed spec fn started(&self) -> u64 {
        self.start_time
    }

    /// A view for a process that started at `start_time`.
    pub fn new(start_time: u64) -> (server: MonitoringServer)
        ensures
            server.started() == start_time,
    {
        MonitoringServer { start_time }
    }

    /// The time at which the process started, in seconds.
    pub fn start_time(&self) -> (start_time: u64)
        ensures
            start_time == self.started(),
    {
        self.start_time
    }

    /// The registered workers, in the order of registration.
    pub fn get_workers_internal<S: WorkerScheduler>(&self, scheduler: &S) -> (result: Result<
        Vec<WorkerInfo>,
        Error,
    >)
        requires
            scheduler.inv(),
        ensures
            match result {
                Ok(shown) => shows_workers(shown@, scheduler.state().workers),
                Err(error) => failed_with_tip(error@, workers_tip()),
            },
    {
        workers_from(scheduler.get_all_workers_info())
    }

    /// The operations that a query asks for, in the order in which they are
    /// served: those of the stages and of the worker that the query names,
    /// and no more than its limit, or [`DEFAULT_OPERATION_LIMIT`], allows.
    pub fn get_operations_internal<C: ClientStateManager>(
        &self,
        manager: &C,
        query: &Option<OperationQuery>,
    ) -> (result: Result<Vec<OperationInfo>, Error>)
        requires
            manager.valid(),
        ensures
            match result {
                Ok(shown) => shows_operations(
                    shown@,
                    filtered(
                        manager.operations(),
                        match query {
                            Some(query) => filter_for(
                                optional_text(query.stage),
                                optional_text(query.worker_id),
                                query.limit,
                            ),
                            None => filter_for(None, None, None),
                        },
                    ),
                ),
                Err(error) => failed_with_tip(error@, operations_tip()),
            },
    {
        let filter = operation_filter(query);
        let limit = match filter.limit {
            Some(most) => most,
            None => DEFAULT_OPERATION_LIMIT,
        };
        let found = manager.filter_operations(&filter);
        let ghost handed = found;
        proof {
            if handed is Ok {
                let operations = handed->Ok_0;
                assert(operations_view(operations@).len() == operations@.len());
                assert(filtered(manager.operations(), filter@).len() <= limit);
            }
        }
        let result = operations_from(found, limit);
        proof {
            if result is Ok {
                let shown = result->Ok_0;
                let operations = handed->Ok_0;
                assert forall|i: int| 0 <= i < shown@.len() implies (#[trigger] shown@[i])@
                    == shown_operation(filtered(manager.operations(), filter@)[i]) by {
                    assert(operations_view(operations@)[i] == operations@[i]@);
                }
            }
        }
        result
    }

    /// Every operation of the store, in the order in which they are
    /// served.
    pub fn get_all_operations_internal<C: ClientStateManager>(&self, manager: &C) -> (result: Result<
        Vec<OperationInfo>,
        Error,
    >)
        requires
            manager.valid(),
        ensures
            match result {
                Ok(shown) => shows_operations(shown@, manager.operations()),
                Err(error) => failed_with_tip(error@, operations_tip()),
            },
    {
        let filter = OperationFilter::new();
        assert(filter@ == unconditional());
        let found = manager.filter_operations(&filter);
        let ghost handed = found;
        proof {
            lemma_unconditional_filter(manager.operations());
            if handed is Ok {
                let operations = handed->Ok_0;
                assert(operations_view(operations@) == manager.operations());
                assert(operations_view(operations@).len() == operations@.len());
            }
        }
        let limit: usize = match &found {
            Ok(operations) => operations.len(),
            Err(_) => 0,
        };
        let result = operations_from(found, limit);
        proof {
            if handed is Ok {
                let shown = result->Ok_0;
                let operations = handed->Ok_0;
                assert(shown@.len() == operations@.len());
                assert forall|i: int| 0 <= i < shown@.len() implies (#[trigger] shown@[i])@
                    == shown_operation(manager.operations()[i]) by {
                    assert(operations_view(operations@)[i] == operations@[i]@);
                }
            }
        }
        result
    }

    /// The counts that sum up the scheduler: of the registered workers, and
    /// of every operation of the store.
    pub fn get_scheduler_status_internal<S: WorkerScheduler, C: ClientStateManager>(
        &self,
        scheduler: &S,
        manager: &C,
        now: u64,
    ) -> (result: Result<SchedulerStatus, Error>)
        requires
            scheduler.inv(),
            manager.valid(),
        ensures
            match result {
                Ok(status) => sums_up(
                    status,
                    scheduler.state().workers,
                    manager.operations(),
                    self.started(),
                    now,
                ),
                Err(error) => failed_with_tip(error@, workers_tip()) || failed_with_tip(
                    error@,
                    operations_tip(),
                ),
            },
    {
        let workers = match self.get_workers_internal(scheduler) {
            Ok(workers) => workers,
            Err(error) => {
                return Err(error);
            },
        };
        let operations = match self.get_all_operations_internal(manager) {
            Ok(operations) => operations,
            Err(error) => {
                return Err(error);
            },
        };
        let status = scheduler_status(&workers, &operations, self.start_time, now);
        proof {
            let registered = scheduler.state().workers;
            let counted = manager.operations();
            assert forall|i: int| 0 <= i < workers@.len() implies accepting()(
                #[trigger] workers@[i],
            ) == worker_accepts()(registered[i]) && paused()(workers@[i]) == worker_paused()(
                registered[i],
            ) && draining()(workers@[i]) == worker_draining()(registered[i]) by {
                assert(workers@[i]@.info == info_of(registered[i]));
            }
            lemma_same_count(workers@, accepting(), registered, worker_accepts());
            lemma_same_count(workers@, paused(), registered, worker_paused());
            lemma_same_count(workers@, draining(), registered, worker_draining());
            assert forall|i: int| 0 <= i < operations@.len() implies waiting()(
                #[trigger] operations@[i],
            ) == operation_waits()(counted[i]) && running()(operations@[i]) == operation_runs()(
                counted[i],
            ) && ended()(operations@[i]) == operation_ended()(counted[i]) by {
                assert(operations@[i]@ == shown_operation(counted[i]));
            }
            lemma_same_count(operations@, waiting(), counted, operation_waits());
            lemma_same_count(operations@, running(), counted, operation_runs());
            lemma_same_count(operations@, ended(), counted, operation_ended());
        }
        Ok(status)
    }

    /// The registered workers; where they cannot be had, status 500 with the
    /// text of the error.
    pub fn get_workers<S: WorkerScheduler>(&self, scheduler: &S) -> (result: Result<
        Vec<WorkerInfo>,
        (u16, String),
    >)
        requires
            scheduler.inv(),
        ensures
            match result {
                Ok(shown) => shows_workers(shown@, scheduler.state().workers),
                Err(response) => server_failure(response.0, response.1@, workers_tip()),
            },
    {
        match self.get_workers_internal(scheduler) {
            Ok(workers) => Ok(workers),
            Err(error) => Err(failure_response(&error)),
        }
    }

    /// The worker that is registered under the id. Where there is none the
    /// answer is status 404 with the text that says so; where the workers
    /// cannot be had, status 500 with the text of the error.
    pub fn get_worker<S: WorkerScheduler>(&self, scheduler: &S, worker_id: &str) -> (result: Result<
        WorkerInfo,
        (u16, String),
    >)
        requires
            scheduler.inv(),
        ensures
            match result {
                Ok(worker) => scheduler.state().has_worker(worker_id@) && worker@ == (ShownWorker {
                    id: worker_id@,
                    info: info_of(
                        scheduler.state().workers[scheduler.state().worker_index(worker_id@)],
                    ),
                }),
                Err(response) => if response.0 == 404 {
                    !scheduler.state().has_worker(worker_id@) && response.1@ == not_found_answer(
                        "Worker"@,
                        worker_id@,
                    )
                } else {
                    server_failure(response.0, response.1@, workers_tip())
                },
            },
    {
        let workers = match self.get_workers_internal(scheduler) {
            Ok(workers) => workers,
            Err(error) => {
                return Err(failure_response(&error));
            },
        };
        let ghost shown = workers@;
        let ghost state = scheduler.state();
        match find_worker(workers, worker_id) {
            Ok(worker) => {
                proof {
                    scheduler.lemma_inv_state_wf();
                    let i = choose|i: int|
                        #![trigger shown[i]]
                        0 <= i < shown.len() && shown[i] == worker;
                    assert(shown[i]@.id == state.workers[i].id);
                    crate::invariants::lemma_worker_at(state, i);
                }
                Ok(worker)
            },
            Err(error) => {
                proof {
                    if state.has_worker(worker_id@) {
                        let i = state.worker_index(worker_id@);
                        assert(shown[i]@.id == worker_id@);
                    }
                }
                Err(error_response(&error))
            },
        }
    }

    /// The operations that a query asks for; where they cannot be had,
    /// status 500 with the text of the error.
    pub fn get_operations<C: ClientStateManager>(&self, manager: &C, query: OperationQuery) -> (result:
        Result<Vec<OperationInfo>, (u16, String)>)
        requires
            manager.valid(),
        ensures
            match result {
                Ok(shown) => shows_operations(
                    shown@,
                    filtered(
                        manager.operations(),
                        filter_for(
                            optional_text(query.stage),
                            optional_text(query.worker_id),
                            query.limit,
                        ),
                    ),
                ),
                Err(response) => server_failure(response.0, response.1@, operations_tip()),
            },
    {
        match self.get_operations_internal(manager, &Some(query)) {
            Ok(operations) => Ok(operations),
            Err(error) => Err(failure_response(&error)),
        }
    }

    /// The operation that the store holds under the id. Where the store
    /// holds none the answer is status 404 with the text that says so;
    /// where the operations cannot be had, status 500 with the text of the
    /// error.
    pub fn get_operation<C: ClientStateManager>(&self, manager: &C, operation_id: &str) -> (result:
        Result<OperationInfo, (u16, String)>)
        requires
            manager.valid(),
        ensures
            match result {
                Ok(operation) => exists|i: int|
                    #![trigger manager.operations()[i]]
                    {
                        &&& 0 <= i < manager.operations().len()
                        &&& manager.operations()[i].id == operation_id@
                        &&& operation@ == shown_operation(manager.operations()[i])
                        &&& forall|j: int|
                            0 <= j < i ==> (#[trigger] manager.operations()[j]).id != operation_id@
                    },
                Err(response) => if response.0 == 404 {
                    response.1@ == not_found_answer("Operation"@, operation_id@) && forall|j: int|
                        0 <= j < manager.operations().len() ==> (
                        #[trigger] manager.operations()[j]).id != operation_id@
                } else {
                    server_failure(response.0, response.1@, operations_tip())
                },
            },
    {
        let operations = match self.get_all_operations_internal(manager) {
            Ok(operations) => operations,
            Err(error) => {
                return Err(failure_response(&error));
            },
        };
        let ghost shown = operations@;
        let ghost held = manager.operations();
        match find_operation(operations, operation_id) {
            Ok(operation) => {
                proof {
                    let i = choose|i: int|
                        #![trigger shown[i]]
                        0 <= i < shown.len() && shown[i] == operation && forall|j: int|
                            0 <= j < i ==> (#[trigger] shown[j]).client_operation_id@
                                != operation_id@;
                    assert(shown[i]@ == shown_operation(held[i]));
                    assert forall|j: int| 0 <= j < i implies (#[trigger] held[j]).id
                        != operation_id@ by {
                        assert(shown[j]@ == shown_operation(held[j]));
                    }
                    assert(held[i].id == operation_id@);
                }
                Ok(operation)
            },
            Err(error) => {
                proof {
                    assert forall|j: int| 0 <= j < held.len() implies (#[trigger] held[j]).id
                        != operation_id@ by {
                        assert(shown[j]@ == shown_operation(held[j]));
                    }
                }
                Err(error_response(&error))
            },
        }
    }

    /// The counts that sum up the scheduler; where they cannot be had,
    /// status 500 with the text of the error.
    pub fn get_scheduler_status<S: WorkerScheduler, C: ClientStateManager>(
        &self,
        scheduler: &S,
        manager: &C,
        now: u64,
    ) -> (result: Result<SchedulerStatus, (u16, String)>)
        requires
            scheduler.inv(),
            manager.valid(),
        ensures
            match result {
                Ok(status) => sums_up(
                    status,
                    scheduler.state().workers,
                    manager.operations(),
                    self.started(),
                    now,
                ),
                Err(response) => server_failure(response.0, response.1@, workers_tip())
                    || server_failure(response.0, response.1@, operations_tip()),
            },
    {
        match self.get_scheduler_status_internal(scheduler, manager, now) {
            Ok(status) => Ok(status),
            Err(error) => Err(failure_response(&error)),
        }
    }

    /// The report of the scheduler's load: the counts that sum up the
    /// scheduler, by group; where they cannot be had, status 500 with the
    /// text of the error.
    pub fn get_scheduler_metrics<S: WorkerScheduler, C: ClientStateManager>(
        &self,
        scheduler: &S,
        manager: &C,
        now: u64,
    ) -> (result: Result<SchedulerMetrics, (u16, String)>)
        requires
            scheduler.inv(),
            manager.valid(),
        ensures
            match result {
                Ok(metrics) => sums_up(
                    SchedulerStatus {
                        total_workers: metrics.workers.total,
                        active_workers: metrics.workers.active,
                        paused_workers: metrics.workers.paused,
                        draining_workers: metrics.workers.draining,
                        total_operations: metrics.operations.total,
                        queued_operations: metrics.operations.queued,
                        executing_operations: metrics.operations.executing,
                        completed_operations: metrics.operations.completed,
                        uptime_seconds: metrics.uptime_seconds,
                    },
                    scheduler.state().workers,
                    manager.operations(),
                    self.started(),
                    now,
                ),
                Err(response) => server_failure(response.0, response.1@, workers_tip())
                    || server_failure(response.0, response.1@, operations_tip()),
            },
    {
        match self.get_scheduler_status_internal(scheduler, manager, now) {
            Ok(status) => Ok(scheduler_metrics(&status)),
            Err(error) => Err(failure_response(&error)),
        }
    }

    /// The health of the process as seen at `now`: it is healthy, and has
    /// been up since it started.
    pub fn get_system_health(&self, now: u64) -> (health: SystemHealth)
        ensures
            health.status@ == "healthy"@,
            health.timestamp == now,
            health.uptime_seconds == seconds_since(self.started(), now),
    {
        system_health(self.start_time, now)
    }
}

} // verus!
