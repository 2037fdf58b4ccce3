//! A worker as the registry records it.

use vstd::prelude::*;
use crate::action_messages::{clone_operation_ids, operation_ids_view, OperationId, WorkerId};
use crate::platform_properties::{same_entries, PlatformProperties, PropertyValueView};

verus! {

/// A point in time as workers and the liveness monitor count it, in seconds.
pub type WorkerTimestamp = u64;

/// A registered worker: what it advertises, and what the registry knows of
/// its liveness and its load.
#[derive(Debug)]
pub struct Worker {
    pub id: WorkerId,
    /// What the worker advertises.
    pub platform_properties: PlatformProperties,
    /// When the worker was last heard of.
    pub last_update_timestamp: WorkerTimestamp,
    pub is_paused: bool,
    pub is_draining: bool,
    /// The operations assigned to the worker, oldest assignment first.
    pub running_operations: Vec<OperationId>,
    pub connected_timestamp: u64,
    pub actions_completed: u64,
    /// How many operations the worker runs at once.
    pub max_inflight_tasks: usize,
}

/// The mathematical value of a [`Worker`].
pub struct WorkerView {
    pub id: Seq<char>,
    pub platform_properties: Map<Seq<char>, PropertyValueView>,
    pub last_update_timestamp: u64,
    pub is_paused: bool,
    pub is_draining: bool,
    pub running_operations: Seq<Seq<char>>,
    pub connected_timestamp: u64,
    pub actions_completed: u64,
    pub max_inflight_tasks: usize,
}

impl WorkerView {
    /// Whether the worker takes new work: it is neither paused nor draining
    /// and runs fewer operations than it can.
    pub open spec fn can_accept_work(self) -> bool {
        !self.is_paused && !self.is_draining && self.running_operations.len()
            < self.max_inflight_tasks
    }

    /// The worker as it stands when it registers: with nothing assigned.
    pub open spec fn unassigned(self) -> WorkerView {
        WorkerView { running_operations: Seq::empty(), ..self }
    }
}

impl View for Worker {
    type V = WorkerView;

    open spec fn view(&self) -> WorkerView {
        WorkerView {
            id: self.id@,
            platform_properties: self.platform_properties@,
            last_update_timestamp: self.last_update_timestamp,
            is_paused: self.is_paused,
            is_draining: self.is_draining,
            running_operations: operation_ids_view(self.running_operations@),
            connected_timestamp: self.connected_timestamp,
            actions_completed: self.actions_completed,
            max_inflight_tasks: self.max_inflight_tasks,
        }
    }
}

impl Worker {
    /// Whether the advertised capability set is well formed.
    pub open spec fn wf(&self) -> bool {
        self.platform_properties.wf()
    }

    /// A worker that connects at `connected_timestamp`: neither paused nor
    /// draining, with nothing assigned and nothing completed.
    pub fn new(
        id: WorkerId,
        platform_properties: PlatformProperties,
        connected_timestamp: WorkerTimestamp,
        max_inflight_tasks: usize,
    ) -> (worker: Worker)
        ensures
            worker@ == (WorkerView {
                id: id@,
                platform_properties: platform_properties@,
                last_update_timestamp: connected_timestamp,
                is_paused: false,
                is_draining: false,
                running_operations: Seq::empty(),
                connected_timestamp,
                actions_completed: 0,
                max_inflight_tasks,
            }),
            worker.wf() == platform_properties.wf(),
    {
        let worker = Worker {
            id,
            platform_properties,
            last_update_timestamp: connected_timestamp,
            is_paused: false,
            is_draining: false,
            running_operations: Vec::new(),
            connected_timestamp,
            actions_completed: 0,
            max_inflight_tasks,
        };
        assert(operation_ids_view(worker.running_operations@) =~= Seq::empty());
        worker
    }

    /// Whether the worker takes new work.
    pub fn can_accept_work(&self) -> (answer: bool)
        ensures
            answer == self@.can_accept_work(),
    {
        !self.is_paused && !self.is_draining && self.running_operations.len()
            < self.max_inflight_tasks
    }

    /// Where the operation stands among those assigned to the worker.
    pub fn running_position(&self, operation_id: &OperationId) -> (place: Option<usize>)
        ensures
            match place {
                Some(i) => i < self@.running_operations.len() && self@.running_operations[i as int]
                    == operation_id@,
                None => !self@.running_operations.contains(operation_id@),
            },
    {
        let mut i: usize = 0;
        while i < self.running_operations.len()
            invariant
                i <= self.running_operations.len(),
                forall|j: int| 0 <= j < i ==> #[trigger] self@.running_operations[j] != operation_id@,
            decreases self.running_operations.len() - i,
        {
            if self.running_operations[i].same(operation_id) {
                return Some(i);
            }
            i = i + 1;
        }
        None
    }
}

impl Clone for Worker {
    /// A copy with the same fields and the same properties. Of a well-formed
    /// worker the copy is well formed and has the same value.
    fn clone(&self) -> (copy: Self)
        ensures
            copy.id == self.id,
            same_entries(copy.platform_properties.entries@, self.platform_properties.entries@),
            copy.last_update_timestamp == self.last_update_timestamp,
            copy.is_paused == self.is_paused,
            copy.is_draining == self.is_draining,
            copy.running_operations@ == self.running_operations@,
            copy.connected_timestamp == self.connected_timestamp,
            copy.actions_completed == self.actions_completed,
            copy.max_inflight_tasks == self.max_inflight_tasks,
            self.wf() ==> copy.wf() && copy@ == self@,
    {
        Worker {
            id: self.id.clone(),
            platform_properties: self.platform_properties.clone(),
            last_update_timestamp: self.last_update_timestamp,
            is_paused: self.is_paused,
            is_draining: self.is_draining,
            running_operations: clone_operation_ids(&self.running_operations),
            connected_timestamp: self.connected_timestamp,
            actions_completed: self.actions_completed,
            max_inflight_tasks: self.max_inflight_tasks,
        }
    }
}

} // verus!
