//! The records of the operation store and the filter that selects among
//! them.

use vstd::prelude::*;
use crate::action_messages::{
    clone_optional_worker, optional_worker_view, ActionInfo, ActionInfoView, ActionStage,
    OperationId, WorkerId,
};
use crate::error::{Error, ErrorKind};
use crate::scheduler_state::{filtered, store_consistent};

verus! {

/// A set of stages: one flag for each stage that a filter lets through. The
/// two completed stages share a flag.
#[derive(Clone, Copy, Debug, PartialEq, Eq, Structural)]
pub struct OperationStageFlags {
    pub cache_check: bool,
    pub queued: bool,
    pub executing: bool,
    pub completed: bool,
}

impl OperationStageFlags {
    /// Whether the set holds the stage.
    pub open spec fn holds(self, stage: ActionStage) -> bool {
        match stage {
            ActionStage::CacheCheck => self.cache_check,
            ActionStage::Queued => self.queued,
            ActionStage::Executing => self.executing,
            ActionStage::CompletedSuccess => self.completed,
            ActionStage::CompletedFailure => self.completed,
        }
    }

    /// The set of all stages.
    pub open spec fn all() -> OperationStageFlags {
        OperationStageFlags { cache_check: true, queued: true, executing: true, completed: true }
    }

    /// The set with no stage.
    pub open spec fn none() -> OperationStageFlags {
        OperationStageFlags {
            cache_check: false,
            queued: false,
            executing: false,
            completed: false,
        }
    }

    /// Every stage.
    pub fn any() -> (flags: OperationStageFlags)
        ensures
            flags == Self::all(),
    {
        OperationStageFlags { cache_check: true, queued: true, executing: true, completed: true }
    }

    /// The operations whose cache check is under way.
    pub fn cache_check() -> (flags: OperationStageFlags)
        ensures
            flags == (OperationStageFlags { cache_check: true, ..Self::none() }),
    {
        OperationStageFlags {
            cache_check: true,
            queued: false,
            executing: false,
            completed: false,
        }
    }

    /// The operations that wait for a worker.
    pub fn queued() -> (flags: OperationStageFlags)
        ensures
            flags == (OperationStageFlags { queued: true, ..Self::none() }),
    {
        OperationStageFlags {
            cache_check: false,
            queued: true,
            executing: false,
            completed: false,
        }
    }

    /// The operations that a worker runs.
    pub fn executing() -> (flags: OperationStageFlags)
        ensures
            flags == (OperationStageFlags { executing: true, ..Self::none() }),
    {
        OperationStageFlags {
            cache_check: false,
            queued: false,
            executing: true,
            completed: false,
        }
    }

    /// The operations that have ended, either way.
    pub fn completed() -> (flags: OperationStageFlags)
        ensures
            flags == (OperationStageFlags { completed: true, ..Self::none() }),
    {
        OperationStageFlags {
            cache_check: false,
            queued: false,
            executing: false,
            completed: true,
        }
    }

    /// Whether the set holds the stage.
    pub fn contains(&self, stage: ActionStage) -> (answer: bool)
        ensures
            answer == self.holds(stage),
    {
        match stage {
            ActionStage::CacheCheck => self.cache_check,
            ActionStage::Queued => self.queued,
            ActionStage::Executing => self.executing,
            ActionStage::CompletedSuccess => self.completed,
            ActionStage::CompletedFailure => self.completed,
        }
    }
}

/// Which operations a query asks for.
#[derive(Debug)]
pub struct OperationFilter {
    /// The stages that are let through.
    pub stages: OperationStageFlags,
    /// If set, only operations that this worker owns are let through.
    pub worker_id: Option<WorkerId>,
    /// If set, no more than this many operations are handed out.
    pub limit: Option<usize>,
}

/// The mathematical value of an [`OperationFilter`].
pub struct OperationFilterView {
    pub stages: OperationStageFlags,
    pub worker_id: Option<Seq<char>>,
    pub limit: Option<usize>,
}

impl View for OperationFilter {
    type V = OperationFilterView;

    open spec fn view(&self) -> OperationFilterView {
        OperationFilterView {
            stages: self.stages,
            worker_id: optional_worker_view(self.worker_id),
            limit: self.limit,
        }
    }
}

impl OperationFilter {
    /// The filter that lets every operation through, without a limit.
    pub fn new() -> (filter: OperationFilter)
        ensures
            filter@ == (OperationFilterView {
                stages: OperationStageFlags::all(),
                worker_id: None,
                limit: None,
            }),
    {
        OperationFilter { stages: OperationStageFlags::any(), worker_id: None, limit: None }
    }
}

/// Where an operation stands: the part of its record that changes.
#[derive(Debug)]
pub struct ActionState {
    pub client_operation_id: OperationId,
    pub stage: ActionStage,
    /// The worker that owns the operation, if one does.
    pub worker_id: Option<WorkerId>,
    pub action_digest: String,
    /// How often the operation was queued again because the worker that ran
    /// it was lost.
    pub lost_workers: u64,
}

/// One operation of the store: where it stands, and what it is. Both parts
/// speak of the operation that `state.client_operation_id` names.
#[derive(Debug)]
pub struct Operation {
    pub state: ActionState,
    pub info: ActionInfo,
}

/// The mathematical value of an [`Operation`].
pub struct OperationView {
    pub id: Seq<char>,
    pub action_digest: Seq<char>,
    pub stage: ActionStage,
    pub worker_id: Option<Seq<char>>,
    pub lost_workers: u64,
    pub info: ActionInfoView,
}

impl OperationView {
    /// Whether the filter lets the operation through: its stage is among the
    /// filter's, and it is owned by the filter's worker if the filter names
    /// one.
    pub open spec fn passes(self, filter: OperationFilterView) -> bool {
        &&& filter.stages.holds(self.stage)
        &&& filter.worker_id is Some ==> self.worker_id == filter.worker_id
    }
}

impl View for Operation {
    type V = OperationView;

    open spec fn view(&self) -> OperationView {
        OperationView {
            id: self.state.client_operation_id@,
            action_digest: self.state.action_digest@,
            stage: self.state.stage,
            worker_id: optional_worker_view(self.state.worker_id),
            lost_workers: self.state.lost_workers,
            info: self.info@,
        }
    }
}

impl Clone for ActionState {
    fn clone(&self) -> (copy: Self)
        ensures
            copy == *self,
    {
        ActionState {
            client_operation_id: self.client_operation_id.clone(),
            stage: self.stage,
            worker_id: clone_optional_worker(&self.worker_id),
            action_digest: self.action_digest.clone(),
            lost_workers: self.lost_workers,
        }
    }
}

impl Operation {
    /// Whether the required capability set is well formed.
    pub open spec fn wf(&self) -> bool {
        self.info.wf()
    }

    /// A new operation in the given stage, owned by nobody, that has lost no
    /// worker.
    pub fn new(
        id: OperationId,
        action_digest: String,
        info: ActionInfo,
        stage: ActionStage,
    ) -> (operation: Operation)
        ensures
            operation@ == (OperationView {
                id: id@,
                action_digest: action_digest@,
                stage,
                worker_id: None,
                lost_workers: 0,
                info: info@,
            }),
            operation.wf() == info.wf(),
    {
        Operation {
            state: ActionState {
                client_operation_id: id,
                stage,
                worker_id: None,
                action_digest,
                lost_workers: 0,
            },
            info,
        }
    }

    /// Where the operation stands.
    pub fn as_state(&self) -> (state: &ActionState)
        ensures
            *state == self.state,
    {
        &self.state
    }

    /// What the operation is.
    pub fn as_action_info(&self) -> (info: &ActionInfo)
        ensures
            *info == self.info,
    {
        &self.info
    }

    /// Whether the filter lets the operation through.
    pub fn matches(&self, filter: &OperationFilter) -> (answer: bool)
        ensures
            answer == self@.passes(filter@),
    {
        if !filter.stages.contains(self.state.stage) {
            return false;
        }
        match &filter.worker_id {
            None => true,
            Some(wanted) => match &self.state.worker_id {
                Some(owner) => owner.same(wanted),
                None => false,
            },
        }
    }
}

impl Clone for Operation {
    /// A copy that stands where the operation stands and says the same of
    /// the action. Of a well-formed operation the copy is well formed and
    /// has the same value.
    fn clone(&self) -> (copy: Self)
        ensures
            copy.state == self.state,
            copy.info.same_as(&self.info),
            self.wf() ==> copy.wf() && copy@ == self@,
    {
        Operation { state: self.state.clone(), info: self.info.clone() }
    }
}

/// The values of the operations of a list.
pub open spec fn operations_view(operations: Seq<Operation>) -> Seq<OperationView> {
    operations.map_values(|operation: Operation| operation@)
}

/// Whether a list of copies is what a filter hands out of a store: the
/// copies have the values of the operations that pass, in the order in
/// which the store serves them, and are well formed.
pub open spec fn hands_out(
    found: Seq<Operation>,
    operations: Seq<OperationView>,
    filter: OperationFilterView,
) -> bool {
    &&& operations_view(found) == filtered(operations, filter)
    &&& forall|j: int| 0 <= j < found.len() ==> (#[trigger] found[j]).wf()
}

/// What the store of operations offers to those who ask what it holds.
///
/// An implementation keeps the operations in the order in which they are
/// served. A query is not promised to succeed, since an implementation may
/// rest on something that fails; what is promised is what holds of each
/// outcome.
pub trait ClientStateManager {
    /// The operations of the store, in the order in which they are served.
    spec fn operations(&self) -> Seq<OperationView>;

    /// What the implementation keeps true of itself between requests.
    spec fn valid(&self) -> bool;

    /// Between requests the store is consistent: ids differ, an operation
    /// has an owner exactly while it is executing, and the operations stand
    /// in the order in which they are served.
    proof fn lemma_valid_store(&self)
        requires
            self.valid(),
        ensures
            store_consistent(self.operations()),
    ;

    /// Copies of the operations that pass the filter, in the order in which
    /// they are served, and no more of them than the filter's limit allows.
    /// Each copy holds both what the operation is and where it stood when
    /// the copy was made.
    fn filter_operations(&self, filter: &OperationFilter) -> (result: Result<Vec<Operation>, Error>)
        requires
            self.valid(),
        ensures
            match result {
                Ok(found) => hands_out(found@, self.operations(), filter@),
                Err(error) => error@.kind == ErrorKind::CollaboratorFailure,
            },
    ;
}

} // verus!
