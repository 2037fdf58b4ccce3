//! Identifiers, stages and the static description of an action.

use vstd::prelude::*;
use vstd::string::StringExecFns;
use crate::platform_properties::{same_entries, PlatformProperties, PropertyValueView};

verus! {

/// The identifier of a connected worker. Its value is its characters.
#[derive(Debug)]
pub struct WorkerId(pub String);

/// The identifier of one scheduled instance of an action. It stays the same
/// while the operation moves between workers. Its value is its characters.
#[derive(Debug)]
pub struct OperationId(pub String);

impl View for WorkerId {
    type V = Seq<char>;

    open spec fn view(&self) -> Seq<char> {
        self.0@
    }
}

impl View for OperationId {
    type V = Seq<char>;

    open spec fn view(&self) -> Seq<char> {
        self.0@
    }
}

impl Clone for WorkerId {
    fn clone(&self) -> (copy: Self)
        ensures
            copy == *self,
    {
        WorkerId(self.0.clone())
    }
}

impl Clone for OperationId {
    fn clone(&self) -> (copy: Self)
        ensures
            copy == *self,
    {
        OperationId(self.0.clone())
    }
}

impl WorkerId {
    /// The identifier with the given characters.
    pub fn new(id: &str) -> (worker_id: WorkerId)
        ensures
            worker_id@ == id@,
    {
        WorkerId(String::from_str(id))
    }

    /// Whether two identifiers name the same worker.
    pub fn same(&self, other: &WorkerId) -> (answer: bool)
        ensures
            answer == (self@ == other@),
    {
        self.0 == other.0
    }

    /// The characters of the identifier.
    pub fn as_str(&self) -> (text: &str)
        ensures
            text@ == self@,
    {
        self.0.as_str()
    }
}

impl OperationId {
    /// The identifier with the given characters.
    pub fn new(id: &str) -> (operation_id: OperationId)
        ensures
            operation_id@ == id@,
    {
        OperationId(String::from_str(id))
    }

    /// Whether two identifiers name the same operation.
    pub fn same(&self, other: &OperationId) -> (answer: bool)
        ensures
            answer == (self@ == other@),
    {
        self.0 == other.0
    }

    /// The characters of the identifier.
    pub fn as_str(&self) -> (text: &str)
        ensures
            text@ == self@,
    {
        self.0.as_str()
    }
}

/// The characters of each identifier of a sequence.
pub open spec fn operation_ids_view(ids: Seq<OperationId>) -> Seq<Seq<char>> {
    ids.map_values(|id: OperationId| id@)
}

/// Where an operation stands between submission and completion.
#[derive(Clone, Copy, Debug, PartialEq, Eq, Structural)]
pub enum ActionStage {
    /// The action cache is being asked for an earlier result.
    CacheCheck,
    /// The operation waits for a worker.
    Queued,
    /// A worker runs the operation.
    Executing,
    /// The operation ran to its end and succeeded.
    CompletedSuccess,
    /// The operation ran to its end and failed.
    CompletedFailure,
}

impl ActionStage {
    /// Whether the stage is terminal: nothing leaves it.
    pub open spec fn finished(self) -> bool {
        self == ActionStage::CompletedSuccess || self == ActionStage::CompletedFailure
    }

    /// The name under which the stage is reported.
    pub open spec fn stage_name(self) -> Seq<char> {
        match self {
            ActionStage::CacheCheck => "CacheCheck"@,
            ActionStage::Queued => "Queued"@,
            ActionStage::Executing => "Executing"@,
            ActionStage::CompletedSuccess => "CompletedSuccess"@,
            ActionStage::CompletedFailure => "CompletedFailure"@,
        }
    }

    /// Whether the stage is terminal.
    pub fn is_finished(&self) -> (answer: bool)
        ensures
            answer == self.finished(),
    {
        match self {
            ActionStage::CompletedSuccess => true,
            ActionStage::CompletedFailure => true,
            _ => false,
        }
    }

    /// The name under which the stage is reported.
    pub fn name(&self) -> (name: String)
        ensures
            name@ == self.stage_name(),
    {
        match self {
            ActionStage::CacheCheck => String::from_str("CacheCheck"),
            ActionStage::Queued => String::from_str("Queued"),
            ActionStage::Executing => String::from_str("Executing"),
            ActionStage::CompletedSuccess => String::from_str("CompletedSuccess"),
            ActionStage::CompletedFailure => String::from_str("CompletedFailure"),
        }
    }
}

/// What a worker reports about an operation that it runs.
#[derive(Clone, Copy, Debug, PartialEq, Eq, Structural)]
pub enum UpdateOperationType {
    /// The operation is still running.
    StillExecuting,
    /// The operation ended and succeeded.
    CompletedSuccessfully,
    /// The operation ended and failed.
    CompletedWithFailure,
}

impl UpdateOperationType {
    /// The stage that an executing operation is in after the update.
    pub open spec fn next_stage(self) -> ActionStage {
        match self {
            UpdateOperationType::StillExecuting => ActionStage::Executing,
            UpdateOperationType::CompletedSuccessfully => ActionStage::CompletedSuccess,
            UpdateOperationType::CompletedWithFailure => ActionStage::CompletedFailure,
        }
    }

    /// The stage that an executing operation is in after the update.
    pub fn stage_after(&self) -> (stage: ActionStage)
        ensures
            stage == self.next_stage(),
    {
        match self {
            UpdateOperationType::StillExecuting => ActionStage::Executing,
            UpdateOperationType::CompletedSuccessfully => ActionStage::CompletedSuccess,
            UpdateOperationType::CompletedWithFailure => ActionStage::CompletedFailure,
        }
    }
}

/// The characters of an optional worker identifier.
pub open spec fn optional_worker_view(id: Option<WorkerId>) -> Option<Seq<char>> {
    match id {
        Some(id) => Some(id@),
        None => None,
    }
}

/// A copy of a list of operation identifiers.
pub fn clone_operation_ids(ids: &Vec<OperationId>) -> (copy: Vec<OperationId>)
    ensures
        copy@ == ids@,
{
    let mut copy: Vec<OperationId> = Vec::new();
    let mut i: usize = 0;
    while i < ids.len()
        invariant
            i <= ids.len(),
            copy@ == ids@.take(i as int),
        decreases ids.len() - i,
    {
        copy.push(ids[i].clone());
        assert(copy@ =~= ids@.take(i + 1));
        i = i + 1;
    }
    assert(ids@.take(i as int) =~= ids@);
    copy
}

/// A copy of an optional worker identifier.
pub fn clone_optional_worker(id: &Option<WorkerId>) -> (copy: Option<WorkerId>)
    ensures
        copy == *id,
{
    match id {
        Some(id) => Some(id.clone()),
        None => None,
    }
}

/// What an action is, apart from where it stands: it never changes once
/// the operation exists.
#[derive(Debug)]
pub struct ActionInfo {
    pub command_digest: String,
    pub input_root_digest: String,
    /// Higher is served first.
    pub priority: i32,
    /// In seconds.
    pub timeout: u64,
    /// What a worker must advertise to run the action.
    pub platform_properties: PlatformProperties,
    pub load_timestamp: u64,
    pub insert_timestamp: u64,
}

/// The mathematical value of an [`ActionInfo`].
pub struct ActionInfoView {
    pub command_digest: Seq<char>,
    pub input_root_digest: Seq<char>,
    pub priority: i32,
    pub timeout: u64,
    pub platform_properties: Map<Seq<char>, PropertyValueView>,
    pub load_timestamp: u64,
    pub insert_timestamp: u64,
}

impl View for ActionInfo {
    type V = ActionInfoView;

    open spec fn view(&self) -> ActionInfoView {
        ActionInfoView {
            command_digest: self.command_digest@,
            input_root_digest: self.input_root_digest@,
            priority: self.priority,
            timeout: self.timeout,
            platform_properties: self.platform_properties@,
            load_timestamp: self.load_timestamp,
            insert_timestamp: self.insert_timestamp,
        }
    }
}

impl ActionInfo {
    /// Whether the required capability set is well formed.
    pub open spec fn wf(&self) -> bool {
        self.platform_properties.wf()
    }

    /// Whether two descriptions say the same, field by field and property
    /// by property.
    pub open spec fn same_as(&self, other: &ActionInfo) -> bool {
        &&& self.command_digest@ == other.command_digest@
        &&& self.input_root_digest@ == other.input_root_digest@
        &&& self.priority == other.priority
        &&& self.timeout == other.timeout
        &&& same_entries(self.platform_properties.entries@, other.platform_properties.entries@)
        &&& self.load_timestamp == other.load_timestamp
        &&& self.insert_timestamp == other.insert_timestamp
    }
}

impl Clone for ActionInfo {
    /// A copy that says the same. Of a well-formed description the copy is
    /// well formed and has the same value.
    fn clone(&self) -> (copy: Self)
        ensures
            copy.same_as(self),
            self.wf() ==> copy.wf() && copy@ == self@,
    {
        ActionInfo {
            command_digest: self.command_digest.clone(),
            input_root_digest: self.input_root_digest.clone(),
            priority: self.priority,
            timeout: self.timeout,
            platform_properties: self.platform_properties.clone(),
            load_timestamp: self.load_timestamp,
            insert_timestamp: self.insert_timestamp,
        }
    }
}

} // verus!
