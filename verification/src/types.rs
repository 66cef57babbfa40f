//! The executable record types the registry stores and serves, their ghost
//! views, and verified deep clones for each of them.

use vstd::prelude::*;

use crate::model::{AgentInfoView, AgentMetadataView, AgentView, TaskResultView};

verus! {

/// One task outcome mirrored from the reputation service.
pub struct TaskResult {
    pub task_id: String,
    pub success: bool,
    pub timestamp: u64,
    pub details: String,
}

/// The reputation snapshot of one agent, owned by the external reputation
/// service and stored here wholesale, never computed.
pub struct AgentInfo {
    pub reputation: u64,
    pub task_history: Vec<TaskResult>,
    pub reputation_history: Vec<(u64, u64)>,
}

/// The metadata an agent declares at registration; immutable afterwards.
pub struct AgentMetadata {
    pub name: String,
    pub description: String,
    pub skills: Vec<String>,
    pub purpose: String,
}

/// One stored agent record: created once at registration, only its
/// reputation snapshot is ever replaced.
pub struct Agent {
    pub owner_id: String,
    pub metadata: AgentMetadata,
    pub registered_at: u64,
    pub reputation_info: AgentInfo,
}

/// The error kinds a registry mutation can surface.
#[derive(Clone, Copy, PartialEq, Eq, Structural, Debug)]
pub enum RegistryError {
    /// A registration attempt for an identity that already holds a record.
    AlreadyRegistered,
    /// A reputation update from a caller other than the reputation service.
    Unauthorized,
}

/// The view of an optional returned record.
pub open spec fn agent_opt_view(r: Option<Agent>) -> Option<AgentView> {
    match r {
        Some(a) => Some(a@),
        None => None,
    }
}

/// The view of an optional returned skill list.
pub open spec fn skills_opt_view(r: Option<Vec<String>>) -> Option<Seq<Seq<char>>> {
    match r {
        Some(v) => Some(strings_view(v@)),
        None => None,
    }
}

/// The identities of a sequence of strings.
pub open spec fn strings_view(s: Seq<String>) -> Seq<Seq<char>> {
    s.map_values(|x: String| x@)
}

/// The views of a sequence of task results.
pub open spec fn tasks_view(s: Seq<TaskResult>) -> Seq<TaskResultView> {
    s.map_values(|t: TaskResult| t@)
}

impl View for TaskResult {
    type V = TaskResultView;

    open spec fn view(&self) -> TaskResultView {
        TaskResultView {
            task_id: self.task_id@,
            success: self.success,
            timestamp: self.timestamp,
            details: self.details@,
        }
    }
}

impl View for AgentInfo {
    type V = AgentInfoView;

    open spec fn view(&self) -> AgentInfoView {
        AgentInfoView {
            reputation: self.reputation,
            task_history: tasks_view(self.task_history@),
            reputation_history: self.reputation_history@,
        }
    }
}

impl View for AgentMetadata {
    type V = AgentMetadataView;

    open spec fn view(&self) -> AgentMetadataView {
        AgentMetadataView {
            name: self.name@,
            description: self.description@,
            skills: strings_view(self.skills@),
            purpose: self.purpose@,
        }
    }
}

impl View for Agent {
    type V = AgentView;

    open spec fn view(&self) -> AgentView {
        AgentView {
            owner_id: self.owner_id@,
            metadata: self.metadata@,
            registered_at: self.registered_at,
            reputation_info: self.reputation_info@,
        }
    }
}

/// An element-exact copy of a vector of identities.
pub fn clone_strings(v: &Vec<String>) -> (r: Vec<String>)
    ensures
        r@ == v@,
{
    let mut r: Vec<String> = Vec::new();
    let mut i: usize = 0;
    while i < v.len()
        invariant
            i <= v.len(),
            r@ =~= v@.subrange(0, i as int),
        decreases v.len() - i,
    {
        r.push(v[i].clone());
        i = i + 1;
    }
    proof {
        assert(r@ =~= v@);
    }
    r
}

/// An element-exact copy of a reputation-history vector.
pub fn clone_pairs(v: &Vec<(u64, u64)>) -> (r: Vec<(u64, u64)>)
    ensures
        r@ == v@,
{
    let mut r: Vec<(u64, u64)> = Vec::new();
    let mut i: usize = 0;
    while i < v.len()
        invariant
            i <= v.len(),
            r@ =~= v@.subrange(0, i as int),
        decreases v.len() - i,
    {
        r.push(v[i]);
        i = i + 1;
    }
    proof {
        assert(r@ =~= v@);
    }
    r
}

/// An element-exact copy of a task-history vector.
pub fn clone_tasks(v: &Vec<TaskResult>) -> (r: Vec<TaskResult>)
    ensures
        r@ == v@,
{
    let mut r: Vec<TaskResult> = Vec::new();
    let mut i: usize = 0;
    while i < v.len()
        invariant
            i <= v.len(),
            r@ =~= v@.subrange(0, i as int),
        decreases v.len() - i,
    {
        r.push(v[i].clone());
        i = i + 1;
    }
    proof {
        assert(r@ =~= v@);
    }
    r
}

impl Clone for TaskResult {
    /// An exact copy: every field of the clone equals the original's.
    fn clone(&self) -> (r: Self)
        ensures
            r == *self,
    {
        TaskResult {
            task_id: self.task_id.clone(),
            success: self.success,
            timestamp: self.timestamp,
            details: self.details.clone(),
        }
    }
}

impl Clone for AgentInfo {
    /// A copy with the same view: the clone carries the same snapshot.
    fn clone(&self) -> (r: Self)
        ensures
            r@ == self@,
    {
        AgentInfo {
            reputation: self.reputation,
            task_history: clone_tasks(&self.task_history),
            reputation_history: clone_pairs(&self.reputation_history),
        }
    }
}

impl Clone for AgentMetadata {
    /// A copy with the same view: the clone declares the same metadata.
    fn clone(&self) -> (r: Self)
        ensures
            r@ == self@,
    {
        AgentMetadata {
            name: self.name.clone(),
            description: self.description.clone(),
            skills: clone_strings(&self.skills),
            purpose: self.purpose.clone(),
        }
    }
}

impl Clone for Agent {
    /// A copy with the same view: the clone is the same record.
    fn clone(&self) -> (r: Self)
        ensures
            r@ == self@,
    {
        Agent {
            owner_id: self.owner_id.clone(),
            metadata: self.metadata.clone(),
            registered_at: self.registered_at,
            reputation_info: self.reputation_info.clone(),
        }
    }
}

} // verus!
