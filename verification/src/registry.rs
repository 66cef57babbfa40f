//! The agent registry: registration, the skill index kept consistent with
//! the agent store, the authorization gate on reputation updates, the read
//! surface, and the two-hop reputation synchronization orchestrator.

use vstd::prelude::*;
use vstd::string::StringExecFns;

use crate::model::{
    distinct_members, distinct_skills, index_add_all, index_add_one, index_has,
    initial_registry, lemma_agent_at_index, lemma_index_add_all_props, lemma_index_add_all_snoc,
    lemma_skill_at_index, new_agent, AgentView, RegistryView, SkillEntryView, DEFAULT_TASK_LIMIT,
    MAX_TASK_LIMIT,
};
use crate::types::{
    agent_opt_view, clone_pairs, clone_strings, skills_opt_view, strings_view, tasks_view, Agent,
    AgentInfo, AgentMetadata, RegistryError, TaskResult,
};
use crate::wire::{json_encode_id, json_string_bytes, OutboundCall, RegistrationEffects};

verus! {

/// One entry of the skill index: a skill name and the identities that
/// declared it at registration, in insertion order.
struct SkillEntry {
    skill: String,
    members: Vec<String>,
}

impl View for SkillEntry {
    type V = SkillEntryView;

    closed spec fn view(&self) -> SkillEntryView {
        SkillEntryView { skill: self.skill@, members: strings_view(self.members@) }
    }
}

/// The registry state: the agent store, the skill index, the registration
/// counter, and the identity of the reputation service that alone may
/// replace reputation snapshots.
pub struct AgentRegistration {
    agents: Vec<Agent>,
    skills_index: Vec<SkillEntry>,
    total_agents: u64,
    reputation_contract_id: String,
}

impl View for AgentRegistration {
    type V = RegistryView;

    closed spec fn view(&self) -> RegistryView {
        RegistryView {
            agents: self.agents@.map_values(|a: Agent| a@),
            skills: self.skills_index@.map_values(|e: SkillEntry| e@),
            total_agents: self.total_agents,
            reputation_service: self.reputation_contract_id@,
        }
    }
}

/// Whether `v` holds a string equal to `x`.
fn contains_string(v: &Vec<String>, x: &String) -> (r: bool)
    ensures
        r == strings_view(v@).contains(x@),
{
    let mut k: usize = 0;
    while k < v.len()
        invariant
            k <= v@.len(),
            forall|j: int| 0 <= j < k ==> strings_view(v@)[j] != x@,
        decreases v@.len() - k,
    {
        if v[k] == *x {
            proof {
                assert(strings_view(v@)[k as int] == x@);
            }
            return true;
        }
        k = k + 1;
    }
    proof {
        if strings_view(v@).contains(x@) {
            let j = choose|j: int|
                0 <= j < strings_view(v@).len() && strings_view(v@)[j] == x@;
            assert(strings_view(v@)[j] != x@);
        }
    }
    false
}

impl AgentRegistration {
    /// A registry as deployment leaves it: empty, counting from zero, with
    /// the given reputation-service identity.
    pub fn new(reputation_contract_id: String) -> (r: Self)
        ensures
            r@ == initial_registry(reputation_contract_id@),
            r@.wf(),
    {
        let r = AgentRegistration {
            agents: Vec::new(),
            skills_index: Vec::new(),
            total_agents: 0,
            reputation_contract_id,
        };
        proof {
            assert(r@.agents =~= Seq::<AgentView>::empty());
            assert(r@.skills =~= Seq::<SkillEntryView>::empty());
        }
        r
    }

    /// The position of the record owned by `id`, if any.
    fn find_agent_index(&self, id: &String) -> (r: Option<usize>)
        ensures
            match r {
                Some(i) => i < self@.agents.len() && self@.agents[i as int].owner_id == id@,
                None => !self@.has_agent(id@),
            },
    {
        let mut k: usize = 0;
        while k < self.agents.len()
            invariant
                k <= self@.agents.len(),
                forall|j: int| 0 <= j < k ==> #[trigger] self@.agents[j].owner_id != id@,
            decreases self@.agents.len() - k,
        {
            if self.agents[k].owner_id == *id {
                proof {
                    assert(self@.agents[k as int].owner_id == id@);
                }
                return Some(k);
            }
            k = k + 1;
        }
        proof {
            if self@.has_agent(id@) {
                let j = choose|j: int|
                    0 <= j < self@.agents.len() && self@.agents[j].owner_id == id@;
                assert(self@.agents[j].owner_id != id@);
            }
        }
        None
    }

    /// The position of the index entry for `skill`, if any.
    fn find_skill_index(&self, skill: &String) -> (r: Option<usize>)
        ensures
            match r {
                Some(i) => i < self@.skills.len() && self@.skills[i as int].skill == skill@,
                None => !self@.has_skill_entry(skill@),
            },
    {
        let mut k: usize = 0;
        while k < self.skills_index.len()
            invariant
                k <= self@.skills.len(),
                forall|j: int| 0 <= j < k ==> #[trigger] self@.skills[j].skill != skill@,
            decreases self@.skills.len() - k,
        {
            if self.skills_index[k].skill == *skill {
                proof {
                    assert(self@.skills[k as int].skill == skill@);
                }
                return Some(k);
            }
            k = k + 1;
        }
        proof {
            if self@.has_skill_entry(skill@) {
                let j = choose|j: int|
                    0 <= j < self@.skills.len() && self@.skills[j].skill == skill@;
                assert(self@.skills[j].skill != skill@);
            }
        }
        None
    }

    /// One idempotent insertion of `(skill, id)` into the index, lazily
    /// creating the entry; the agent store is untouched.
    fn index_skill(&mut self, skill: &String, id: &String)
        requires
            distinct_skills(old(self)@.skills),
        ensures
            final(self)@.agents == old(self)@.agents,
            final(self)@.total_agents == old(self)@.total_agents,
            final(self)@.reputation_service == old(self)@.reputation_service,
            final(self)@.skills == index_add_one(old(self)@.skills, skill@, id@),
    {
        let ghost base = self@.skills;
        match self.find_skill_index(skill) {
            Some(i) => {
                let present = contains_string(&self.skills_index[i].members, id);
                if !present {
                    self.skills_index[i].members.push(id.clone());
                }
                proof {
                    assert(base[i as int].skill == skill@);
                    let target = index_add_one(base, skill@, id@);
                    assert(target.len() == base.len());
                    assert forall|j: int| 0 <= j < base.len() implies self@.skills[j] == target[j] by {
                        if j == i as int {
                            if present {
                                assert(self@.skills[j] == base[j]);
                            } else {
                                assert(self@.skills[j].skill == base[j].skill);
                                assert(self@.skills[j].members =~= base[j].members.push(id@));
                            }
                        } else {
                            if j < i as int {
                                assert(base[j].skill != base[i as int].skill);
                            } else {
                                assert(base[i as int].skill != base[j].skill);
                            }
                            assert(self@.skills[j] == base[j]);
                        }
                    }
                    assert(self@.skills =~= target);
                }
            },
            None => {
                let mut members: Vec<String> = Vec::new();
                members.push(id.clone());
                let ghost mview = strings_view(members@);
                proof {
                    assert(mview =~= seq![id@]);
                }
                self.skills_index.push(SkillEntry { skill: skill.clone(), members });
                proof {
                    assert(!(exists|k: int| 0 <= k < base.len() && base[k].skill == skill@));
                    assert(self@.skills =~= base.push(
                        SkillEntryView { skill: skill@, members: seq![id@] },
                    ));
                }
            },
        }
    }

    /// Registers `caller` exactly once: a second attempt for the same
    /// identity fails and changes nothing.  On success the record is stored
    /// with a fresh reputation snapshot, every declared skill is indexed,
    /// the counter advances, and the two best-effort outbound calls of the
    /// registration flow are handed back for the host to fire.
    pub fn register_agent(&mut self, caller: String, now: u64, metadata: AgentMetadata) -> (r:
        Result<RegistrationEffects, RegistryError>)
        requires
            old(self)@.wf(),
            old(self)@.total_agents < u64::MAX,
        ensures
            final(self)@.wf(),
            final(self)@ == old(self)@.register_next(caller@, now, metadata@),
            r is Ok <==> old(self)@.register_ok(caller@),
            r is Err ==> r->Err_0 == RegistryError::AlreadyRegistered,
            r is Ok ==> ({
                let eff = r->Ok_0;
                &&& eff.balance_check.target@ == "itlx.token.near"@
                &&& eff.balance_check.method@ == "ft_balance_of"@
                &&& eff.balance_check.args@ == json_string_bytes(caller@)
                &&& eff.reputation_init.target@ == old(self)@.reputation_service
                &&& eff.reputation_init.method@ == "initialize_agent"@
                &&& eff.reputation_init.args@ == json_string_bytes(caller@)
            }),
    {
        if self.find_agent_index(&caller).is_some() {
            return Err(RegistryError::AlreadyRegistered);
        }
        let balance_args = json_encode_id(&caller);
        let init_args = json_encode_id(&caller);

        let mut initial_history: Vec<(u64, u64)> = Vec::new();
        initial_history.push((now, 0));
        let agent = Agent {
            owner_id: caller.clone(),
            metadata: metadata.clone(),
            registered_at: now,
            reputation_info: AgentInfo {
                reputation: 0,
                task_history: Vec::new(),
                reputation_history: initial_history,
            },
        };
        proof {
            assert(agent@.reputation_info.task_history =~= Seq::<crate::model::TaskResultView>::empty());
            assert(agent@.reputation_info.reputation_history =~= seq![(now, 0u64)]);
            assert(agent@ == new_agent(caller@, now, metadata@));
        }
        self.agents.push(agent);
        self.total_agents = self.total_agents + 1;
        proof {
            assert(self@.agents =~= old(self)@.agents.push(new_agent(caller@, now, metadata@)));
            assert(self@.skills =~= old(self)@.skills);
            assert(self@.skills =~= index_add_all(
                old(self)@.skills,
                metadata@.skills.subrange(0, 0),
                caller@,
            )) by {
                assert(metadata@.skills.subrange(0, 0) =~= Seq::<Seq<char>>::empty());
            }
        }
        let mut si: usize = 0;
        while si < metadata.skills.len()
            invariant
                si <= metadata@.skills.len(),
                distinct_skills(old(self)@.skills),
                distinct_members(old(self)@.skills),
                self@.agents == old(self)@.agents.push(new_agent(caller@, now, metadata@)),
                self@.total_agents == old(self)@.total_agents + 1,
                self@.reputation_service == old(self)@.reputation_service,
                self@.skills == index_add_all(
                    old(self)@.skills,
                    metadata@.skills.subrange(0, si as int),
                    caller@,
                ),
            decreases metadata@.skills.len() - si,
        {
            proof {
                lemma_index_add_all_props(
                    old(self)@.skills,
                    metadata@.skills.subrange(0, si as int),
                    caller@,
                );
            }
            let skill = &metadata.skills[si];
            proof {
                assert(skill@ == metadata@.skills[si as int]);
            }
            self.index_skill(skill, &caller);
            proof {
                lemma_index_add_all_snoc(
                    old(self)@.skills,
                    metadata@.skills.subrange(0, si as int),
                    metadata@.skills[si as int],
                    caller@,
                );
                assert(metadata@.skills.subrange(0, si + 1) =~= metadata@.skills.subrange(
                    0,
                    si as int,
                ).push(metadata@.skills[si as int]));
            }
            si = si + 1;
        }
        proof {
            let base = old(self)@;
            assert(metadata@.skills.subrange(0, si as int) =~= metadata@.skills);
            assert(self@ == base.spec_register(caller@, now, metadata@));
            lemma_index_add_all_props(base.skills, metadata@.skills, caller@);
            let nr = self@;
            assert forall|i: int, j: int| 0 <= i < j < nr.agents.len() implies #[trigger] nr.agents[i].owner_id
                != #[trigger] nr.agents[j].owner_id by {
                if j < base.agents.len() {
                    assert(base.agents[i].owner_id != base.agents[j].owner_id);
                } else {
                    assert(nr.agents[j].owner_id == caller@);
                    if nr.agents[i].owner_id == caller@ {
                        assert(base.agents[i].owner_id == caller@);
                        assert(base.has_agent(caller@));
                    }
                }
            }
            assert forall|i2: int, j2: int|
                0 <= i2 < nr.skills.len() && 0 <= j2 < nr.skills[i2].members.len() implies nr.pair_supported(
                i2,
                j2,
            ) by {
                let sk = nr.skills[i2].skill;
                let m = nr.skills[i2].members[j2];
                if index_has(base.skills, sk, m) {
                    let i1 = choose|i1: int|
                        0 <= i1 < base.skills.len() && base.skills[i1].skill == sk
                            && base.skills[i1].members.contains(m);
                    let j1 = choose|j1: int|
                        0 <= j1 < base.skills[i1].members.len() && base.skills[i1].members[j1] == m;
                    assert(base.pair_supported(i1, j1));
                    let a = choose|a: int|
                        0 <= a < base.agents.len() && base.agents[a].owner_id == m
                            && base.agents[a].metadata.skills.contains(sk);
                    assert(nr.agents[a] == base.agents[a]);
                    assert(0 <= a < nr.agents.len() && nr.agents[a].owner_id == m
                        && nr.agents[a].metadata.skills.contains(sk));
                } else {
                    assert(metadata@.skills.contains(sk) && m == caller@);
                    let a = base.agents.len() as int;
                    assert(nr.agents[a].owner_id == caller@);
                    assert(nr.agents[a].metadata.skills.contains(sk));
                    assert(0 <= a < nr.agents.len() && nr.agents[a].owner_id == m
                        && nr.agents[a].metadata.skills.contains(sk));
                }
            }
        }
        Ok(RegistrationEffects {
            balance_check: OutboundCall {
                target: String::from_str("itlx.token.near"),
                method: String::from_str("ft_balance_of"),
                args: balance_args,
            },
            reputation_init: OutboundCall {
                target: self.reputation_contract_id.clone(),
                method: String::from_str("initialize_agent"),
                args: init_args,
            },
        })
    }

    /// Replaces the stored reputation snapshot of `agent_id` wholesale,
    /// provided `caller` is exactly the configured reputation service.  Any
    /// other caller is rejected before any mutation; an unknown identity is
    /// silently left alone.
    pub fn update_agent_reputation(
        &mut self,
        caller: String,
        agent_id: String,
        reputation_info: AgentInfo,
    ) -> (r: Result<(), RegistryError>)
        requires
            old(self)@.wf(),
        ensures
            final(self)@.wf(),
            final(self)@ == old(self)@.update_next(caller@, agent_id@, reputation_info@),
            r is Ok <==> old(self)@.update_authorized(caller@),
            r is Err ==> r->Err_0 == RegistryError::Unauthorized,
    {
        if !(caller == self.reputation_contract_id) {
            return Err(RegistryError::Unauthorized);
        }
        self.apply_snapshot(&agent_id, reputation_info);
        Ok(())
    }

    /// The wholesale snapshot replacement both authorized paths share: the
    /// gated external entry point and the orchestrator's trusted hop.
    fn apply_snapshot(&mut self, agent_id: &String, reputation_info: AgentInfo)
        requires
            old(self)@.wf(),
        ensures
            final(self)@.wf(),
            final(self)@ == old(self)@.with_reputation(agent_id@, reputation_info@),
    {
        let ghost base = self@;
        let ghost target = base.with_reputation(agent_id@, reputation_info@);
        match self.find_agent_index(&agent_id) {
            Some(i) => {
                self.agents[i].reputation_info = reputation_info;
                proof {
                    assert forall|j: int| 0 <= j < base.agents.len() implies self@.agents[j]
                        == target.agents[j] by {
                        if j != i as int {
                            if j < i as int {
                                assert(base.agents[j].owner_id != base.agents[i as int].owner_id);
                            } else {
                                assert(base.agents[i as int].owner_id != base.agents[j].owner_id);
                            }
                            assert(self@.agents[j] == base.agents[j]);
                        }
                    }
                    assert(self@.agents =~= target.agents);
                    assert(self@ == target);
                    lemma_update_preserves_wf(base, agent_id@, reputation_info@);
                }
            },
            None => {
                proof {
                    assert forall|j: int| 0 <= j < base.agents.len() implies target.agents[j]
                        == base.agents[j] by {
                        if base.agents[j].owner_id == agent_id@ {
                            assert(base.has_agent(agent_id@));
                        }
                    }
                    assert(target.agents =~= base.agents);
                    assert(self@ == target);
                    lemma_update_preserves_wf(base, agent_id@, reputation_info@);
                }
            },
        }
    }

    /// Hop two of the synchronization chain: applies the snapshot the host
    /// fetched, for the identity the ticket was minted for.  The ticket is
    /// the orchestrator's own trusted execution origin, so no caller
    /// identity is checked here: only `sync_reputation` can mint one, and it
    /// is consumed by this call, so each synchronization authorizes exactly
    /// one application.  An identity without a record is silently left
    /// alone.
    pub fn apply_synced_reputation(&mut self, ticket: SyncTicket, reputation_info: AgentInfo)
        requires
            old(self)@.wf(),
        ensures
            final(self)@.wf(),
            final(self)@ == old(self)@.with_reputation(ticket@, reputation_info@),
    {
        let agent_id = ticket.agent_id;
        self.apply_snapshot(&agent_id, reputation_info);
    }

    /// A pure read of the record owned by `agent_id`, if any.
    pub fn get_agent(&self, agent_id: &String) -> (r: Option<Agent>)
        requires
            self@.wf(),
        ensures
            agent_opt_view(r) == self@.get_result(agent_id@),
    {
        match self.find_agent_index(agent_id) {
            Some(i) => {
                proof {
                    lemma_agent_at_index(self@, i as int);
                }
                Some(self.agents[i].clone())
            },
            None => None,
        }
    }

    /// The identities indexed under `skill`, in insertion order; empty,
    /// never an error, for a skill nobody declared.
    pub fn get_agents_by_skill(&self, skill: &String) -> (r: Vec<String>)
        requires
            self@.wf(),
        ensures
            strings_view(r@) == self@.skill_members(skill@),
    {
        match self.find_skill_index(skill) {
            Some(i) => {
                proof {
                    lemma_skill_at_index(self@, i as int);
                }
                let members = clone_strings(&self.skills_index[i].members);
                proof {
                    assert(strings_view(members@) == self@.skills[i as int].members);
                }
                members
            },
            None => {
                let r: Vec<String> = Vec::new();
                proof {
                    assert(strings_view(r@) =~= Seq::<Seq<char>>::empty());
                }
                r
            },
        }
    }

    /// The number of registrations ever accepted; never decremented.
    pub fn get_total_agents(&self) -> (r: u64)
        ensures
            r == self@.total_agents,
    {
        self.total_agents
    }

    /// The skills `agent_id` declared at registration, if registered.
    pub fn get_agent_skills(&self, agent_id: &String) -> (r: Option<Vec<String>>)
        requires
            self@.wf(),
        ensures
            skills_opt_view(r) == self@.skills_result(agent_id@),
    {
        match self.find_agent_index(agent_id) {
            Some(i) => {
                proof {
                    lemma_agent_at_index(self@, i as int);
                }
                Some(clone_strings(&self.agents[i].metadata.skills))
            },
            None => None,
        }
    }

    /// The stored reputation score of `agent_id`, if registered.
    pub fn get_agent_reputation(&self, agent_id: &String) -> (r: Option<u64>)
        requires
            self@.wf(),
        ensures
            r == self@.reputation_result(agent_id@),
    {
        match self.find_agent_index(agent_id) {
            Some(i) => {
                proof {
                    lemma_agent_at_index(self@, i as int);
                }
                Some(self.agents[i].reputation_info.reputation)
            },
            None => None,
        }
    }

    /// The window `[offset, offset + limit)` of the stored task history of
    /// `agent_id`, in chronological order: the offset defaults to zero, the
    /// limit defaults to fifty and is capped at one hundred, and a window
    /// past the end is empty, never an error.
    pub fn get_agent_task_history(
        &self,
        agent_id: &String,
        from_index: Option<u64>,
        limit: Option<u64>,
    ) -> (r: Vec<TaskResult>)
        requires
            self@.wf(),
        ensures
            tasks_view(r@) == self@.task_history_result(agent_id@, from_index, limit),
    {
        let from: u64 = match from_index {
            Some(v) => v,
            None => 0,
        };
        let capped: u64 = match limit {
            Some(v) => if v < MAX_TASK_LIMIT {
                v
            } else {
                MAX_TASK_LIMIT
            },
            None => DEFAULT_TASK_LIMIT,
        };
        let empty: Vec<TaskResult> = Vec::new();
        proof {
            assert(tasks_view(empty@) =~= Seq::<crate::model::TaskResultView>::empty());
        }
        match self.find_agent_index(agent_id) {
            Some(i) => {
                proof {
                    lemma_agent_at_index(self@, i as int);
                }
                let h = &self.agents[i].reputation_info.task_history;
                if from >= h.len() as u64 {
                    proof {
                        assert(tasks_view(h@) == self@.agent_named(
                            agent_id@,
                        ).reputation_info.task_history);
                    }
                    return empty;
                }
                let mut out: Vec<TaskResult> = Vec::new();
                let mut k: usize = from as usize;
                while k < h.len() && (out.len() as u64) < capped
                    invariant
                        from < h@.len(),
                        from as int <= k as int <= h@.len(),
                        out@.len() == k as int - from as int,
                        out@.len() <= capped,
                        out@ =~= h@.subrange(from as int, k as int),
                    decreases h@.len() - k,
                {
                    out.push(h[k].clone());
                    proof {
                        assert(out@ =~= h@.subrange(from as int, k as int + 1));
                    }
                    k = k + 1;
                }
                proof {
                    assert(tasks_view(h@) == self@.agent_named(
                        agent_id@,
                    ).reputation_info.task_history);
                    let th = tasks_view(h@);
                    let hi = vstd::math::min(th.len() as int, from as int + capped as int);
                    assert(out@.len() == hi - from as int);
                    assert(tasks_view(out@) =~= th.subrange(from as int, hi)) by {
                        assert forall|m: int| 0 <= m < out@.len() implies tasks_view(out@)[m]
                            == th.subrange(from as int, hi)[m] by {
                            assert(out@[m] == h@[from as int + m]);
                        }
                    }
                }
                out
            },
            None => empty,
        }
    }

    /// The full stored reputation history of `agent_id`, chronological,
    /// unsliced; empty for an unknown identity, never an error.
    pub fn get_agent_reputation_history(&self, agent_id: &String) -> (r: Vec<(u64, u64)>)
        requires
            self@.wf(),
        ensures
            r@ == self@.reputation_history_result(agent_id@),
    {
        match self.find_agent_index(agent_id) {
            Some(i) => {
                proof {
                    lemma_agent_at_index(self@, i as int);
                }
                clone_pairs(&self.agents[i].reputation_info.reputation_history)
            },
            None => {
                let r: Vec<(u64, u64)> = Vec::new();
                proof {
                    assert(r@ =~= Seq::<(u64, u64)>::empty());
                }
                r
            },
        }
    }

    /// Begins the two-hop synchronization chain for `agent_id`.  Hop one is
    /// the fetch of the authoritative snapshot from the reputation service;
    /// the ticket is the internally trusted origin under which the host
    /// hands whatever that fetch returns to `apply_synced_reputation` as
    /// hop two, so the second hop cannot be rejected by the external-caller
    /// gate and cannot be forged by anyone else.  The registry state is
    /// untouched; the host performs the fetch.
    pub fn sync_reputation(&self, agent_id: String) -> (r: SyncRequest)
        ensures
            r.fetch.target@ == self@.reputation_service,
            r.fetch.method@ == "get_agent_info"@,
            r.fetch.args@ == json_string_bytes(agent_id@),
            r.ticket@ == agent_id@,
    {
        let fetch_args = json_encode_id(&agent_id);
        SyncRequest {
            fetch: OutboundCall {
                target: self.reputation_contract_id.clone(),
                method: String::from_str("get_agent_info"),
                args: fetch_args,
            },
            ticket: SyncTicket { agent_id },
        }
    }
}

/// A capability minted only by `sync_reputation`: holding one proves that
/// the apply hop originates from this registry's own orchestrator, so
/// `apply_synced_reputation` checks it in place of a raw caller identity.
/// Its field is private and it carries no way to copy it, so a ticket in
/// the host's hands was minted here and authorizes a single application.
pub struct SyncTicket {
    agent_id: String,
}

impl View for SyncTicket {
    type V = Seq<char>;

    closed spec fn view(&self) -> Seq<char> {
        self.agent_id@
    }
}

impl SyncTicket {
    /// The identity whose snapshot the apply hop will replace.
    pub fn agent_id(&self) -> (r: &String)
        ensures
            r@ == self@,
    {
        &self.agent_id
    }
}

/// The two-hop synchronization chain as the orchestrator starts it: the
/// fetch for the host to send to the reputation service, and the ticket
/// under which the fetched snapshot comes back in through
/// `apply_synced_reputation`.
pub struct SyncRequest {
    pub fetch: OutboundCall,
    pub ticket: SyncTicket,
}

/// A wholesale reputation replacement keeps the registry well-formed: it
/// changes no owner, no metadata, and no index entry.
proof fn lemma_update_preserves_wf(base: RegistryView, id: Seq<char>, info: crate::model::AgentInfoView)
    requires
        base.wf(),
    ensures
        base.with_reputation(id, info).wf(),
{
    let nr = base.with_reputation(id, info);
    assert(nr.agents.len() == base.agents.len());
    assert forall|j: int| 0 <= j < base.agents.len() implies #[trigger] nr.agents[j].owner_id
        == base.agents[j].owner_id && nr.agents[j].metadata == base.agents[j].metadata by {}
    assert forall|i: int, j: int| 0 <= i < j < nr.agents.len() implies #[trigger] nr.agents[i].owner_id
        != #[trigger] nr.agents[j].owner_id by {
        assert(base.agents[i].owner_id != base.agents[j].owner_id);
    }
    assert forall|i2: int, j2: int|
        0 <= i2 < nr.skills.len() && 0 <= j2 < nr.skills[i2].members.len() implies nr.pair_supported(
        i2,
        j2,
    ) by {
        assert(base.pair_supported(i2, j2));
        let a = choose|a: int|
            0 <= a < base.agents.len() && base.agents[a].owner_id == base.skills[i2].members[j2]
                && base.agents[a].metadata.skills.contains(base.skills[i2].skill);
        assert(0 <= a < nr.agents.len() && nr.agents[a].owner_id == nr.skills[i2].members[j2]
            && nr.agents[a].metadata.skills.contains(nr.skills[i2].skill));
    }
}

} // verus!
