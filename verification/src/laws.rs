//! The registry's cross-operation guarantees, stated and proved over the
//! model that the executable operations' contracts are written against.

use vstd::prelude::*;
use vstd::math::min;

use crate::model::{
    effective_limit, effective_offset, index_has, lemma_index_add_all_props, lemma_skill_at_index,
    AgentInfoView, AgentMetadataView, AgentView, RegistryView, TaskResultView,
};

verus! {

/// Registering the same identity twice: the second attempt fails, and the
/// state after it is identical to the state after the first call alone.
pub proof fn lemma_register_twice(
    reg: RegistryView,
    caller: Seq<char>,
    now1: u64,
    md1: AgentMetadataView,
    now2: u64,
    md2: AgentMetadataView,
)
    requires
        reg.register_ok(caller),
    ensures
        ({
            let s1 = reg.register_next(caller, now1, md1);
            &&& !s1.register_ok(caller)
            &&& s1.register_next(caller, now2, md2) == s1
        }),
{
    let s1 = reg.register_next(caller, now1, md1);
    assert(s1.agents[reg.agents.len() as int].owner_id == caller);
    assert(s1.has_agent(caller));
}

/// Immediately after a successful registration, every skill the agent
/// declared lists its identity in the index — and, the identity being new
/// to a well-formed registry, no skill listed it before.
pub proof fn lemma_skill_index_after_register(
    reg: RegistryView,
    caller: Seq<char>,
    now: u64,
    md: AgentMetadataView,
    skill: Seq<char>,
)
    requires
        reg.wf(),
        reg.register_ok(caller),
        md.skills.contains(skill),
    ensures
        reg.spec_register(caller, now, md).skill_members(skill).contains(caller),
        !reg.skill_members(skill).contains(caller),
{
    let nr = reg.spec_register(caller, now, md);
    lemma_index_add_all_props(reg.skills, md.skills, caller);
    assert(index_has(nr.skills, skill, caller));
    let i1 = choose|i1: int|
        0 <= i1 < nr.skills.len() && nr.skills[i1].skill == skill && nr.skills[i1].members.contains(
            caller,
        );
    lemma_skill_at_index(nr, i1);
    assert(nr.skill_members(skill).contains(caller));
    if reg.skill_members(skill).contains(caller) {
        let j = choose|j: int| 0 <= j < reg.skills.len() && reg.skills[j].skill == skill;
        lemma_skill_at_index(reg, j);
        assert(reg.skill_entry(skill) == reg.skills[j]);
        let m = choose|m: int|
            0 <= m < reg.skills[j].members.len() && reg.skills[j].members[m] == caller;
        assert(reg.pair_supported(j, m));
        let a = choose|a: int|
            0 <= a < reg.agents.len() && reg.agents[a].owner_id == caller
                && reg.agents[a].metadata.skills.contains(skill);
        assert(reg.has_agent(caller));
    }
}

/// A reputation update from any identity other than the configured
/// reputation service leaves the registry state untouched, whatever the
/// payload carries.
pub proof fn lemma_unauthorized_update_unchanged(
    reg: RegistryView,
    caller: Seq<char>,
    id: Seq<char>,
    info: AgentInfoView,
)
    requires
        caller != reg.reputation_service,
    ensures
        reg.update_next(caller, id, info) == reg,
{
}

/// The task-history window of a registered agent holds exactly
/// `min(limit, len - offset)` items, the limit defaulted and capped — zero
/// once the offset passes the end — each one the stored item at its offset
/// position, in the stored chronological order.
pub proof fn lemma_task_history_window(
    reg: RegistryView,
    id: Seq<char>,
    from_index: Option<u64>,
    limit: Option<u64>,
)
    requires
        reg.has_agent(id),
    ensures
        ({
            let h = reg.agent_named(id).reputation_info.task_history;
            let offset = effective_offset(from_index);
            let cap = effective_limit(limit);
            let w = reg.task_history_result(id, from_index, limit);
            &&& offset >= h.len() ==> w == Seq::<TaskResultView>::empty()
            &&& offset < h.len() ==> w.len() == min(cap as int, h.len() - offset)
            &&& forall|m: int| 0 <= m < w.len() ==> #[trigger] w[m] == h[offset + m]
        }),
{
}

/// The orchestrator's trusted second hop applies exactly what a direct,
/// authorized update from the reputation service itself would: the
/// authorization gate provably admits the synchronization chain.
pub proof fn lemma_sync_apply_matches_authorized_update(
    reg: RegistryView,
    id: Seq<char>,
    info: AgentInfoView,
)
    ensures
        reg.with_reputation(id, info) == reg.update_next(reg.reputation_service, id, info),
{
}

/// The registration counter never decreases: a registration attempt either
/// advances it by one or leaves it alone, and a reputation update never
/// touches it.
pub proof fn lemma_total_agents_monotonic(
    reg: RegistryView,
    caller: Seq<char>,
    now: u64,
    md: AgentMetadataView,
    id: Seq<char>,
    info: AgentInfoView,
)
    requires
        reg.total_agents < u64::MAX,
    ensures
        reg.register_next(caller, now, md).total_agents >= reg.total_agents,
        reg.update_next(caller, id, info).total_agents == reg.total_agents,
{
}

/// Reads are idempotent: with no mutation in between, two lookups of the
/// same identity, and two lookups of the same skill, return equal results.
pub proof fn lemma_queries_idempotent(
    reg: RegistryView,
    id: Seq<char>,
    skill: Seq<char>,
    r1: Option<AgentView>,
    r2: Option<AgentView>,
    m1: Seq<Seq<char>>,
    m2: Seq<Seq<char>>,
)
    requires
        r1 == reg.get_result(id),
        r2 == reg.get_result(id),
        m1 == reg.skill_members(skill),
        m2 == reg.skill_members(skill),
    ensures
        r1 == r2,
        m1 == m2,
{
}

} // verus!
