//! The mathematical model of the registry: ghost views of every record and
//! the state transitions the executable operations are specified against.

use vstd::prelude::*;
use vstd::math::min;

verus! {

/// Fallback number of task-history items returned when a query names no limit.
pub const DEFAULT_TASK_LIMIT: u64 = 50;

/// Hard cap on the number of task-history items one query may return.
pub const MAX_TASK_LIMIT: u64 = 100;

/// View of one task outcome mirrored from the reputation service.
pub ghost struct TaskResultView {
    pub task_id: Seq<char>,
    pub success: bool,
    pub timestamp: u64,
    pub details: Seq<char>,
}

/// View of the reputation snapshot an agent currently carries.
pub ghost struct AgentInfoView {
    pub reputation: u64,
    pub task_history: Seq<TaskResultView>,
    pub reputation_history: Seq<(u64, u64)>,
}

/// View of the metadata an agent declares at registration.
pub ghost struct AgentMetadataView {
    pub name: Seq<char>,
    pub description: Seq<char>,
    pub skills: Seq<Seq<char>>,
    pub purpose: Seq<char>,
}

/// View of one stored agent record.
pub ghost struct AgentView {
    pub owner_id: Seq<char>,
    pub metadata: AgentMetadataView,
    pub registered_at: u64,
    pub reputation_info: AgentInfoView,
}

/// View of one skill-index entry: a skill name and the identities that
/// declared it, in insertion order, each listed once.
pub ghost struct SkillEntryView {
    pub skill: Seq<char>,
    pub members: Seq<Seq<char>>,
}

/// View of the whole registry state.
pub ghost struct RegistryView {
    pub agents: Seq<AgentView>,
    pub skills: Seq<SkillEntryView>,
    pub total_agents: u64,
    pub reputation_service: Seq<char>,
}

/// The reputation snapshot a fresh registration starts from: score zero, no
/// task history, and a single reputation-history point at registration time.
pub open spec fn initial_info(now: u64) -> AgentInfoView {
    AgentInfoView {
        reputation: 0,
        task_history: Seq::empty(),
        reputation_history: seq![(now, 0u64)],
    }
}

/// The record a successful registration creates.
pub open spec fn new_agent(id: Seq<char>, now: u64, md: AgentMetadataView) -> AgentView {
    AgentView { owner_id: id, metadata: md, registered_at: now, reputation_info: initial_info(now) }
}

/// `e` with `id` appended to its members unless already present.
pub open spec fn entry_with(e: SkillEntryView, id: Seq<char>) -> SkillEntryView {
    if e.members.contains(id) {
        e
    } else {
        SkillEntryView { skill: e.skill, members: e.members.push(id) }
    }
}

/// One idempotent insertion of the pair `(skill, id)` into the index:
/// appends `id` to the entry of `skill`, creating that entry lazily.
pub open spec fn index_add_one(
    skills: Seq<SkillEntryView>,
    skill: Seq<char>,
    id: Seq<char>,
) -> Seq<SkillEntryView> {
    if exists|i: int| 0 <= i < skills.len() && skills[i].skill == skill {
        Seq::new(
            skills.len(),
            |i: int|
                if skills[i].skill == skill {
                    entry_with(skills[i], id)
                } else {
                    skills[i]
                },
        )
    } else {
        skills.push(SkillEntryView { skill: skill, members: seq![id] })
    }
}

/// The index after inserting `(skill, id)` for every skill of `to_add`, in
/// declaration order.
pub open spec fn index_add_all(
    skills: Seq<SkillEntryView>,
    to_add: Seq<Seq<char>>,
    id: Seq<char>,
) -> Seq<SkillEntryView>
    decreases to_add.len(),
{
    if to_add.len() == 0 {
        skills
    } else {
        index_add_all(index_add_one(skills, to_add[0], id), to_add.drop_first(), id)
    }
}

/// Whether the pair `(skill, member)` is present in the index.
pub open spec fn index_has(skills: Seq<SkillEntryView>, skill: Seq<char>, member: Seq<char>) -> bool {
    exists|i: int|
        0 <= i < skills.len() && skills[i].skill == skill && skills[i].members.contains(member)
}

/// The registry as deployment leaves it: no agents, an empty skill index,
/// and the given reputation-service identity.
pub open spec fn initial_registry(service: Seq<char>) -> RegistryView {
    RegistryView {
        agents: Seq::empty(),
        skills: Seq::empty(),
        total_agents: 0,
        reputation_service: service,
    }
}

/// The truncated task-history window `[offset, offset + limit)`, clipped to
/// the history itself; empty once `offset` passes the end.
pub open spec fn task_slice(h: Seq<TaskResultView>, offset: u64, limit: u64) -> Seq<TaskResultView> {
    if offset >= h.len() {
        Seq::empty()
    } else {
        h.subrange(offset as int, min(h.len() as int, offset + limit))
    }
}

/// The offset a query asked for, zero when it named none.
pub open spec fn effective_offset(from_index: Option<u64>) -> u64 {
    match from_index {
        Some(v) => v,
        None => 0,
    }
}

/// The item limit a query asked for, defaulted and capped.
pub open spec fn effective_limit(limit: Option<u64>) -> u64 {
    match limit {
        Some(v) => if v < MAX_TASK_LIMIT {
            v
        } else {
            MAX_TASK_LIMIT
        },
        None => DEFAULT_TASK_LIMIT,
    }
}

impl RegistryView {
    /// Whether an agent record for `id` exists.
    pub open spec fn has_agent(self, id: Seq<char>) -> bool {
        exists|i: int| 0 <= i < self.agents.len() && self.agents[i].owner_id == id
    }

    /// The record of the agent named `id` (meaningful only when present and
    /// owner identities are unique, as well-formedness guarantees).
    pub open spec fn agent_named(self, id: Seq<char>) -> AgentView {
        self.agents[choose|i: int| 0 <= i < self.agents.len() && self.agents[i].owner_id == id]
    }

    /// Result of the by-identity lookup.
    pub open spec fn get_result(self, id: Seq<char>) -> Option<AgentView> {
        if self.has_agent(id) {
            Some(self.agent_named(id))
        } else {
            None
        }
    }

    /// Whether the index holds an entry for `skill`.
    pub open spec fn has_skill_entry(self, skill: Seq<char>) -> bool {
        exists|i: int| 0 <= i < self.skills.len() && self.skills[i].skill == skill
    }

    /// The index entry of `skill` (meaningful only when present and skill
    /// names are unique, as well-formedness guarantees).
    pub open spec fn skill_entry(self, skill: Seq<char>) -> SkillEntryView {
        self.skills[choose|i: int| 0 <= i < self.skills.len() && self.skills[i].skill == skill]
    }

    /// Identities indexed under `skill`, in insertion order; empty for a
    /// skill nobody has declared.
    pub open spec fn skill_members(self, skill: Seq<char>) -> Seq<Seq<char>> {
        if self.has_skill_entry(skill) {
            self.skill_entry(skill).members
        } else {
            Seq::empty()
        }
    }

    /// Result of the declared-skills lookup.
    pub open spec fn skills_result(self, id: Seq<char>) -> Option<Seq<Seq<char>>> {
        if self.has_agent(id) {
            Some(self.agent_named(id).metadata.skills)
        } else {
            None
        }
    }

    /// Result of the reputation-score lookup.
    pub open spec fn reputation_result(self, id: Seq<char>) -> Option<u64> {
        if self.has_agent(id) {
            Some(self.agent_named(id).reputation_info.reputation)
        } else {
            None
        }
    }

    /// Result of the full reputation-history lookup.
    pub open spec fn reputation_history_result(self, id: Seq<char>) -> Seq<(u64, u64)> {
        if self.has_agent(id) {
            self.agent_named(id).reputation_info.reputation_history
        } else {
            Seq::empty()
        }
    }

    /// Result of the paginated task-history query.
    pub open spec fn task_history_result(
        self,
        id: Seq<char>,
        from_index: Option<u64>,
        limit: Option<u64>,
    ) -> Seq<TaskResultView> {
        if self.has_agent(id) {
            task_slice(
                self.agent_named(id).reputation_info.task_history,
                effective_offset(from_index),
                effective_limit(limit),
            )
        } else {
            Seq::empty()
        }
    }

    /// Whether a registration attempt by `caller` succeeds.
    pub open spec fn register_ok(self, caller: Seq<char>) -> bool {
        !self.has_agent(caller)
    }

    /// State after a successful registration: the record appended, every
    /// declared skill indexed, and the agent counter advanced.
    pub open spec fn spec_register(self, caller: Seq<char>, now: u64, md: AgentMetadataView) -> RegistryView {
        RegistryView {
            agents: self.agents.push(new_agent(caller, now, md)),
            skills: index_add_all(self.skills, md.skills, caller),
            total_agents: (self.total_agents + 1) as u64,
            reputation_service: self.reputation_service,
        }
    }

    /// State after a registration attempt; a repeated identity changes nothing.
    pub open spec fn register_next(self, caller: Seq<char>, now: u64, md: AgentMetadataView) -> RegistryView {
        if self.register_ok(caller) {
            self.spec_register(caller, now, md)
        } else {
            self
        }
    }

    /// Wholesale replacement of the reputation snapshot of the agent named
    /// `id`; the identity map when no such agent exists.
    pub open spec fn with_reputation(self, id: Seq<char>, info: AgentInfoView) -> RegistryView {
        RegistryView {
            agents: Seq::new(
                self.agents.len(),
                |i: int|
                    if self.agents[i].owner_id == id {
                        AgentView { reputation_info: info, ..self.agents[i] }
                    } else {
                        self.agents[i]
                    },
            ),
            ..self
        }
    }

    /// Whether `caller` may apply a reputation update: exact identity
    /// equality with the configured reputation service, nothing weaker.
    pub open spec fn update_authorized(self, caller: Seq<char>) -> bool {
        caller == self.reputation_service
    }

    /// State after a reputation-update attempt; an unauthorized caller or an
    /// unknown identity changes nothing.
    pub open spec fn update_next(self, caller: Seq<char>, id: Seq<char>, info: AgentInfoView) -> RegistryView {
        if self.update_authorized(caller) {
            self.with_reputation(id, info)
        } else {
            self
        }
    }

    /// Well-formedness of a registry state: owner identities are unique,
    /// skill names are unique, each entry lists an identity at most once,
    /// every indexed pair is backed by a registered agent that declared the
    /// skill, and the counter equals the number of stored records.
    pub open spec fn wf(self) -> bool {
        &&& distinct_owners(self.agents)
        &&& distinct_skills(self.skills)
        &&& distinct_members(self.skills)
        &&& self.index_supported()
        &&& self.total_agents == self.agents.len()
    }

    /// Every indexed pair names a registered agent that declared the skill.
    pub open spec fn index_supported(self) -> bool {
        forall|i: int, j: int|
            0 <= i < self.skills.len() && 0 <= j < self.skills[i].members.len()
                ==> self.pair_supported(i, j)
    }

    /// The indexed pair at entry `i`, position `j` names a registered agent
    /// whose declared metadata contains the entry's skill.
    pub open spec fn pair_supported(self, i: int, j: int) -> bool {
        exists|a: int|
            0 <= a < self.agents.len() && self.agents[a].owner_id == self.skills[i].members[j]
                && self.agents[a].metadata.skills.contains(self.skills[i].skill)
    }
}

/// Owner identities are pairwise distinct.
pub open spec fn distinct_owners(agents: Seq<AgentView>) -> bool {
    forall|i: int, j: int|
        0 <= i < j < agents.len() ==> #[trigger] agents[i].owner_id != #[trigger] agents[j].owner_id
}

/// Skill names are pairwise distinct.
pub open spec fn distinct_skills(skills: Seq<SkillEntryView>) -> bool {
    forall|i: int, j: int|
        0 <= i < j < skills.len() ==> #[trigger] skills[i].skill != #[trigger] skills[j].skill
}

/// Each entry lists an identity at most once.
pub open spec fn distinct_members(skills: Seq<SkillEntryView>) -> bool {
    forall|i: int, j: int, k: int|
        0 <= i < skills.len() && 0 <= j < k < skills[i].members.len()
            ==> #[trigger] skills[i].members[j] != #[trigger] skills[i].members[k]
}

/// An index found by scanning names the agent that `agent_named` denotes:
/// with unique owners, any matching position is the record of that identity.
pub proof fn lemma_agent_at_index(reg: RegistryView, i: int)
    requires
        distinct_owners(reg.agents),
        0 <= i < reg.agents.len(),
    ensures
        reg.has_agent(reg.agents[i].owner_id),
        reg.agent_named(reg.agents[i].owner_id) == reg.agents[i],
{
    let id = reg.agents[i].owner_id;
    assert(reg.has_agent(id));
    let j = choose|j: int| 0 <= j < reg.agents.len() && reg.agents[j].owner_id == id;
    if i < j {
        assert(reg.agents[i].owner_id != reg.agents[j].owner_id);
    } else if j < i {
        assert(reg.agents[j].owner_id != reg.agents[i].owner_id);
    }
}

/// The same, for skill entries: with unique skill names, any matching
/// position is the entry that `skill_entry` denotes.
pub proof fn lemma_skill_at_index(reg: RegistryView, i: int)
    requires
        distinct_skills(reg.skills),
        0 <= i < reg.skills.len(),
    ensures
        reg.has_skill_entry(reg.skills[i].skill),
        reg.skill_entry(reg.skills[i].skill) == reg.skills[i],
{
    let sk = reg.skills[i].skill;
    assert(reg.has_skill_entry(sk));
    let j = choose|j: int| 0 <= j < reg.skills.len() && reg.skills[j].skill == sk;
    if i < j {
        assert(reg.skills[i].skill != reg.skills[j].skill);
    } else if j < i {
        assert(reg.skills[j].skill != reg.skills[i].skill);
    }
}

/// What one idempotent insertion does to the index: distinctness is kept,
/// the inserted pair is present, old pairs persist, and every pair of the
/// result is an old pair or the inserted one.
pub proof fn lemma_index_add_one_props(skills: Seq<SkillEntryView>, skill: Seq<char>, id: Seq<char>)
    requires
        distinct_skills(skills),
        distinct_members(skills),
    ensures
        ({
            let r = index_add_one(skills, skill, id);
            &&& distinct_skills(r)
            &&& distinct_members(r)
            &&& index_has(r, skill, id)
            &&& forall|sk: Seq<char>, m: Seq<char>|
                #[trigger] index_has(skills, sk, m) ==> index_has(r, sk, m)
            &&& forall|i2: int, j2: int|
                0 <= i2 < r.len() && 0 <= j2 < r[i2].members.len()
                    ==> index_has(skills, r[i2].skill, r[i2].members[j2])
                        || (r[i2].skill == skill && r[i2].members[j2] == id)
        }),
{
    let r = index_add_one(skills, skill, id);
    if exists|i: int| 0 <= i < skills.len() && skills[i].skill == skill {
        assert(r.len() == skills.len());
        assert(forall|i: int| 0 <= i < skills.len() ==> #[trigger] r[i].skill == skills[i].skill);
        let i0 = choose|i: int| 0 <= i < skills.len() && skills[i].skill == skill;
        assert(r[i0] == entry_with(skills[i0], id));
        if skills[i0].members.contains(id) {
            let j0 = choose|j: int| 0 <= j < skills[i0].members.len() && skills[i0].members[j] == id;
            assert(r[i0].members[j0] == id);
            assert(r[i0].members.contains(id));
        } else {
            assert(r[i0].members == skills[i0].members.push(id));
            assert(r[i0].members[skills[i0].members.len() as int] == id);
            assert(r[i0].members.contains(id));
        }
        assert(index_has(r, skill, id));
        assert(distinct_members(r)) by {
            assert forall|i: int, j: int, k: int|
                0 <= i < r.len() && 0 <= j < k < r[i].members.len() implies #[trigger] r[i].members[j]
                != #[trigger] r[i].members[k] by {
                if skills[i].skill == skill && !skills[i].members.contains(id) {
                    assert(r[i].members == skills[i].members.push(id));
                    if k == skills[i].members.len() {
                        assert(r[i].members[j] == skills[i].members[j]);
                        assert(skills[i].members.contains(skills[i].members[j]));
                    } else {
                        assert(r[i].members[j] == skills[i].members[j]);
                        assert(r[i].members[k] == skills[i].members[k]);
                    }
                } else {
                    assert(r[i].members == skills[i].members);
                }
            }
        }
        assert forall|sk: Seq<char>, m: Seq<char>| #[trigger] index_has(skills, sk, m) implies index_has(
            r,
            sk,
            m,
        ) by {
            let i1 = choose|i1: int|
                0 <= i1 < skills.len() && skills[i1].skill == sk && skills[i1].members.contains(m);
            let j1 = choose|j1: int|
                0 <= j1 < skills[i1].members.len() && skills[i1].members[j1] == m;
            if skills[i1].skill == skill && !skills[i1].members.contains(id) {
                assert(r[i1].members == skills[i1].members.push(id));
                assert(r[i1].members[j1] == m);
            } else {
                assert(r[i1].members == skills[i1].members);
            }
            assert(r[i1].members.contains(m));
        }
        assert forall|i2: int, j2: int|
            0 <= i2 < r.len() && 0 <= j2 < r[i2].members.len() implies index_has(
            skills,
            r[i2].skill,
            r[i2].members[j2],
        ) || (r[i2].skill == skill && r[i2].members[j2] == id) by {
            if skills[i2].skill == skill && !skills[i2].members.contains(id) {
                assert(r[i2].members == skills[i2].members.push(id));
                if j2 < skills[i2].members.len() {
                    assert(skills[i2].members.contains(skills[i2].members[j2]));
                    assert(index_has(skills, r[i2].skill, r[i2].members[j2]));
                }
            } else {
                assert(r[i2].members == skills[i2].members);
                assert(skills[i2].members.contains(skills[i2].members[j2]));
                assert(index_has(skills, r[i2].skill, r[i2].members[j2]));
            }
        }
    } else {
        assert(r == skills.push(SkillEntryView { skill: skill, members: seq![id] }));
        assert(r[skills.len() as int].members[0] == id);
        assert(r[skills.len() as int].members.contains(id));
        assert(index_has(r, skill, id));
        assert(distinct_skills(r)) by {
            assert forall|i: int, j: int| 0 <= i < j < r.len() implies #[trigger] r[i].skill
                != #[trigger] r[j].skill by {
                if j == skills.len() {
                    if r[i].skill == skill {
                        assert(skills[i].skill == skill);
                    }
                }
            }
        }
        assert forall|sk: Seq<char>, m: Seq<char>| #[trigger] index_has(skills, sk, m) implies index_has(
            r,
            sk,
            m,
        ) by {
            let i1 = choose|i1: int|
                0 <= i1 < skills.len() && skills[i1].skill == sk && skills[i1].members.contains(m);
            assert(r[i1] == skills[i1]);
        }
        assert forall|i2: int, j2: int|
            0 <= i2 < r.len() && 0 <= j2 < r[i2].members.len() implies index_has(
            skills,
            r[i2].skill,
            r[i2].members[j2],
        ) || (r[i2].skill == skill && r[i2].members[j2] == id) by {
            if i2 < skills.len() {
                assert(r[i2] == skills[i2]);
                assert(skills[i2].members.contains(skills[i2].members[j2]));
                assert(index_has(skills, r[i2].skill, r[i2].members[j2]));
            } else {
                assert(r[i2].members == seq![id]);
                assert(r[i2].members[j2] == id);
            }
        }
    }
}

/// What indexing a whole skill list does: distinctness is kept, old pairs
/// persist, every declared skill now lists `id`, and every pair of the
/// result is an old pair or one of the inserted ones.
pub proof fn lemma_index_add_all_props(skills: Seq<SkillEntryView>, to_add: Seq<Seq<char>>, id: Seq<char>)
    requires
        distinct_skills(skills),
        distinct_members(skills),
    ensures
        ({
            let r = index_add_all(skills, to_add, id);
            &&& distinct_skills(r)
            &&& distinct_members(r)
            &&& forall|sk: Seq<char>, m: Seq<char>|
                #[trigger] index_has(skills, sk, m) ==> index_has(r, sk, m)
            &&& forall|sk: Seq<char>| to_add.contains(sk) ==> #[trigger] index_has(r, sk, id)
            &&& forall|i2: int, j2: int|
                0 <= i2 < r.len() && 0 <= j2 < r[i2].members.len()
                    ==> index_has(skills, r[i2].skill, r[i2].members[j2])
                        || (to_add.contains(r[i2].skill) && r[i2].members[j2] == id)
        }),
    decreases to_add.len(),
{
    let r = index_add_all(skills, to_add, id);
    if to_add.len() == 0 {
        assert forall|i2: int, j2: int|
            0 <= i2 < r.len() && 0 <= j2 < r[i2].members.len() implies index_has(
            skills,
            r[i2].skill,
            r[i2].members[j2],
        ) || (to_add.contains(r[i2].skill) && r[i2].members[j2] == id) by {
            assert(skills[i2].members.contains(skills[i2].members[j2]));
        }
    } else {
        let s1 = index_add_one(skills, to_add[0], id);
        let rest = to_add.drop_first();
        lemma_index_add_one_props(skills, to_add[0], id);
        lemma_index_add_all_props(s1, rest, id);
        assert(r == index_add_all(s1, rest, id));
        assert forall|sk: Seq<char>| to_add.contains(sk) implies #[trigger] index_has(r, sk, id) by {
            let idx = choose|idx: int| 0 <= idx < to_add.len() && to_add[idx] == sk;
            if idx == 0 {
                assert(index_has(s1, sk, id));
                assert(index_has(r, sk, id));
            } else {
                assert(rest[idx - 1] == sk);
                assert(rest.contains(sk));
            }
        }
        assert forall|i2: int, j2: int|
            0 <= i2 < r.len() && 0 <= j2 < r[i2].members.len() implies index_has(
            skills,
            r[i2].skill,
            r[i2].members[j2],
        ) || (to_add.contains(r[i2].skill) && r[i2].members[j2] == id) by {
            let sk = r[i2].skill;
            let m = r[i2].members[j2];
            if index_has(s1, sk, m) {
                let i1 = choose|i1: int|
                    0 <= i1 < s1.len() && s1[i1].skill == sk && s1[i1].members.contains(m);
                let j1 = choose|j1: int| 0 <= j1 < s1[i1].members.len() && s1[i1].members[j1] == m;
                if !(index_has(skills, sk, m)) {
                    assert(s1[i1].skill == to_add[0] && s1[i1].members[j1] == id);
                    assert(to_add.contains(sk)) by {
                        assert(to_add[0] == sk);
                    }
                }
            } else {
                assert(rest.contains(sk) && m == id);
                let idx = choose|idx: int| 0 <= idx < rest.len() && rest[idx] == sk;
                assert(to_add[idx + 1] == sk);
                assert(to_add.contains(sk));
            }
        }
    }
}

/// Indexing a list and then one more skill is indexing the extended list.
pub proof fn lemma_index_add_all_snoc(
    skills: Seq<SkillEntryView>,
    prefix: Seq<Seq<char>>,
    x: Seq<char>,
    id: Seq<char>,
)
    ensures
        index_add_all(skills, prefix.push(x), id) == index_add_one(
            index_add_all(skills, prefix, id),
            x,
            id,
        ),
    decreases prefix.len(),
{
    let full = prefix.push(x);
    if prefix.len() == 0 {
        assert(full[0] == x);
        assert(full.drop_first() =~= Seq::<Seq<char>>::empty());
        assert(index_add_all(skills, full, id) == index_add_all(
            index_add_one(skills, x, id),
            full.drop_first(),
            id,
        ));
        assert(index_add_all(index_add_one(skills, x, id), full.drop_first(), id)
            == index_add_one(skills, x, id));
        assert(index_add_all(skills, prefix, id) == skills);
    } else {
        let s1 = index_add_one(skills, prefix[0], id);
        assert(full[0] == prefix[0]);
        assert(full.drop_first() =~= prefix.drop_first().push(x));
        assert(index_add_all(skills, full, id) == index_add_all(s1, full.drop_first(), id));
        lemma_index_add_all_snoc(s1, prefix.drop_first(), x, id);
        assert(index_add_all(skills, prefix, id) == index_add_all(s1, prefix.drop_first(), id));
    }
}

} // verus!
