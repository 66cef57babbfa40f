use agent_registry::registry::AgentRegistration;
use agent_registry::types::{AgentMetadata, RegistryError};

fn metadata(name: &str, description: &str, skills: Vec<&str>, purpose: &str) -> AgentMetadata {
    AgentMetadata {
        name: name.to_string(),
        description: description.to_string(),
        skills: skills.into_iter().map(|s| s.to_string()).collect(),
        purpose: purpose.to_string(),
    }
}

#[test]
fn test_registration_with_reputation() {
    let reputation_contract = "alice".to_string();
    let agent_account = "bob".to_string();

    let mut contract = AgentRegistration::new(reputation_contract.clone());

    let metadata = metadata("Test Agent", "Test Description", vec!["Rust"], "Testing");

    contract.register_agent(agent_account.clone(), 0, metadata).unwrap();

    let agent = contract.get_agent(&agent_account).unwrap();
    assert_eq!(agent.reputation_info.reputation, 0);
    assert_eq!(agent.reputation_info.task_history.len(), 0);
    assert_eq!(agent.reputation_info.reputation_history.len(), 1);
}

#[test]
fn test_register_agent_with_reputation() {
    let reputation_contract = "alice".to_string();
    let agent_account = "bob".to_string();

    let mut contract = AgentRegistration::new(reputation_contract.clone());

    contract
        .register_agent(
            agent_account.clone(),
            1_600_000_000_000_000,
            metadata(
                "Test Agent",
                "Test description",
                vec!["Rust", "Smart Contracts"],
                "Test purpose",
            ),
        )
        .unwrap();

    let agent = contract.get_agent(&agent_account).unwrap();
    assert_eq!(agent.metadata.name, "Test Agent");
    assert_eq!(agent.reputation_info.reputation, 0);
    assert_eq!(agent.reputation_info.task_history.len(), 0);
    assert_eq!(agent.reputation_info.reputation_history.len(), 1);
}

#[test]
fn register_twice_fails_and_leaves_state_unchanged() {
    let reputation_contract = "alice".to_string();
    let agent_account = "bob".to_string();

    let mut contract = AgentRegistration::new(reputation_contract.clone());

    contract
        .register_agent(
            agent_account.clone(),
            10,
            metadata("Test Agent", "Test description", vec!["Rust"], "Test purpose"),
        )
        .unwrap();

    let total_before = contract.get_total_agents();
    let agent_before = contract.get_agent(&agent_account).unwrap();
    let by_skill_before = contract.get_agents_by_skill(&"Rust".to_string());

    let second = contract.register_agent(
        agent_account.clone(),
        20,
        metadata("Other Agent", "Other description", vec!["Go"], "Other purpose"),
    );
    assert_eq!(second.err().unwrap(), RegistryError::AlreadyRegistered);

    assert_eq!(contract.get_total_agents(), total_before);
    let agent_after = contract.get_agent(&agent_account).unwrap();
    assert_eq!(agent_after.metadata.name, agent_before.metadata.name);
    assert_eq!(agent_after.registered_at, agent_before.registered_at);
    assert_eq!(contract.get_agents_by_skill(&"Rust".to_string()), by_skill_before);
    assert!(contract.get_agents_by_skill(&"Go".to_string()).is_empty());
}

#[test]
fn register_scenario_indexes_skills_and_counts() {
    let mut contract = AgentRegistration::new("reputation.service".to_string());

    // Before registration the index lists nobody under the declared skills.
    assert!(contract.get_agents_by_skill(&"nlp".to_string()).is_empty());
    assert!(contract.get_agents_by_skill(&"search".to_string()).is_empty());

    contract
        .register_agent(
            "alice".to_string(),
            77,
            metadata("Alice", "An agent", vec!["nlp", "search"], "Answering"),
        )
        .unwrap();

    assert_eq!(contract.get_agents_by_skill(&"nlp".to_string()), vec!["alice".to_string()]);
    assert_eq!(contract.get_agents_by_skill(&"search".to_string()), vec!["alice".to_string()]);
    assert_eq!(contract.get_total_agents(), 1);
    assert_eq!(contract.get_agent_reputation(&"alice".to_string()), Some(0));
    assert_eq!(contract.get_agent_reputation_history(&"alice".to_string()), vec![(77, 0)]);
}

#[test]
fn register_effects_carry_encoded_caller() {
    let mut contract = AgentRegistration::new("alice".to_string());

    let effects = contract
        .register_agent(
            "bob".to_string(),
            0,
            metadata("Test Agent", "Test description", vec!["Rust"], "Test purpose"),
        )
        .unwrap();

    let expected = serde_json::to_vec(&"bob".to_string()).unwrap();
    assert_eq!(expected, b"\"bob\"".to_vec());
    assert_eq!(effects.balance_check.args, expected);
    assert_eq!(effects.balance_check.target, "itlx.token.near");
    assert_eq!(effects.balance_check.method, "ft_balance_of");
    assert_eq!(effects.reputation_init.args, expected);
    assert_eq!(effects.reputation_init.target, "alice");
    assert_eq!(effects.reputation_init.method, "initialize_agent");
}

#[test]
fn duplicate_declared_skills_index_once() {
    let mut contract = AgentRegistration::new("alice".to_string());

    contract
        .register_agent(
            "bob".to_string(),
            5,
            metadata("Test Agent", "Test description", vec!["Rust", "Rust"], "Test purpose"),
        )
        .unwrap();

    // The stored metadata keeps the duplicate; the index lists the agent once.
    assert_eq!(
        contract.get_agent_skills(&"bob".to_string()).unwrap(),
        vec!["Rust".to_string(), "Rust".to_string()]
    );
    assert_eq!(contract.get_agents_by_skill(&"Rust".to_string()), vec!["bob".to_string()]);
}

#[test]
fn shared_skill_lists_agents_in_registration_order() {
    let mut contract = AgentRegistration::new("alice".to_string());

    contract
        .register_agent(
            "bob".to_string(),
            1,
            metadata("Bob", "First", vec!["Rust"], "Testing"),
        )
        .unwrap();
    contract
        .register_agent(
            "charlie".to_string(),
            2,
            metadata("Charlie", "Second", vec!["Rust"], "Testing"),
        )
        .unwrap();

    assert_eq!(
        contract.get_agents_by_skill(&"Rust".to_string()),
        vec!["bob".to_string(), "charlie".to_string()]
    );
    assert_eq!(contract.get_total_agents(), 2);
}
