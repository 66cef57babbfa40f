use agent_registry::registry::AgentRegistration;
use agent_registry::types::{AgentInfo, AgentMetadata, TaskResult};

fn test_metadata() -> AgentMetadata {
    AgentMetadata {
        name: "Test Agent".to_string(),
        description: "Test description".to_string(),
        skills: vec!["Rust".to_string()],
        purpose: "Test purpose".to_string(),
    }
}

fn task(id: &str, success: bool, timestamp: u64, details: &str) -> TaskResult {
    TaskResult {
        task_id: id.to_string(),
        success,
        timestamp,
        details: details.to_string(),
    }
}

#[test]
fn test_get_agent_reputation_history() {
    let reputation_contract = "alice".to_string();
    let agent_account = "bob".to_string();
    let t0: u64 = 1_600_000_000_000_000;

    let mut contract = AgentRegistration::new(reputation_contract.clone());

    contract.register_agent(agent_account.clone(), t0, test_metadata()).unwrap();

    let timestamps = vec![t0, t0 + 1000, t0 + 2000];
    let mut accumulated_history = vec![(t0, 0)];

    for (i, timestamp) in timestamps.iter().enumerate() {
        let reputation = (i as u64 + 1) * 10;
        accumulated_history.push((*timestamp, reputation));

        let new_reputation_info = AgentInfo {
            reputation,
            task_history: vec![],
            reputation_history: accumulated_history.clone(),
        };

        contract
            .update_agent_reputation(reputation_contract.clone(), agent_account.clone(), new_reputation_info)
            .unwrap();
    }

    let history = contract.get_agent_reputation_history(&agent_account);
    assert_eq!(history.len(), 4);
    assert_eq!(history[0].1, 0);
    assert_eq!(history[1].1, 10);
    assert_eq!(history[2].1, 20);
    assert_eq!(history[3].1, 30);
}

#[test]
fn test_get_agent_task_history() {
    let reputation_contract = "alice".to_string();
    let agent_account = "bob".to_string();
    let t0: u64 = 1_600_000_000_000_000;

    let mut contract = AgentRegistration::new(reputation_contract.clone());

    contract.register_agent(agent_account.clone(), t0, test_metadata()).unwrap();

    let tasks = vec![
        task("task1", true, t0, "First task"),
        task("task2", false, t0 + 1000, "Second task"),
    ];

    let new_reputation_info = AgentInfo {
        reputation: 50,
        task_history: tasks.clone(),
        reputation_history: vec![],
    };

    contract
        .update_agent_reputation(reputation_contract.clone(), agent_account.clone(), new_reputation_info)
        .unwrap();

    let history = contract.get_agent_task_history(&agent_account, None, None);
    assert_eq!(history.len(), 2);
    assert_eq!(history[0].task_id, "task1");
    assert_eq!(history[1].task_id, "task2");
    assert!(history[0].success);
    assert!(!history[1].success);
}

#[test]
fn test_get_agent_task_history_pagination() {
    let reputation_contract = "alice".to_string();
    let agent_account = "bob".to_string();
    let t0: u64 = 1_600_000_000_000_000;

    let mut contract = AgentRegistration::new(reputation_contract.clone());

    contract.register_agent(agent_account.clone(), t0, test_metadata()).unwrap();

    let mut tasks = Vec::new();
    for i in 0..10 {
        tasks.push(task(
            &format!("task{}", i),
            true,
            t0 + (i as u64 * 1000),
            &format!("Task {}", i),
        ));
    }

    let new_reputation_info = AgentInfo {
        reputation: 50,
        task_history: tasks,
        reputation_history: vec![],
    };

    contract
        .update_agent_reputation(reputation_contract.clone(), agent_account.clone(), new_reputation_info)
        .unwrap();

    let history = contract.get_agent_task_history(&agent_account, Some(5), Some(3));
    assert_eq!(history.len(), 3);
    assert_eq!(history[0].task_id, "task5");
    assert_eq!(history[1].task_id, "task6");
    assert_eq!(history[2].task_id, "task7");
}

#[test]
fn task_history_defaults_and_cap() {
    let service = "alice".to_string();
    let agent = "bob".to_string();
    let mut contract = AgentRegistration::new(service.clone());
    contract.register_agent(agent.clone(), 0, test_metadata()).unwrap();

    let mut tasks = Vec::new();
    for i in 0..120 {
        tasks.push(task(&format!("task{}", i), true, i as u64, "work"));
    }
    contract
        .update_agent_reputation(
            service.clone(),
            agent.clone(),
            AgentInfo { reputation: 1, task_history: tasks, reputation_history: vec![] },
        )
        .unwrap();

    // No limit named: fifty items from the start.
    let window = contract.get_agent_task_history(&agent, None, None);
    assert_eq!(window.len(), 50);
    assert_eq!(window[0].task_id, "task0");
    assert_eq!(window[49].task_id, "task49");

    // A limit above the cap is clipped to one hundred.
    let window = contract.get_agent_task_history(&agent, None, Some(101));
    assert_eq!(window.len(), 100);
    assert_eq!(window[99].task_id, "task99");

    // An offset past the end yields an empty window, not an error.
    let window = contract.get_agent_task_history(&agent, Some(120), Some(10));
    assert!(window.is_empty());

    // A window clipped by the end of the history.
    let window = contract.get_agent_task_history(&agent, Some(115), Some(10));
    assert_eq!(window.len(), 5);
    assert_eq!(window[0].task_id, "task115");
    assert_eq!(window[4].task_id, "task119");
}

#[test]
fn lookups_for_unknown_identities_and_skills() {
    let contract = AgentRegistration::new("alice".to_string());

    assert!(contract.get_agent(&"nobody".to_string()).is_none());
    assert!(contract.get_agent_skills(&"nobody".to_string()).is_none());
    assert_eq!(contract.get_agent_reputation(&"nobody".to_string()), None);
    assert!(contract.get_agent_reputation_history(&"nobody".to_string()).is_empty());
    assert!(contract.get_agent_task_history(&"nobody".to_string(), None, None).is_empty());
    assert!(contract.get_agents_by_skill(&"Rust".to_string()).is_empty());
    assert_eq!(contract.get_total_agents(), 0);
}

#[test]
fn repeated_reads_return_identical_results() {
    let mut contract = AgentRegistration::new("alice".to_string());
    contract.register_agent("bob".to_string(), 3, test_metadata()).unwrap();

    let first_get = contract.get_agent(&"bob".to_string()).unwrap();
    let second_get = contract.get_agent(&"bob".to_string()).unwrap();
    assert_eq!(first_get.owner_id, second_get.owner_id);
    assert_eq!(first_get.metadata.name, second_get.metadata.name);
    assert_eq!(first_get.registered_at, second_get.registered_at);
    assert_eq!(first_get.reputation_info.reputation, second_get.reputation_info.reputation);

    let first_skill = contract.get_agents_by_skill(&"Rust".to_string());
    let second_skill = contract.get_agents_by_skill(&"Rust".to_string());
    assert_eq!(first_skill, second_skill);
}
