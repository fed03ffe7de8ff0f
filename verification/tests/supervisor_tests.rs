use std::sync::Arc;

use opencode_core::supervisor::{
    create_supervisor, AgentStatus, AgentSupervisor, DefaultPersonaValidator, PersonaValidator,
};

#[test]
fn test_spawn_agent_success() {
    let mut supervisor = create_supervisor();

    let result = supervisor.spawn("alice", "rusty");
    assert!(result.is_ok());

    let agents = supervisor.list();
    assert_eq!(agents.len(), 1);
    assert_eq!(agents[0].id, "alice");
    assert_eq!(agents[0].persona, "rusty");
    assert!(matches!(agents[0].status, AgentStatus::Running));
    assert_eq!(agents[0].branch_name, "agent/alice");
}

#[test]
fn test_spawn_agent_duplicate_id() {
    let mut supervisor = create_supervisor();

    supervisor.spawn("alice", "rusty").unwrap();

    let result = supervisor.spawn("alice", "security-expert");
    assert!(result.is_err());
    assert!(result.unwrap_err().message().contains("already exists"));

    assert_eq!(supervisor.list().len(), 1);
}

#[test]
fn test_spawn_agent_invalid_persona() {
    let mut supervisor = create_supervisor();

    let result = supervisor.spawn("alice", "invalid-persona");
    assert!(result.is_err());
    let error_msg = result.unwrap_err().message();
    assert!(error_msg.contains("not found") || error_msg.contains("invalid persona"));

    assert_eq!(supervisor.list().len(), 0);
}

#[test]
fn test_stop_agent_success() {
    let mut supervisor = create_supervisor();

    supervisor.spawn("alice", "rusty").unwrap();
    assert_eq!(supervisor.running_count(), 1);

    let result = supervisor.stop("alice");
    assert!(result.is_ok());

    let agent = supervisor.get("alice").unwrap();
    assert!(matches!(agent.status, AgentStatus::Stopped));
    assert_eq!(supervisor.running_count(), 0);
}

#[test]
fn test_stop_agent_not_found() {
    let mut supervisor = create_supervisor();

    let result = supervisor.stop("nonexistent");
    assert!(result.is_err());
    assert!(result.unwrap_err().message().contains("not found"));
}

#[test]
fn test_stop_agent_not_running() {
    let mut supervisor = create_supervisor();

    supervisor.spawn("alice", "rusty").unwrap();
    supervisor.stop("alice").unwrap();

    let result = supervisor.stop("alice");
    assert!(result.is_err());
    assert!(result.unwrap_err().message().contains("not running"));
}

#[test]
fn test_concurrent_agent_spawning() {
    let mut supervisor = create_supervisor();

    supervisor.spawn("alice", "rusty").unwrap();
    supervisor.spawn("bob", "security-expert").unwrap();

    let agents = supervisor.list();
    assert_eq!(agents.len(), 2);
    assert_eq!(supervisor.running_count(), 2);

    let alice = agents.iter().find(|a| a.id == "alice").unwrap();
    let bob = agents.iter().find(|a| a.id == "bob").unwrap();
    assert_eq!(alice.branch_name, "agent/alice");
    assert_eq!(bob.branch_name, "agent/bob");
    assert_ne!(alice.branch_name, bob.branch_name);
}

#[test]
fn test_agent_lifecycle_management() {
    let mut supervisor = create_supervisor();

    supervisor.spawn("alice", "rusty").unwrap();
    supervisor.spawn("bob", "security-expert").unwrap();

    assert_eq!(supervisor.running_count(), 2);
    assert_eq!(supervisor.list().len(), 2);

    supervisor.stop("alice").unwrap();
    assert_eq!(supervisor.running_count(), 1);
    assert_eq!(supervisor.list().len(), 2);

    supervisor.stop("bob").unwrap();
    assert_eq!(supervisor.running_count(), 0);
    assert_eq!(supervisor.list().len(), 2);
}

#[test]
fn test_update_agent_status() {
    let mut supervisor = create_supervisor();

    supervisor.spawn("alice", "rusty").unwrap();

    let failed_status = AgentStatus::Failed("Test error".to_string());
    supervisor.update_agent_status("alice", failed_status).unwrap();

    let agent = supervisor.get("alice").unwrap();
    assert!(matches!(&agent.status, AgentStatus::Failed(m) if m == "Test error"));
    assert_eq!(supervisor.running_count(), 0);
}

#[test]
fn test_persona_validator() {
    let validator = DefaultPersonaValidator;

    assert!(validator.validate_persona("rusty").is_ok());
    assert!(validator.validate_persona("security-expert").is_ok());

    assert!(validator.validate_persona("").is_err());
    assert!(validator.validate_persona("invalid").is_err());
}

#[test]
fn test_register_and_unregister_agent() {
    let mut supervisor = create_supervisor();

    supervisor.register_agent("w-1".to_string()).unwrap();
    assert!(matches!(supervisor.get("w-1").unwrap().status, AgentStatus::Starting));
    assert_eq!(supervisor.get("w-1").unwrap().branch_name, "agent/w-1");

    let dup = supervisor.register_agent("w-1".to_string());
    assert!(dup.is_err());

    supervisor.unregister_agent("w-1").unwrap();
    assert!(supervisor.get("w-1").is_none());
    assert!(supervisor.unregister_agent("w-1").is_err());
}

#[test]
fn test_health_check_counts() {
    let mut supervisor = create_supervisor();
    supervisor.spawn("a", "rusty").unwrap();
    supervisor.spawn("b", "rusty").unwrap();
    supervisor.update_agent_status("b", AgentStatus::Failed("boom".to_string())).unwrap();

    let health = supervisor.health_check();
    assert_eq!(health.total_agents, 2);
    assert_eq!(health.running_agents, 1);
    assert_eq!(health.failed_agents, 1);
    assert!(!health.is_healthy);

    supervisor.update_agent_status("b", AgentStatus::Idle).unwrap();
    assert!(supervisor.health_check().is_healthy);
}

#[test]
fn test_supervisor_shutdown_stops_everything() {
    let mut supervisor = create_supervisor();
    supervisor.spawn("a", "rusty").unwrap();
    supervisor.spawn("b", "frontend").unwrap();

    supervisor.shutdown().unwrap();

    for agent in supervisor.list() {
        assert!(matches!(agent.status, AgentStatus::Stopped));
    }
    assert_eq!(supervisor.running_count(), 0);
    assert!(supervisor.stop("a").is_err());
}

#[test]
fn test_concurrent_spawns_ten_distinct_ids() {
    let rt = tokio::runtime::Builder::new_multi_thread().worker_threads(4).build().unwrap();
    rt.block_on(async {
        let supervisor: Arc<tokio::sync::Mutex<AgentSupervisor<DefaultPersonaValidator>>> =
            Arc::new(tokio::sync::Mutex::new(create_supervisor()));
        let mut handles = Vec::new();
        for i in 0..10 {
            let sup = Arc::clone(&supervisor);
            handles.push(tokio::spawn(async move {
                let id = format!("agent-{}", i);
                let mut guard = sup.lock().await;
                guard.spawn(&id, "rusty")
            }));
        }
        for h in handles {
            assert!(h.await.unwrap().is_ok());
        }
        let guard = supervisor.lock().await;
        assert_eq!(guard.list().len(), 10);
        assert_eq!(guard.running_count(), 10);
    });
}
