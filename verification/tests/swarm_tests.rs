use opencode_core::config::Config;
use opencode_core::supervisor::{create_supervisor, AgentStatus, AgentSupervisor, DefaultPersonaValidator};
use opencode_core::swarm::{SwarmOrchestrator, SwarmStatus};

fn new_orchestrator() -> SwarmOrchestrator<DefaultPersonaValidator> {
    SwarmOrchestrator::new(Config::default())
}

fn supervisor_with_idle_agents(n: usize) -> AgentSupervisor<DefaultPersonaValidator> {
    let mut sup = create_supervisor();
    for i in 0..n {
        let id = format!("agent-{}", i);
        sup.register_agent(id.clone()).unwrap();
        sup.update_agent_status(&id, AgentStatus::Idle).unwrap();
    }
    sup
}

#[test]
fn test_swarm_orchestrator_creation() {
    let orchestrator = new_orchestrator();

    assert!(!orchestrator.is_healthy());

    let info = orchestrator.get_swarm_info();
    assert_eq!(info.supervisor_count, 0);
    assert_eq!(info.status, SwarmStatus::Shutdown);
}

#[test]
fn test_add_remove_supervisor() {
    let mut orchestrator = new_orchestrator();

    let supervisor = create_supervisor();
    orchestrator.add_supervisor("test-supervisor".to_string(), supervisor).unwrap();

    let supervisors = orchestrator.list_supervisors();
    assert_eq!(supervisors.len(), 1);
    assert_eq!(supervisors[0], "test-supervisor");

    orchestrator.remove_supervisor("test-supervisor").unwrap();
    let supervisors = orchestrator.list_supervisors();
    assert_eq!(supervisors.len(), 0);
}

#[test]
fn test_add_supervisor_duplicate_id() {
    let mut orchestrator = new_orchestrator();
    orchestrator.add_supervisor("s".to_string(), create_supervisor()).unwrap();
    let result = orchestrator.add_supervisor("s".to_string(), create_supervisor());
    assert!(result.is_err());
    assert!(result.unwrap_err().message().contains("already exists"));
    assert!(orchestrator.remove_supervisor("missing").is_err());
}

#[test]
fn test_swarm_metrics() {
    let mut orchestrator = new_orchestrator();

    let mut supervisor = create_supervisor();
    supervisor.register_agent("test-agent".to_string()).unwrap();
    supervisor.update_agent_status("test-agent", AgentStatus::Running).unwrap();

    orchestrator.add_supervisor("test-supervisor".to_string(), supervisor).unwrap();

    let metrics = orchestrator.get_metrics();
    assert_eq!(metrics.total_supervisors, 1);
    assert_eq!(metrics.total_agents, 1);
    assert_eq!(metrics.active_agents, 1);
    assert_eq!(metrics.failed_agents, 0);
}

#[test]
fn test_scale_up() {
    let mut orchestrator = new_orchestrator();

    orchestrator.add_supervisor("test-supervisor".to_string(), create_supervisor()).unwrap();

    orchestrator.scale_up(3).unwrap();

    let agents = orchestrator.get_supervisor("test-supervisor").unwrap().list();
    assert_eq!(agents.len(), 3);
    let names: Vec<String> = agents.iter().map(|a| a.id.clone()).collect();
    assert!(names.contains(&"test-supervisor-agent-1".to_string()));
    assert!(names.contains(&"test-supervisor-agent-2".to_string()));
    assert!(names.contains(&"test-supervisor-agent-3".to_string()));
}

#[test]
fn test_scale_down() {
    let mut orchestrator = new_orchestrator();

    let supervisor = supervisor_with_idle_agents(5);
    orchestrator.add_supervisor("test-supervisor".to_string(), supervisor).unwrap();

    orchestrator.scale_down(2).unwrap();

    let agents = orchestrator.get_supervisor("test-supervisor").unwrap().list();
    assert_eq!(agents.len(), 2);
}

#[test]
fn test_scale_up_empty_supervisor_registers_exactly_target() {
    let mut orchestrator = new_orchestrator();
    orchestrator.add_supervisor("s".to_string(), create_supervisor()).unwrap();

    orchestrator.scale_up(3).unwrap();
    assert_eq!(orchestrator.get_supervisor("s").unwrap().agent_count(), 3);

    // scaling down only removes idle agents: three idle agents and a target
    // of one leave exactly one
    let mut idle = new_orchestrator();
    idle.add_supervisor("s".to_string(), supervisor_with_idle_agents(3)).unwrap();
    idle.scale_down(1).unwrap();
    assert_eq!(idle.get_supervisor("s").unwrap().agent_count(), 1);
}

#[test]
fn test_scale_down_keeps_non_idle_agents() {
    let mut orchestrator = new_orchestrator();
    let mut sup = create_supervisor();
    sup.spawn("busy-one", "rusty").unwrap();
    sup.register_agent("idle-one".to_string()).unwrap();
    sup.update_agent_status("idle-one", AgentStatus::Idle).unwrap();
    orchestrator.add_supervisor("s".to_string(), sup).unwrap();

    orchestrator.scale_down(0).unwrap();

    let sup = orchestrator.get_supervisor("s").unwrap();
    assert_eq!(sup.agent_count(), 1);
    assert!(sup.get("busy-one").is_some());
    assert!(sup.get("idle-one").is_none());
}

#[test]
fn test_rebalance_five_three_two() {
    let mut orchestrator = new_orchestrator();
    orchestrator.add_supervisor("s1".to_string(), supervisor_with_idle_agents(5)).unwrap();
    orchestrator.add_supervisor("s2".to_string(), supervisor_with_idle_agents(3)).unwrap();
    orchestrator.add_supervisor("s3".to_string(), supervisor_with_idle_agents(2)).unwrap();

    orchestrator.rebalance().unwrap();

    // total 10 over 3 supervisors: targets 4, 3, 3 in registration order
    let c1 = orchestrator.get_supervisor("s1").unwrap().agent_count();
    let c2 = orchestrator.get_supervisor("s2").unwrap().agent_count();
    let c3 = orchestrator.get_supervisor("s3").unwrap().agent_count();
    assert_eq!((c1, c2, c3), (4, 3, 2));
    assert!(c1 + c2 + c3 <= 10);
}

#[test]
fn test_rebalance_never_removes_non_idle() {
    let mut orchestrator = new_orchestrator();
    let mut s1 = create_supervisor();
    for i in 0..5 {
        s1.spawn(&format!("busy-{}", i), "rusty").unwrap();
    }
    orchestrator.add_supervisor("s1".to_string(), s1).unwrap();
    orchestrator.add_supervisor("s2".to_string(), supervisor_with_idle_agents(1)).unwrap();

    orchestrator.rebalance().unwrap();

    // s1 is above its target of 3 but holds no idle agents: nothing is removed
    assert_eq!(orchestrator.get_supervisor("s1").unwrap().agent_count(), 5);
    assert_eq!(orchestrator.get_supervisor("s1").unwrap().running_count(), 5);
}

#[test]
fn test_rebalance_single_supervisor_untouched() {
    let mut orchestrator = new_orchestrator();
    orchestrator.add_supervisor("only".to_string(), supervisor_with_idle_agents(4)).unwrap();
    orchestrator.rebalance().unwrap();
    assert_eq!(orchestrator.get_supervisor("only").unwrap().agent_count(), 4);
}

#[test]
fn test_auto_scale_adds_when_busy() {
    let mut orchestrator = new_orchestrator();
    let mut sup = create_supervisor();
    for i in 0..10 {
        let id = format!("agent-{}", i);
        sup.register_agent(id.clone()).unwrap();
        let status = if i < 9 { AgentStatus::Busy } else { AgentStatus::Idle };
        sup.update_agent_status(&id, status).unwrap();
    }
    orchestrator.add_supervisor("s".to_string(), sup).unwrap();

    // 9 of 10 busy is over 80% and 10 < 15: exactly one agent is added
    orchestrator.auto_scale(1, 15).unwrap();
    assert_eq!(orchestrator.get_supervisor("s").unwrap().agent_count(), 11);
    assert!(orchestrator.get_supervisor("s").unwrap().get("auto-scale-agent-11").is_some());
}

#[test]
fn test_auto_scale_removes_idle_when_quiet() {
    let mut orchestrator = new_orchestrator();
    let mut sup = create_supervisor();
    for i in 0..10 {
        let id = format!("agent-{}", i);
        sup.register_agent(id.clone()).unwrap();
        let status = if i == 0 { AgentStatus::Busy } else { AgentStatus::Idle };
        sup.update_agent_status(&id, status).unwrap();
    }
    orchestrator.add_supervisor("s".to_string(), sup).unwrap();

    // 1 of 10 busy is under 20% and 10 > 1: exactly one idle agent is removed
    orchestrator.auto_scale(1, 15).unwrap();
    assert_eq!(orchestrator.get_supervisor("s").unwrap().agent_count(), 9);
    assert_eq!(orchestrator.get_supervisor("s").unwrap().busy_count(), 1);
}

#[test]
fn test_auto_scale_within_thresholds_changes_nothing() {
    let mut orchestrator = new_orchestrator();
    let mut sup = create_supervisor();
    for i in 0..10 {
        let id = format!("agent-{}", i);
        sup.register_agent(id.clone()).unwrap();
        let status = if i < 5 { AgentStatus::Busy } else { AgentStatus::Idle };
        sup.update_agent_status(&id, status).unwrap();
    }
    orchestrator.add_supervisor("s".to_string(), sup).unwrap();

    orchestrator.auto_scale(1, 15).unwrap();
    assert_eq!(orchestrator.get_supervisor("s").unwrap().agent_count(), 10);
}

#[test]
fn test_health_check_and_recover() {
    let mut orchestrator = new_orchestrator();

    let mut supervisor = create_supervisor();
    supervisor.register_agent("test-agent".to_string()).unwrap();
    supervisor
        .update_agent_status("test-agent", AgentStatus::Failed("crashed".to_string()))
        .unwrap();

    orchestrator.add_supervisor("test-supervisor".to_string(), supervisor).unwrap();

    let recovered = orchestrator.health_check_and_recover().unwrap();
    assert_eq!(recovered.len(), 1);
    assert_eq!(recovered[0], "test-supervisor");

    let sup = orchestrator.get_supervisor("test-supervisor").unwrap();
    let agent = sup.get("test-agent").unwrap();
    assert!(matches!(agent.status, AgentStatus::Starting));
}

#[test]
fn test_health_check_reports_no_healthy_supervisors() {
    let mut orchestrator = new_orchestrator();
    orchestrator.add_supervisor("ok".to_string(), create_supervisor()).unwrap();
    assert!(orchestrator.is_healthy());

    let recovered = orchestrator.health_check_and_recover().unwrap();
    assert_eq!(recovered.len(), 0);
}

#[test]
fn test_swarm_shutdown() {
    let mut orchestrator = new_orchestrator();

    let mut supervisor = create_supervisor();
    supervisor.register_agent("test-agent".to_string()).unwrap();
    supervisor.update_agent_status("test-agent", AgentStatus::Running).unwrap();

    orchestrator.add_supervisor("test-supervisor".to_string(), supervisor).unwrap();

    orchestrator.shutdown().unwrap();

    let sup = orchestrator.get_supervisor("test-supervisor").unwrap();
    let agent = sup.get("test-agent").unwrap();
    assert!(matches!(agent.status, AgentStatus::Stopped));
}

#[test]
fn test_swarm_info_status_derivation() {
    let mut orchestrator = new_orchestrator();
    assert_eq!(orchestrator.get_swarm_info().status, SwarmStatus::Shutdown);

    orchestrator.add_supervisor("s".to_string(), supervisor_with_idle_agents(2)).unwrap();
    let info = orchestrator.get_swarm_info();
    assert_eq!(info.status, SwarmStatus::Degraded);
    assert_eq!(info.total_agents, 2);
    assert_eq!(info.active_agents, 0);
    assert_eq!(info.id, "main-swarm");

    let mut busy = create_supervisor();
    busy.spawn("worker", "rusty").unwrap();
    orchestrator.add_supervisor("b".to_string(), busy).unwrap();
    let info = orchestrator.get_swarm_info();
    assert_eq!(info.status, SwarmStatus::Active);
    assert_eq!(info.active_agents, 1);
}

#[test]
fn test_metrics_count_tasks_processed() {
    let mut orchestrator = new_orchestrator();
    let mut sup = create_supervisor();
    sup.record_task_completion();
    sup.record_task_completion();
    assert_eq!(sup.get_stats().total_tasks, 2);
    orchestrator.add_supervisor("s".to_string(), sup).unwrap();
    assert_eq!(orchestrator.get_metrics().tasks_processed, 2);
}
