use std::cell::RefCell;
use std::rc::Rc;

use opencode_core::container::{container_args, CommandExecutor, CommandOutput, ContainerManager};
use opencode_core::error::SupervisionError;

struct FakeExecutor {
    execute_result: Option<(bool, String, String)>,
    spawn_result: Option<bool>,
    calls: Rc<RefCell<Vec<(String, Vec<String>)>>>,
}

impl FakeExecutor {
    fn probing(status: bool, stdout: &str, stderr: &str) -> Self {
        FakeExecutor {
            execute_result: Some((status, stdout.to_string(), stderr.to_string())),
            spawn_result: None,
            calls: Rc::new(RefCell::new(Vec::new())),
        }
    }

    fn spawning(success: Option<bool>) -> Self {
        FakeExecutor { execute_result: None, spawn_result: success, calls: Rc::new(RefCell::new(Vec::new())) }
    }
}

impl CommandExecutor for FakeExecutor {
    fn execute(
        &self,
        program: String,
        args: Vec<String>,
    ) -> Result<CommandOutput, SupervisionError> {
        self.calls.borrow_mut().push((program, args));
        match &self.execute_result {
            Some((status, stdout, stderr)) => Ok(CommandOutput {
                status: *status,
                stdout: stdout.clone(),
                stderr: stderr.clone(),
            }),
            None => Err(SupervisionError::SandboxFailure("Command not found".to_string())),
        }
    }

    fn spawn_command(&self, program: String, args: Vec<String>) -> Result<bool, SupervisionError> {
        self.calls.borrow_mut().push((program, args));
        match self.spawn_result {
            Some(success) => Ok(success),
            None => Err(SupervisionError::SandboxFailure("Failed to spawn".to_string())),
        }
    }
}

#[test]
fn test_check_cu_exists_success() {
    let manager = ContainerManager::new(FakeExecutor::probing(true, "cu version 0.1.0", ""));
    let result = manager.check_cu_exists();
    assert!(result.is_ok());
}

#[test]
fn test_check_cu_exists_not_found() {
    let manager = ContainerManager::new(FakeExecutor::spawning(None));
    let result = manager.check_cu_exists();
    assert!(result.is_err());
}

#[test]
fn test_check_cu_exists_failure() {
    let manager = ContainerManager::new(FakeExecutor::probing(false, "", "cu: error"));
    let result = manager.check_cu_exists();
    assert!(result.is_err());
    assert!(result.unwrap_err().message().contains("correctly installed"));
}

#[test]
fn test_run_in_container_success() {
    let executor = FakeExecutor::spawning(Some(true));
    let calls = executor.calls.clone();
    let manager = ContainerManager::new(executor);
    let result = manager.run_in_container("test-branch", "echo test");
    assert!(result.is_ok());

    let recorded = calls.borrow();
    assert_eq!(recorded.len(), 1);
    assert_eq!(recorded[0].0, "cu");
    assert_eq!(recorded[0].1, container_args("test-branch", "echo test"));
}

#[test]
fn test_run_in_container_spawn_failure() {
    let manager = ContainerManager::new(FakeExecutor::spawning(None));
    let result = manager.run_in_container("test-branch", "echo test");
    assert!(result.is_err());
    assert!(result.unwrap_err().message().contains("Failed to spawn"));
}

#[test]
fn test_run_in_container_command_failure() {
    let manager = ContainerManager::new(FakeExecutor::spawning(Some(false)));
    let result = manager.run_in_container("test-branch", "false");
    assert!(result.is_err());
    assert!(result.unwrap_err().message().contains("non-zero status"));
}

#[test]
fn test_cu_command_execution_format() {
    let args = container_args("agent/test-123", "ls -la");
    assert_eq!(
        args,
        vec![
            "environment".to_string(),
            "open".to_string(),
            "--branch".to_string(),
            "agent/test-123".to_string(),
            "--".to_string(),
            "sh".to_string(),
            "-c".to_string(),
            "ls -la".to_string(),
        ]
    );
}

#[test]
fn test_container_manager_branch_isolation() {
    let args1 = container_args("branch-1", "echo test1");
    let args2 = container_args("branch-2", "echo test2");
    assert!(args1.contains(&"--branch".to_string()) && args1.contains(&"branch-1".to_string()));
    assert!(args2.contains(&"--branch".to_string()) && args2.contains(&"branch-2".to_string()));
    assert_ne!(args1, args2);
}
