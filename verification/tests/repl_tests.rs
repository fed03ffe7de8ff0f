use opencode_core::repl::{parse_command_line, prompt_for, ReplAction, ReplEngine};

fn output_of(action: ReplAction) -> String {
    match action {
        ReplAction::Output(s) => s,
        other => panic!("expected output, got {:?}", other),
    }
}

#[test]
fn test_empty_line() {
    let mut engine = ReplEngine::new();
    assert!(matches!(engine.step_line(""), ReplAction::Idle));
}

#[test]
fn test_whitespace_line() {
    let mut engine = ReplEngine::new();
    assert!(matches!(engine.step_line("   \t  "), ReplAction::Idle));
}

#[test]
fn test_help_command() {
    let mut engine = ReplEngine::new();
    let result = output_of(engine.step_line("/help"));
    assert!(result.contains("Commands"));
    assert!(result.contains("/help"));
    assert!(result.contains("agent ls"));
}

#[test]
fn test_exit_command() {
    let mut engine = ReplEngine::new();
    assert!(matches!(engine.step_line("/exit"), ReplAction::Exit));
}

#[test]
fn test_quit_command() {
    let mut engine = ReplEngine::new();
    assert!(matches!(engine.step_line("/quit"), ReplAction::Exit));
}

#[test]
fn test_persona_command_set() {
    let mut engine = ReplEngine::new();
    let result = output_of(engine.step_line("/persona expert"));
    assert_eq!(result, "Switched to persona: expert");
    assert_eq!(engine.current_persona().as_str(), "expert");
}

#[test]
fn test_persona_command_show() {
    let mut engine = ReplEngine::new();
    let result = output_of(engine.step_line("/persona"));
    assert_eq!(result, "Current persona: default");
}

#[test]
fn test_clear_command() {
    let mut engine = ReplEngine::new();
    let result = output_of(engine.step_line("/clear"));
    assert_eq!(result, "\x1B[2J\x1B[1;1H");
}

#[test]
fn test_status_command_empty() {
    let mut engine = ReplEngine::new();
    let result = output_of(engine.step_line("/status"));
    assert_eq!(result, "REPL Status: Ready");
}

#[test]
fn test_unknown_slash_command() {
    let mut engine = ReplEngine::new();
    let result = output_of(engine.step_line("/unknown"));
    assert_eq!(result, "Unknown command: /unknown");
}

#[test]
fn test_slash_commands_dispatch_to_pipeline() {
    let mut engine = ReplEngine::new();
    match engine.step_line("/test --file a.rs") {
        ReplAction::RunSlash(line) => assert_eq!(line, "/test --file a.rs"),
        other => panic!("expected a slash run, got {:?}", other),
    }
}

#[test]
fn test_cli_command_tokens() {
    let mut engine = ReplEngine::new();
    match engine.step_line("agent ls") {
        ReplAction::CliCommand(tokens) => {
            assert_eq!(tokens, vec!["agent".to_string(), "ls".to_string()])
        },
        other => panic!("expected a CLI command, got {:?}", other),
    }
}

#[test]
fn test_direct_question() {
    let mut engine = ReplEngine::new();
    match engine.step_line("What is the meaning of life?") {
        ReplAction::AskPrompt(prompt) => assert_eq!(prompt, "What is the meaning of life?"),
        other => panic!("expected a prompt, got {:?}", other),
    }
}

#[test]
fn test_direct_question_under_persona() {
    let mut engine = ReplEngine::new();
    engine.step_line("/persona expert");
    match engine.step_line("How are errors handled?") {
        ReplAction::AskPrompt(prompt) => {
            assert_eq!(prompt, "Acting as expert: How are errors handled?")
        },
        other => panic!("expected a prompt, got {:?}", other),
    }
}

#[test]
fn test_parse_command_line_valid() {
    assert_eq!(
        parse_command_line("agent ls"),
        Some(vec!["agent".to_string(), "ls".to_string()])
    );
    assert_eq!(
        parse_command_line("ask What is Rust?"),
        Some(vec![
            "ask".to_string(),
            "What".to_string(),
            "is".to_string(),
            "Rust?".to_string()
        ])
    );
    assert_eq!(parse_command_line("version"), Some(vec!["version".to_string()]));
}

#[test]
fn test_parse_command_line_invalid() {
    assert_eq!(parse_command_line("hello world"), None);
    assert_eq!(parse_command_line("random text"), None);
    assert_eq!(parse_command_line(""), None);
}

#[test]
fn test_parse_command_line_with_extra_whitespace() {
    assert_eq!(
        parse_command_line("  agent   ls  "),
        Some(vec!["agent".to_string(), "ls".to_string()])
    );
}

#[test]
fn test_repl_engine_persona_persistence() {
    let mut engine = ReplEngine::new();

    engine.step_line("/persona expert");
    assert_eq!(engine.current_persona().as_str(), "expert");

    engine.step_line("/help");

    assert_eq!(engine.current_persona().as_str(), "expert");
}

#[test]
fn test_prompt_for_default_persona_is_plain() {
    assert_eq!(prompt_for("default", "hi"), "hi");
    assert_eq!(prompt_for("pirate", "hi"), "Acting as pirate: hi");
}
