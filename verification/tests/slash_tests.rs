use opencode_core::slash::{parse_with_personas, render, Command, Persona};

fn sample_personas() -> Vec<Persona> {
    vec![
        Persona {
            name: "rusty".to_string(),
            system_prompt: "You are a senior Rust developer".to_string(),
        },
        Persona {
            name: "security".to_string(),
            system_prompt: "You are a cybersecurity expert".to_string(),
        },
    ]
}

#[test]
fn test_command_default() {
    let cmd = Command::default();
    assert_eq!(cmd.name, "");
    assert!(cmd.persona.is_none());
    assert!(cmd.file_path.is_none());
}

#[test]
fn test_parse_simple_command() {
    let result = parse_with_personas("/test", &sample_personas()).expect("should parse");
    assert_eq!(result.name, "test");
    assert!(result.persona.is_none());
    assert!(result.file_path.is_none());
}

#[test]
fn test_parse_command_with_persona() {
    let result =
        parse_with_personas("/test --persona rusty", &sample_personas()).expect("should parse");

    assert_eq!(result.name, "test");
    assert!(result.persona.is_some());
    assert_eq!(result.persona.unwrap().name, "rusty");
    assert!(result.file_path.is_none());
}

#[test]
fn test_parse_command_with_file() {
    let result =
        parse_with_personas("/build --file src/main.rs", &sample_personas()).expect("should parse");

    assert_eq!(result.name, "build");
    assert!(result.persona.is_none());
    assert_eq!(result.file_path, Some("src/main.rs".to_string()));
}

#[test]
fn test_parse_command_with_both_flags() {
    let result = parse_with_personas("/explain --persona security --file test.rs", &sample_personas())
        .expect("should parse");

    assert_eq!(result.name, "explain");
    assert!(result.persona.is_some());
    assert_eq!(result.persona.unwrap().name, "security");
    assert_eq!(result.file_path, Some("test.rs".to_string()));
}

#[test]
fn test_parse_command_short_flags() {
    let result =
        parse_with_personas("/test -p rusty -f main.rs", &sample_personas()).expect("should parse");

    assert_eq!(result.name, "test");
    assert!(result.persona.is_some());
    assert_eq!(result.persona.unwrap().name, "rusty");
    assert_eq!(result.file_path, Some("main.rs".to_string()));
}

#[test]
fn test_parse_unknown_persona() {
    let result = parse_with_personas("/test --persona unknown", &sample_personas());
    assert!(result.is_err());
    assert!(result.unwrap_err().message().contains("not found"));
}

#[test]
fn test_parse_invalid_commands() {
    let personas: Vec<Persona> = Vec::new();
    assert!(parse_with_personas("/test --invalid-flag", &personas).is_err());
    assert!(parse_with_personas("/test --persona", &personas).is_err());
    assert!(parse_with_personas("/test --file", &personas).is_err());
    assert!(parse_with_personas("/test -x", &personas).is_err());
    assert!(parse_with_personas("/test stray", &personas).is_err());
    assert!(parse_with_personas("   ", &personas).is_err());
}

#[test]
fn test_parse_error_messages_are_exact() {
    let personas: Vec<Persona> = Vec::new();
    assert_eq!(parse_with_personas("", &personas).unwrap_err().message(), "Error: Empty command");
    assert_eq!(
        parse_with_personas("/t --persona", &personas).unwrap_err().message(),
        "Error: Missing persona name after --persona"
    );
    assert_eq!(
        parse_with_personas("/t --persona ghost", &personas).unwrap_err().message(),
        "Error: Persona 'ghost' not found"
    );
    assert_eq!(
        parse_with_personas("/t --weird", &personas).unwrap_err().message(),
        "Error: Unknown flag: --weird"
    );
}

#[test]
fn test_render_simple_command() {
    let cmd = Command { name: "test".to_string(), persona: None, file_path: None };

    let result = render(&cmd, None).expect("should render");
    assert!(result.contains("TASK: Based on the context"));
    assert!(!result.contains("SYSTEM PROMPT"));
    assert!(!result.contains("CONTEXT FROM FILE"));
}

#[test]
fn test_render_command_with_persona() {
    let persona = Persona {
        name: "rusty".to_string(),
        system_prompt: "You are a Rust expert".to_string(),
    };

    let cmd = Command { name: "build".to_string(), persona: Some(persona), file_path: None };

    let result = render(&cmd, None).expect("should render");
    assert!(result.contains("SYSTEM PROMPT: You are a Rust expert"));
    assert!(result.contains("TASK: Based on the context"));
    assert!(!result.contains("CONTEXT FROM FILE"));
}

#[test]
fn test_render_command_with_file() {
    let cmd = Command {
        name: "explain".to_string(),
        persona: None,
        file_path: Some("test.rs".to_string()),
    };
    let content = "fn main() {\n    println!(\"Hello, world!\");\n}".to_string();

    let result = render(&cmd, Some(&content)).expect("should render");
    assert!(result.contains("CONTEXT FROM FILE"));
    assert!(result.contains("Hello, world!"));
    assert!(result.contains("TASK: Explain the code"));
    assert!(!result.contains("SYSTEM PROMPT"));
}

#[test]
fn test_render_command_with_both() {
    let persona = Persona {
        name: "security".to_string(),
        system_prompt: "You are a security expert".to_string(),
    };

    let cmd = Command {
        name: "test".to_string(),
        persona: Some(persona),
        file_path: Some("test.rs".to_string()),
    };
    let content = "fn main() {\n    println!(\"Hello, world!\");\n}".to_string();

    let result = render(&cmd, Some(&content)).expect("should render");
    assert!(result.contains("SYSTEM PROMPT: You are a security expert"));
    assert!(result.contains("CONTEXT FROM FILE"));
    assert!(result.contains("Hello, world!"));
    assert!(result.contains("TASK: Based on the context"));
}

#[test]
fn test_render_unknown_command() {
    let cmd = Command { name: "unknown".to_string(), persona: None, file_path: None };

    let result = render(&cmd, None);
    assert!(result.is_err());
    assert!(result.unwrap_err().message().contains("Unknown slash command"));
}

#[test]
fn test_command_task_descriptions() {
    let cases = vec![
        (
            "test",
            "Based on the context from the file, please write a comprehensive suite of unit tests",
        ),
        ("build", "analyze the code for potential build issues or improvements"),
        ("explain", "Explain the code provided in the context file"),
    ];
    for (command_name, expected_task) in cases {
        let cmd = Command { name: command_name.to_string(), persona: None, file_path: None };
        let result = render(&cmd, None).expect("should render");
        assert!(result.contains(expected_task));
    }
}

#[test]
fn test_parse_strips_leading_slashes() {
    let result = parse_with_personas("///test", &sample_personas()).expect("should parse");
    assert_eq!(result.name, "test");
}
