use opencode_core::config::{Config, EnvSettings, OpenAIConfig};

#[test]
fn test_config_defaults() {
    let config = Config::default();
    assert_eq!(config.openai.default_model, "gpt-4");
    assert_eq!(config.openai.api_base, "https://api.openai.com/v1");
    assert_eq!(config.openai.max_retries, 3);
    assert_eq!(config.openai.timeout_seconds, 30);
}

#[test]
fn test_openai_config_defaults() {
    let config = OpenAIConfig::default();
    assert_eq!(config.default_model, "gpt-4");
    assert_eq!(config.api_base, "https://api.openai.com/v1");
    assert_eq!(config.max_retries, 3);
    assert_eq!(config.timeout_seconds, 30);
}

#[test]
fn comprehensive_tests_test_config_load_without_file_path() {
    let config = Config::load(None, &EnvSettings::none()).unwrap();
    assert_eq!(config.openai.default_model, "gpt-4");
    assert_eq!(config.openai.api_base, "https://api.openai.com/v1");
}

#[test]
fn additional_tests_test_openai_config_edge_cases() {
    let config = OpenAIConfig {
        default_model: "".to_string(),
        api_base: "".to_string(),
        max_retries: 0,
        timeout_seconds: 0,
    };
    assert_eq!(config.default_model, "");
    assert_eq!(config.api_base, "");
    assert_eq!(config.max_retries, 0);
    assert_eq!(config.timeout_seconds, 0);
}

#[test]
fn comprehensive_tests_test_openai_config_edge_cases() {
    let config = OpenAIConfig {
        default_model: "".to_string(),
        api_base: "".to_string(),
        max_retries: 0,
        timeout_seconds: 0,
    };
    assert_eq!(config.default_model, "");
    assert_eq!(config.api_base, "");
    assert_eq!(config.max_retries, 0);
    assert_eq!(config.timeout_seconds, 0);
}

#[test]
fn test_env_overrides_take_precedence() {
    let env = EnvSettings {
        model: Some("gpt-3.5-turbo".to_string()),
        api_base: None,
        max_retries: Some("5".to_string()),
        timeout_seconds: None,
    };
    let config = Config::load(Some(Config::default()), &env).unwrap();
    assert_eq!(config.openai.default_model, "gpt-3.5-turbo");
    assert_eq!(config.openai.api_base, "https://api.openai.com/v1");
    assert_eq!(config.openai.max_retries, 5);
    assert_eq!(config.openai.timeout_seconds, 30);
}

#[test]
fn test_env_rejects_malformed_numbers() {
    let env = EnvSettings {
        model: None,
        api_base: None,
        max_retries: Some("not-a-number".to_string()),
        timeout_seconds: None,
    };
    let result = Config::load(None, &env);
    assert!(result.is_err());
    assert!(result.unwrap_err().message().contains("Configuration error"));

    let env = EnvSettings {
        model: None,
        api_base: None,
        max_retries: None,
        timeout_seconds: Some("99999999999999999999".to_string()),
    };
    assert!(Config::from_env(&env).is_err());
}

#[test]
fn test_env_accepts_plus_prefixed_numbers() {
    let env = EnvSettings {
        model: None,
        api_base: None,
        max_retries: Some("+7".to_string()),
        timeout_seconds: Some("120".to_string()),
    };
    let config = Config::from_env(&env).unwrap();
    assert_eq!(config.openai.max_retries, 7);
    assert_eq!(config.openai.timeout_seconds, 120);
}
