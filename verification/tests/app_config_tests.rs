use opencode_core::app_config::{
    AppConfig, FeaturesConfig, PartialAppConfig, PartialFeaturesConfig, PartialServerConfig,
    ProviderConfig, ProviderType, RateLimitConfig, ServerConfig,
};

#[test]
fn test_default_configuration() {
    let config = AppConfig::default();

    assert!(config.providers.is_empty());
    assert_eq!(config.default_provider, None);
    assert_eq!(config.server.host, "127.0.0.1");
    assert_eq!(config.server.port, 3000);
    assert!(!config.features.streaming_enabled);
    assert!(!config.features.function_calling_enabled);
}

#[test]
fn test_config_validation() {
    let valid_config = AppConfig {
        providers: vec![ProviderConfig {
            name: "provider1".to_string(),
            provider_type: ProviderType::OpenAI,
            api_key: "key123".to_string(),
            base_url: None,
            models: vec![],
            rate_limit: None,
        }],
        default_provider: Some("provider1".to_string()),
        server: ServerConfig::default(),
        features: FeaturesConfig::default(),
    };

    assert!(valid_config.validate().is_ok());

    let invalid_config = AppConfig {
        providers: vec![],
        default_provider: Some("nonexistent".to_string()),
        server: ServerConfig::default(),
        features: FeaturesConfig::default(),
    };

    let result = invalid_config.validate();
    assert!(result.is_err());
    assert!(result.unwrap_err().message().contains("Default provider 'nonexistent' not found"));

    let duplicate_config = AppConfig {
        providers: vec![
            ProviderConfig {
                name: "same_name".to_string(),
                provider_type: ProviderType::OpenAI,
                api_key: "key1".to_string(),
                base_url: None,
                models: vec![],
                rate_limit: None,
            },
            ProviderConfig {
                name: "same_name".to_string(),
                provider_type: ProviderType::Local,
                api_key: "key2".to_string(),
                base_url: None,
                models: vec![],
                rate_limit: None,
            },
        ],
        default_provider: None,
        server: ServerConfig::default(),
        features: FeaturesConfig::default(),
    };

    let result = duplicate_config.validate();
    assert!(result.is_err());
    assert!(result.unwrap_err().message().contains("Duplicate provider name"));
}

#[test]
fn test_config_merge() {
    let base_config = AppConfig {
        providers: vec![ProviderConfig {
            name: "openai".to_string(),
            provider_type: ProviderType::OpenAI,
            api_key: "base-key".to_string(),
            base_url: None,
            models: vec![],
            rate_limit: None,
        }],
        default_provider: Some("openai".to_string()),
        server: ServerConfig { host: "127.0.0.1".to_string(), port: 3000 },
        features: FeaturesConfig { streaming_enabled: false, function_calling_enabled: false },
    };

    let override_config = PartialAppConfig {
        providers: None,
        default_provider: Some(Some("fallback".to_string())),
        server: Some(PartialServerConfig { host: None, port: Some(8080) }),
        features: Some(PartialFeaturesConfig {
            streaming_enabled: Some(true),
            function_calling_enabled: None,
        }),
    };

    let merged = base_config.merge(override_config);

    assert_eq!(merged.default_provider, Some("fallback".to_string()));
    assert_eq!(merged.server.host, "127.0.0.1");
    assert_eq!(merged.server.port, 8080);
    assert!(merged.features.streaming_enabled);
    assert!(!merged.features.function_calling_enabled);
}

#[test]
fn test_provider_specific_config() {
    let config = AppConfig {
        providers: vec![
            ProviderConfig {
                name: "openai-gpt4".to_string(),
                provider_type: ProviderType::OpenAI,
                api_key: "key1".to_string(),
                base_url: None,
                models: vec!["gpt-4".to_string(), "gpt-4-turbo".to_string()],
                rate_limit: Some(RateLimitConfig {
                    requests_per_minute: 60,
                    tokens_per_minute: 90000,
                }),
            },
            ProviderConfig {
                name: "local-backup".to_string(),
                provider_type: ProviderType::Local,
                api_key: "key2".to_string(),
                base_url: Some("https://local.example/v1".to_string()),
                models: vec!["compact-coder".to_string()],
                rate_limit: Some(RateLimitConfig {
                    requests_per_minute: 50,
                    tokens_per_minute: 100000,
                }),
            },
        ],
        default_provider: None,
        server: ServerConfig::default(),
        features: FeaturesConfig::default(),
    };

    let openai_config = config.get_provider("openai-gpt4").unwrap();
    assert_eq!(openai_config.models.len(), 2);
    assert!(openai_config.models.contains(&"gpt-4".to_string()));
    assert_eq!(openai_config.rate_limit.as_ref().unwrap().requests_per_minute, 60);

    let backup_config = config.get_provider("local-backup").unwrap();
    assert_eq!(backup_config.models.len(), 1);
    assert_eq!(backup_config.base_url, Some("https://local.example/v1".to_string()));
    assert_eq!(backup_config.rate_limit.as_ref().unwrap().tokens_per_minute, 100000);
}
