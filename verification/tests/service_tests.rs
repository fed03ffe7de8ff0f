use opencode_core::config::Config;
use opencode_core::error::Error;
use opencode_core::init;
use opencode_core::service::ServiceContainer;

#[derive(Debug, Clone, PartialEq)]
struct MockProvider {
    response: String,
}

#[test]
fn test_service_container_creation() {
    let config = Config::default();
    let container: ServiceContainer<MockProvider> = ServiceContainer::new(config).unwrap();
    assert!(container.list_providers().is_empty());
}

#[test]
fn test_register_and_get_provider() {
    let config = Config::default();
    let mut container: ServiceContainer<MockProvider> = ServiceContainer::new(config).unwrap();

    let mock_provider = MockProvider { response: "Test response".to_string() };

    container.register_provider("mock", mock_provider.clone());

    let retrieved = container.get_provider("mock").unwrap();
    assert_eq!(retrieved, &mock_provider);
}

#[test]
fn test_get_provider_not_found() {
    let config = Config::default();
    let container: ServiceContainer<MockProvider> = ServiceContainer::new(config).unwrap();

    let result = container.get_provider("nonexistent");
    assert!(result.is_err());
    match result {
        Err(e @ Error::Service(_)) => assert!(e.message().contains("not found")),
        _ => panic!("Expected Service error"),
    }
}

#[test]
fn test_list_providers() {
    let config = Config::default();
    let mut container: ServiceContainer<MockProvider> = ServiceContainer::new(config).unwrap();

    container.register_provider("mock1", MockProvider { response: "Test1".to_string() });
    container.register_provider("mock2", MockProvider { response: "Test2".to_string() });

    let providers = container.list_providers();
    assert_eq!(providers.len(), 2);
    assert!(providers.contains(&"mock1".to_string()));
    assert!(providers.contains(&"mock2".to_string()));
}

#[test]
fn test_get_default_provider() {
    let config = Config::default();
    let mut container: ServiceContainer<MockProvider> = ServiceContainer::new(config).unwrap();

    let result = container.get_default_provider();
    assert!(result.is_err());

    let first = MockProvider { response: "Default".to_string() };
    container.register_provider("some-provider", first.clone());

    let default = container.get_default_provider().unwrap();
    assert_eq!(default, &first);

    // the provider named openai takes precedence once registered
    let openai = MockProvider { response: "OpenAI".to_string() };
    container.register_provider("openai", openai.clone());
    assert_eq!(container.get_default_provider().unwrap(), &openai);
}

#[test]
fn test_register_provider_replaces_same_name() {
    let config = Config::default();
    let mut container: ServiceContainer<MockProvider> = ServiceContainer::new(config).unwrap();

    container.register_provider("mock", MockProvider { response: "old".to_string() });
    container.register_provider("mock", MockProvider { response: "new".to_string() });

    assert_eq!(container.list_providers().len(), 1);
    assert_eq!(container.get_provider("mock").unwrap().response, "new");
}

#[test]
fn test_config_access() {
    let config = Config::default();
    let original_model = config.openai.default_model.clone();

    let container: ServiceContainer<MockProvider> = ServiceContainer::new(config).unwrap();
    assert_eq!(container.config().openai.default_model, original_model);
}

#[test]
fn test_update_config() {
    let config = Config::default();
    let mut container: ServiceContainer<MockProvider> = ServiceContainer::new(config).unwrap();
    container.register_provider("mock", MockProvider { response: "x".to_string() });

    let mut new_config = Config::default();
    new_config.openai.default_model = "gpt-3.5-turbo".to_string();

    container.update_config(new_config).unwrap();
    assert_eq!(container.config().openai.default_model, "gpt-3.5-turbo");
    assert!(container.list_providers().is_empty());
}

#[test]
fn test_init_builds_empty_container() {
    let container: ServiceContainer<MockProvider> = init(Config::default()).unwrap();
    assert!(container.list_providers().is_empty());
    assert_eq!(container.config().openai.default_model, "gpt-4");
}

#[test]
fn test_init_and_get_container() {
    let result: Result<ServiceContainer<MockProvider>, _> = init(Config::default());
    assert!(result.is_ok());
}

#[test]
fn test_service_not_initialized() {
}
