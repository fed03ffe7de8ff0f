use std::sync::Arc;

use opencode_core::di::{Container, ContainerBuilder};

#[derive(Clone)]
struct TestService {
    value: String,
}

impl TestService {
    fn new() -> Self {
        Self { value: "test".to_string() }
    }
}

#[derive(Clone)]
struct FactoryService {
    id: u32,
}

#[derive(Clone)]
struct ConfigService {
    api_key: String,
}

#[derive(Clone)]
struct ApiClient {
    config: Arc<ConfigService>,
}

impl ApiClient {
    fn new(config: Arc<ConfigService>) -> Self {
        Self { config }
    }
}

#[derive(Clone)]
struct UserService {
    api_client: Arc<ApiClient>,
}

impl UserService {
    fn new(api_client: Arc<ApiClient>) -> Self {
        Self { api_client }
    }
}

#[derive(Clone)]
struct RequestContext {
    request_id: String,
}

#[test]
fn test_container_creation() {
    let container = Container::new();
    assert_eq!(container.service_count(), 0);
}

#[test]
fn test_singleton_registration_and_resolution() {
    let mut container = Container::new();

    container.register_singleton::<TestService, _>(|| Arc::new(TestService::new()));

    let service1 = container.resolve::<TestService>().unwrap();
    let service2 = container.resolve::<TestService>().unwrap();

    assert!(Arc::ptr_eq(&service1, &service2));
    assert_eq!(service1.value, "test");
}

#[test]
fn test_factory_registration_and_resolution() {
    let mut container = Container::new();

    let counter = Arc::new(std::sync::Mutex::new(0));
    let counter_clone = counter.clone();

    container.register_factory::<FactoryService, _>(move || {
        let mut count = counter_clone.lock().unwrap();
        *count += 1;
        Arc::new(FactoryService { id: *count })
    });

    let service1 = container.resolve::<FactoryService>().unwrap();
    let service2 = container.resolve::<FactoryService>().unwrap();

    assert!(!Arc::ptr_eq(&service1, &service2));
    assert_eq!(service1.id, 1);
    assert_eq!(service2.id, 2);
}

#[test]
fn test_dependency_injection_with_dependencies() {
    let mut container = Container::new();

    container.register_singleton::<ConfigService, _>(|| {
        Arc::new(ConfigService { api_key: "secret123".to_string() })
    });

    container.register_singleton_with_deps::<ApiClient, (Arc<ConfigService>,), _>(|deps| {
        let (config,) = deps;
        Arc::new(ApiClient::new(config))
    });

    container.register_singleton_with_deps::<UserService, (Arc<ApiClient>,), _>(|deps| {
        let (api_client,) = deps;
        Arc::new(UserService::new(api_client))
    });

    let user_service = container.resolve::<UserService>().unwrap();
    assert_eq!(user_service.api_client.config.api_key, "secret123");
}

#[test]
fn test_scoped_services() {
    let mut container = Container::new();

    container.register_scoped::<RequestContext>();

    let mut scope1 = container.create_scope();
    scope1.provide::<RequestContext>(Arc::new(RequestContext {
        request_id: "req-123".to_string(),
    }));

    let mut scope2 = container.create_scope();
    scope2.provide::<RequestContext>(Arc::new(RequestContext {
        request_id: "req-456".to_string(),
    }));

    let ctx1 = scope1.resolve::<RequestContext>().unwrap();
    let ctx2 = scope2.resolve::<RequestContext>().unwrap();

    assert_eq!(ctx1.request_id, "req-123");
    assert_eq!(ctx2.request_id, "req-456");
}

#[test]
fn test_circular_dependency_detection() {
    let mut container = Container::new();
    let _ = &mut container;
}

#[derive(Clone)]
struct SingletonService {
    id: u32,
}

#[derive(Clone)]
struct TransientService {
    id: u32,
}

#[test]
fn test_service_lifetime_management() {
    let mut container = Container::new();

    let singleton_count = Arc::new(std::sync::atomic::AtomicU32::new(0));
    let transient_count = Arc::new(std::sync::atomic::AtomicU32::new(0));

    let singleton_count_clone = singleton_count.clone();
    let transient_count_clone = transient_count.clone();

    container.register_singleton::<SingletonService, _>(move || {
        let id = singleton_count_clone.fetch_add(1, std::sync::atomic::Ordering::SeqCst);
        Arc::new(SingletonService { id })
    });

    container.register_factory::<TransientService, _>(move || {
        let id = transient_count_clone.fetch_add(1, std::sync::atomic::Ordering::SeqCst);
        Arc::new(TransientService { id })
    });

    let singleton1 = container.resolve::<SingletonService>().unwrap();
    let singleton2 = container.resolve::<SingletonService>().unwrap();
    let transient1 = container.resolve::<TransientService>().unwrap();
    let transient2 = container.resolve::<TransientService>().unwrap();

    assert_eq!(singleton1.id, 0);
    assert_eq!(singleton2.id, 0);
    assert_eq!(transient1.id, 0);
    assert_eq!(transient2.id, 1);

    assert_eq!(singleton_count.load(std::sync::atomic::Ordering::SeqCst), 1);
    assert_eq!(transient_count.load(std::sync::atomic::Ordering::SeqCst), 2);
}

#[test]
fn test_container_builder_pattern() {
    let container = ContainerBuilder::new()
        .register_singleton::<ConfigService, _>(|| {
            Arc::new(ConfigService { api_key: "test-key".to_string() })
        })
        .register_factory::<RequestContext, _>(|| {
            Arc::new(RequestContext { request_id: uuid::Uuid::new_v4().to_string() })
        })
        .build();

    let config = container.resolve::<ConfigService>().unwrap();
    let ctx1 = container.resolve::<RequestContext>().unwrap();
    let ctx2 = container.resolve::<RequestContext>().unwrap();

    assert_eq!(config.api_key, "test-key");
    assert_ne!(ctx1.request_id, ctx2.request_id);
}

#[derive(Debug)]
struct UnregisteredService;

#[test]
fn test_resolve_unregistered_fails() {
    let container = Container::new();

    let result = container.resolve::<UnregisteredService>();
    assert!(result.is_err());
    let err = result.unwrap_err();
    assert!(err.message().contains("Service not found"));
}
