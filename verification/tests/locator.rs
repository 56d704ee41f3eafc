use privchat_gateway::container::ServiceContainer;
use privchat_gateway::container::ServiceError;
use privchat_gateway::server::CHAT_SERVICE_KEY;
use privchat_gateway::service::chat::ChatService;

#[test]
fn resolve_before_register_is_not_registered() {
    let c: ServiceContainer<u32> = ServiceContainer::new();
    assert_eq!(c.resolve(5), Err(ServiceError::NotRegistered));
}

#[test]
fn resolve_after_register_succeeds() {
    let mut c: ServiceContainer<u32> = ServiceContainer::new();
    assert_eq!(c.register(5, 42), Ok(()));
    assert_eq!(c.resolve(5), Ok(&42));
    assert_eq!(c.resolve(6), Err(ServiceError::NotRegistered));
}

#[test]
fn duplicate_registration_fails_and_keeps_first() {
    let mut c: ServiceContainer<u32> = ServiceContainer::new();
    assert_eq!(c.register(1, 10), Ok(()));
    assert_eq!(c.register(1, 20), Err(ServiceError::DuplicateRegistration));
    assert_eq!(c.resolve(1), Ok(&10));
}

#[test]
fn chat_service_duplicate_registration_rejected() {
    let mut c: ServiceContainer<ChatService> = ServiceContainer::new();
    assert!(c.register(CHAT_SERVICE_KEY, ChatService::new()).is_ok());
    assert_eq!(
        c.register(CHAT_SERVICE_KEY, ChatService::new()).err(),
        Some(ServiceError::DuplicateRegistration)
    );
    assert!(c.resolve(CHAT_SERVICE_KEY).is_ok());
}

#[test]
fn registrations_under_distinct_keys_coexist() {
    let mut c: ServiceContainer<&str> = ServiceContainer::new();
    assert_eq!(c.register(1, "chat"), Ok(()));
    assert_eq!(c.register(2, "push"), Ok(()));
    assert_eq!(c.resolve(1), Ok(&"chat"));
    assert_eq!(c.resolve(2), Ok(&"push"));
}
