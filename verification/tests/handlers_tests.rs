use samurai_wm::handlers::HandlerRegistry;
use samurai_wm::protocol::{
    DESTROY_NOTIFY_EVENT, MAPPING_NOTIFY_EVENT, MAP_NOTIFY_EVENT, MAP_REQUEST_EVENT,
};

#[test]
fn register_takes_one_handler_for_each_tag() {
    let mut registry: HandlerRegistry<&str> = HandlerRegistry::new();
    assert!(registry.register(MAP_NOTIFY_EVENT, "map notify"));
    assert!(registry.register(MAP_REQUEST_EVENT, "map request"));
    assert_eq!(registry.len(), 2);
    assert_eq!(registry.get(0).unwrap().event_tag, MAP_NOTIFY_EVENT);
    assert_eq!(registry.get(1).unwrap().handler, "map request");
    assert!(registry.get(2).is_none());
}

#[test]
fn register_keeps_the_first_handler_of_a_tag() {
    let mut registry: HandlerRegistry<&str> = HandlerRegistry::new();
    assert!(registry.register(MAP_NOTIFY_EVENT, "first"));
    assert!(!registry.register(MAP_NOTIFY_EVENT, "second"));
    assert_eq!(registry.len(), 1);
    assert_eq!(registry.dispatch(MAP_NOTIFY_EVENT), Some(&"first"));
}

#[test]
fn dispatch_finds_the_handler_of_the_tag() {
    let mut registry: HandlerRegistry<u32> = HandlerRegistry::new();
    registry.register(MAP_NOTIFY_EVENT, 10);
    registry.register(MAPPING_NOTIFY_EVENT, 20);
    registry.register(MAP_REQUEST_EVENT, 30);
    assert_eq!(registry.dispatch(MAPPING_NOTIFY_EVENT), Some(&20));
    assert_eq!(registry.find(MAPPING_NOTIFY_EVENT), Some(1));
    assert_eq!(registry.find(MAP_REQUEST_EVENT), Some(2));
}

#[test]
fn dispatch_of_an_unhandled_tag_gives_nothing() {
    let mut registry: HandlerRegistry<u32> = HandlerRegistry::new();
    registry.register(MAP_NOTIFY_EVENT, 10);
    assert_eq!(registry.dispatch(DESTROY_NOTIFY_EVENT), None);
    assert_eq!(registry.find(DESTROY_NOTIFY_EVENT), None);
    let empty: HandlerRegistry<u32> = HandlerRegistry::new();
    assert_eq!(empty.dispatch(MAP_NOTIFY_EVENT), None);
}
