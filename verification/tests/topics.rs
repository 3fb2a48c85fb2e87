use execnode::topics::TopicSet;

#[test]
fn subscribe_then_contains() {
    let mut topics = TopicSet::new();
    assert!(!topics.contains(b"exec"));
    assert!(topics.subscribe(b"exec"));
    assert!(topics.contains(b"exec"));
}

#[test]
fn subscribe_is_idempotent() {
    let mut topics = TopicSet::new();
    assert!(topics.subscribe(b"exec"));
    assert!(!topics.subscribe(b"exec"));
    assert!(topics.contains(b"exec"));
    assert!(topics.unsubscribe(b"exec"));
    assert!(!topics.contains(b"exec"));
}

#[test]
fn unsubscribe_removes_only_the_named_topic() {
    let mut topics = TopicSet::new();
    assert!(topics.subscribe(b"exec"));
    assert!(topics.subscribe(b"chat"));
    assert!(topics.unsubscribe(b"exec"));
    assert!(!topics.contains(b"exec"));
    assert!(topics.contains(b"chat"));
    assert!(!topics.unsubscribe(b"exec"));
}
