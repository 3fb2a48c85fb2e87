use execnode::membership::MembershipView;

const TOPIC: &[u8] = b"exec";
const LOCAL: &[u8] = b"peer-local";
const P: &[u8] = b"peer-p";
const Q: &[u8] = b"peer-q";

#[test]
fn discovered_then_present() {
    let mut view = MembershipView::new(LOCAL.to_vec());
    assert!(!view.contains(TOPIC, P));
    view.record_discovered(TOPIC, P);
    assert!(view.contains(TOPIC, P));
}

#[test]
fn discovered_then_expired_is_absent() {
    let mut view = MembershipView::new(LOCAL.to_vec());
    view.record_discovered(TOPIC, P);
    view.record_expired(TOPIC, P);
    assert!(!view.contains(TOPIC, P));
}

#[test]
fn discovery_is_idempotent() {
    let mut view = MembershipView::new(LOCAL.to_vec());
    view.record_discovered(TOPIC, P);
    view.record_discovered(TOPIC, P);
    assert!(view.contains(TOPIC, P));
    // One expiry undoes a doubled discovery: the state after two inserts is
    // the state after one.
    view.record_expired(TOPIC, P);
    assert!(!view.contains(TOPIC, P));
}

#[test]
fn expiry_of_absent_peer_is_a_no_op() {
    let mut view = MembershipView::new(LOCAL.to_vec());
    view.record_discovered(TOPIC, P);
    view.record_expired(TOPIC, Q);
    assert!(view.contains(TOPIC, P));
    assert!(!view.contains(TOPIC, Q));
}

#[test]
fn local_identity_is_never_recorded() {
    let mut view = MembershipView::new(LOCAL.to_vec());
    view.record_discovered(TOPIC, LOCAL);
    assert!(!view.contains(TOPIC, LOCAL));
}

#[test]
fn topics_are_independent() {
    let mut view = MembershipView::new(LOCAL.to_vec());
    view.record_discovered(TOPIC, P);
    view.record_discovered(b"other", Q);
    assert!(view.contains(TOPIC, P));
    assert!(!view.contains(b"other", P));
    assert!(view.contains(b"other", Q));
    view.record_expired(TOPIC, P);
    assert!(view.contains(b"other", Q));
}
