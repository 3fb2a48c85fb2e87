use execnode::codec::{decode, ExecError, ExecEvent, ExecResponse};
use execnode::mux::{Action, Multiplexer, NodeEvent};

const TOPIC: &[u8] = b"exec";

fn node(peer: &[u8]) -> Multiplexer {
    Multiplexer::new(peer.to_vec(), TOPIC.to_vec())
}

fn published_payload(action: &Action) -> Vec<u8> {
    match action {
        Action::Publish { topic, payload } => {
            assert_eq!(topic.as_slice(), TOPIC);
            payload.clone()
        },
        other => panic!("expected a publish action, got {:?}", other),
    }
}

#[test]
fn request_travels_from_node_a_to_node_b_and_back() {
    let mut a = node(b"peer-a");
    let mut b = node(b"peer-b");

    // Node A turns a local command into a published request.
    let a_actions = a.step(NodeEvent::LocalInput(b"add 4 5".to_vec()));
    let request_bytes = published_payload(&a_actions[0]);

    // Node B, subscribed to the same topic, decodes it, executes it to 9,
    // and publishes the response.
    let b_actions = b.step(NodeEvent::InboundMessage(request_bytes));
    assert_eq!(b_actions.len(), 1);
    let response_bytes = published_payload(&b_actions[0]);
    assert_eq!(
        decode(&response_bytes),
        Ok(ExecEvent::Response(Ok(ExecResponse { result: 9 })))
    );

    // Node A decodes the response and reports 9 to its operator.
    let a_report = a.step(NodeEvent::InboundMessage(response_bytes));
    assert_eq!(a_report.len(), 1);
    assert_eq!(
        a_report[0],
        Action::ReportOutcome { outcome: Ok(ExecResponse { result: 9 }) }
    );
}

#[test]
fn local_division_by_zero_is_reported_and_published() {
    // A single node with no peers: the error is reported locally and a
    // response carrying it is still published (broadcast semantics hold
    // with zero subscribers).
    let mut n = node(b"peer-solo");
    let actions = n.step(NodeEvent::LocalInput(b"div 10 0".to_vec()));
    assert_eq!(actions.len(), 3);
    let request_bytes = published_payload(&actions[0]);
    assert!(decode(&request_bytes).is_ok());
    let response_bytes = published_payload(&actions[1]);
    assert_eq!(
        decode(&response_bytes),
        Ok(ExecEvent::Response(Err(ExecError::DivisionByZero)))
    );
    assert_eq!(
        actions[2],
        Action::ReportOutcome { outcome: Err(ExecError::DivisionByZero) }
    );
}

#[test]
fn discovery_then_expiry_moves_membership_in_order() {
    let mut n = node(b"peer-a");
    let p = b"peer-p".to_vec();

    let discovered = n.step(NodeEvent::PeerDiscovered(p.clone()));
    assert_eq!(discovered.len(), 1);
    assert_eq!(discovered[0], Action::RegisterPeer { peer: p.clone() });
    assert!(n.contains_peer(TOPIC, &p));

    let expired = n.step(NodeEvent::PeerExpired(p.clone()));
    assert_eq!(expired.len(), 1);
    assert_eq!(expired[0], Action::DeregisterPeer { peer: p.clone() });
    assert!(!n.contains_peer(TOPIC, &p));
}

#[test]
fn own_identity_in_discovery_is_ignored() {
    let mut n = node(b"peer-a");
    let actions = n.step(NodeEvent::PeerDiscovered(b"peer-a".to_vec()));
    assert!(actions.is_empty());
    assert!(!n.contains_peer(TOPIC, b"peer-a"));
}

#[test]
fn expiry_of_unknown_peer_does_nothing() {
    let mut n = node(b"peer-a");
    let actions = n.step(NodeEvent::PeerExpired(b"peer-p".to_vec()));
    assert!(actions.is_empty());
}

#[test]
fn malformed_inbound_bytes_are_dropped_with_a_report() {
    let mut n = node(b"peer-a");
    let actions = n.step(NodeEvent::InboundMessage(b"!! not a message !!".to_vec()));
    assert_eq!(actions.len(), 1);
    assert_eq!(actions[0], Action::ReportMalformed);
    // The loop survives and keeps processing events.
    let actions = n.step(NodeEvent::LocalInput(b"add 1 2".to_vec()));
    assert_eq!(actions.len(), 3);
}

#[test]
fn invalid_command_is_reported_without_publishing() {
    let mut n = node(b"peer-a");
    let actions = n.step(NodeEvent::LocalInput(b"frobnicate 1 2".to_vec()));
    assert_eq!(actions.len(), 1);
    assert!(matches!(actions[0], Action::ReportCommandError { .. }));
}

#[test]
fn no_event_is_processed_after_shutdown() {
    let mut n = node(b"peer-a");
    assert!(!n.is_shutdown());
    let actions = n.step(NodeEvent::ShutdownRequested);
    assert!(actions.is_empty());
    assert!(n.is_shutdown());

    let actions = n.step(NodeEvent::LocalInput(b"add 4 5".to_vec()));
    assert!(actions.is_empty());
    let actions = n.step(NodeEvent::PeerDiscovered(b"peer-p".to_vec()));
    assert!(actions.is_empty());
    assert!(!n.contains_peer(TOPIC, b"peer-p"));
}

#[test]
fn inbound_request_with_error_still_answers() {
    // A request that fails arithmetically is answered with the error, so
    // the requester observes failure rather than silence.
    let mut a = node(b"peer-a");
    let mut b = node(b"peer-b");
    let a_actions = a.step(NodeEvent::LocalInput(b"sub 3 4".to_vec()));
    let request_bytes = published_payload(&a_actions[0]);
    let b_actions = b.step(NodeEvent::InboundMessage(request_bytes));
    assert_eq!(b_actions.len(), 1);
    let response_bytes = published_payload(&b_actions[0]);
    assert_eq!(
        decode(&response_bytes),
        Ok(ExecEvent::Response(Err(ExecError::ArithmeticUnderflow)))
    );
}
