//! Event multiplexer: the single-threaded core loop of a node. The caller
//! waits on all event sources at once — local input lines, discovery events,
//! inbound messages — and hands the multiplexer exactly one ready event at a
//! time; `step` processes it to completion and returns the actions (publishes
//! and operator reports) the caller must carry out. Processing one event
//! never touches more than that event, so no event source can corrupt
//! another's state.
//!
//! A node also services its own requests: flood propagation does not loop a
//! published message back to its publisher, so a locally entered command is
//! executed here as by any other subscriber, and its response is published
//! and reported even when no peer is present.

use vstd::prelude::*;

use crate::codec::{
    decode, encode, lemma_encode_injective, spec_encode, ExecError, ExecEvent, ExecResponse,
};
use crate::command::{parse_command, spec_parse_command, CommandError};
use crate::engine::{execute, spec_outcome};
use crate::membership::{discovered_pairs, expired_pairs, MembershipView};

verus! {

/// One ready event from any source. Peer identities and message payloads
/// arrive as plain bytes; the transport collaborators own everything else.
#[derive(Debug, PartialEq, Eq)]
pub enum NodeEvent {
    /// One full line of local operator input.
    LocalInput(Vec<u8>),
    /// Discovery reports a peer as reachable.
    PeerDiscovered(Vec<u8>),
    /// Discovery reports a peer's record as expired.
    PeerExpired(Vec<u8>),
    /// A message arrived on the shared topic.
    InboundMessage(Vec<u8>),
    /// Unrecoverable transport failure or an explicit shutdown signal.
    ShutdownRequested,
}

/// An effect the surrounding loop must perform after a step.
#[derive(Debug, PartialEq, Eq)]
pub enum Action {
    /// Publish `payload` on `topic`, fire-and-forget.
    Publish { topic: Vec<u8>, payload: Vec<u8> },
    /// Register a newly discovered peer with the propagation collaborator.
    RegisterPeer { peer: Vec<u8> },
    /// Deregister an expired peer from the propagation collaborator.
    DeregisterPeer { peer: Vec<u8> },
    /// Surface a computation outcome to the operator.
    ReportOutcome { outcome: Result<ExecResponse, ExecError> },
    /// Surface a rejected local command to the operator.
    ReportCommandError { error: CommandError },
    /// Surface a dropped malformed inbound message to the operator.
    ReportMalformed,
}

/// The multiplexer's observable state. While `step` runs the multiplexer is
/// processing exactly one event; between calls it is either idle, awaiting
/// the next event, or shut down for good.
#[derive(Debug, Clone, Copy, PartialEq, Eq)]
pub enum MuxState {
    Idle,
    Shutdown,
}

/// The event-multiplexed protocol dispatcher of one node: its state, its
/// membership view, and the shared topic it serves.
pub struct Multiplexer {
    state: MuxState,
    view: MembershipView,
    topic: Vec<u8>,
}

impl Multiplexer {
    pub closed spec fn spec_state(self) -> MuxState {
        self.state
    }

    /// The shared broadcast topic this node serves.
    pub closed spec fn topic_id(self) -> Seq<u8> {
        self.topic@
    }

    /// This node's own peer identity.
    pub closed spec fn local_id(self) -> Seq<u8> {
        self.view.local_id()
    }

    /// The (topic, peer) facts of the membership view.
    pub closed spec fn peers(self) -> Set<(Seq<u8>, Seq<u8>)> {
        self.view.pairs()
    }

    pub closed spec fn wf(self) -> bool {
        self.view.wf()
    }

    /// A fresh, idle multiplexer with an empty membership view.
    pub fn new(local_peer: Vec<u8>, topic: Vec<u8>) -> (r: Self)
        ensures
            r.wf(),
            r.spec_state() is Idle,
            r.topic_id() == topic@,
            r.local_id() == local_peer@,
            r.peers() == Set::<(Seq<u8>, Seq<u8>)>::empty(),
    {
        Multiplexer { state: MuxState::Idle, view: MembershipView::new(local_peer), topic }
    }

    /// Whether the multiplexer has shut down; no event is processed after.
    pub fn is_shutdown(&self) -> (r: bool)
        ensures
            r == (self.spec_state() is Shutdown),
    {
        match self.state {
            MuxState::Shutdown => true,
            MuxState::Idle => false,
        }
    }

    /// Whether `peer` is believed reachable on `topic`.
    pub fn contains_peer(&self, topic: &[u8], peer: &[u8]) -> (r: bool)
        ensures
            r == self.peers().contains((topic@, peer@)),
    {
        self.view.contains(topic, peer)
    }

    /// Processes exactly one ready event to completion and returns the
    /// actions the surrounding loop must perform. After shutdown every event
    /// is ignored. A discovery event only moves the membership view (and
    /// mirrors the change to the propagation collaborator); a local command
    /// publishes the request and — this node being a subscriber itself —
    /// the locally computed response; an inbound request is executed and
    /// answered; an inbound response is surfaced; malformed bytes are
    /// dropped with a report, never an abort.
    pub fn step(&mut self, event: NodeEvent) -> (actions: Vec<Action>)
        requires
            old(self).wf(),
        ensures
            final(self).wf(),
            final(self).topic_id() == old(self).topic_id(),
            final(self).local_id() == old(self).local_id(),
            old(self).spec_state() is Shutdown ==> final(self).spec_state() is Shutdown && final(self).peers() == old(self).peers() && actions@.len() == 0,
            old(self).spec_state() is Idle ==> match event {
                NodeEvent::ShutdownRequested => final(self).spec_state() is Shutdown && final(self).peers() == old(self).peers() && actions@.len() == 0,
                NodeEvent::PeerDiscovered(p) => final(self).spec_state() is Idle && final(self).peers() == discovered_pairs(
                    old(self).peers(),
                    old(self).local_id(),
                    old(self).topic_id(),
                    p@,
                ) && (if p@ == old(self).local_id() {
                    actions@.len() == 0
                } else {
                    actions@.len() == 1 && (actions@[0] matches Action::RegisterPeer { peer }
                        && peer@ == p@)
                }),
                NodeEvent::PeerExpired(p) => final(self).spec_state() is Idle && final(self).peers() == expired_pairs(old(self).peers(), old(self).topic_id(), p@) && (
                if old(self).peers().contains((old(self).topic_id(), p@)) {
                    actions@.len() == 1 && (actions@[0] matches Action::DeregisterPeer { peer }
                        && peer@ == p@)
                } else {
                    actions@.len() == 0
                }),
                NodeEvent::LocalInput(line) => final(self).spec_state() is Idle && final(self).peers() == old(self).peers() && match spec_parse_command(line@) {
                    Ok(req) => actions@.len() == 3 && (actions@[0] matches Action::Publish {
                        topic,
                        payload,
                    } && topic@ == old(self).topic_id() && payload@ == spec_encode(
                        ExecEvent::Request(req),
                    )) && (actions@[1] matches Action::Publish { topic, payload } && topic@ == old(
                        self,
                    ).topic_id() && payload@ == spec_encode(
                        ExecEvent::Response(spec_outcome(req)),
                    )) && (actions@[2] matches Action::ReportOutcome { outcome } && outcome
                        == spec_outcome(req)),
                    Err(e) => actions@.len() == 1 && (actions@[0]
                        matches Action::ReportCommandError { error } && error == e),
                },
                NodeEvent::InboundMessage(bytes) => final(self).spec_state() is Idle && final(self).peers() == old(self).peers() && ((forall|m: ExecEvent|
                    bytes@ != spec_encode(m)) ==> actions@.len() == 1 && actions@[0]
                    is ReportMalformed) && (forall|m: ExecEvent|
                    bytes@ == spec_encode(m) ==> match m {
                        ExecEvent::Request(req) => actions@.len() == 1 && (actions@[0]
                            matches Action::Publish { topic, payload } && topic@ == old(
                            self,
                        ).topic_id() && payload@ == spec_encode(
                            ExecEvent::Response(spec_outcome(req)),
                        )),
                        ExecEvent::Response(res) => actions@.len() == 1 && (actions@[0]
                            matches Action::ReportOutcome { outcome } && outcome == res),
                    }),
            },
    {
        match self.state {
            MuxState::Shutdown => {
                return Vec::new();
            },
            MuxState::Idle => {},
        }
        match event {
            NodeEvent::ShutdownRequested => {
                self.state = MuxState::Shutdown;
                Vec::new()
            },
            NodeEvent::PeerDiscovered(p) => {
                let is_local = self.view.is_local_peer(p.as_slice());
                self.view.record_discovered(self.topic.as_slice(), p.as_slice());
                let mut acts: Vec<Action> = Vec::new();
                if !is_local {
                    acts.push(Action::RegisterPeer { peer: p });
                }
                acts
            },
            NodeEvent::PeerExpired(p) => {
                let was = self.view.contains(self.topic.as_slice(), p.as_slice());
                self.view.record_expired(self.topic.as_slice(), p.as_slice());
                let mut acts: Vec<Action> = Vec::new();
                if was {
                    acts.push(Action::DeregisterPeer { peer: p });
                }
                acts
            },
            NodeEvent::LocalInput(line) => {
                let mut acts: Vec<Action> = Vec::new();
                match parse_command(line.as_slice()) {
                    Ok(req) => {
                        let request_msg = ExecEvent::Request(req);
                        let request_bytes = encode(&request_msg);
                        acts.push(
                            Action::Publish {
                                topic: vstd::slice::slice_to_vec(self.topic.as_slice()),
                                payload: request_bytes,
                            },
                        );
                        let outcome = execute(&req);
                        let response_msg = ExecEvent::Response(outcome);
                        let response_bytes = encode(&response_msg);
                        acts.push(
                            Action::Publish {
                                topic: vstd::slice::slice_to_vec(self.topic.as_slice()),
                                payload: response_bytes,
                            },
                        );
                        acts.push(Action::ReportOutcome { outcome });
                    },
                    Err(e) => {
                        acts.push(Action::ReportCommandError { error: e });
                    },
                }
                acts
            },
            NodeEvent::InboundMessage(bytes) => {
                let mut acts: Vec<Action> = Vec::new();
                match decode(bytes.as_slice()) {
                    Err(_) => {
                        acts.push(Action::ReportMalformed);
                    },
                    Ok(m) => {
                        proof {
                            assert forall|m2: ExecEvent| bytes@ == spec_encode(m2) implies m2
                                == m by {
                                lemma_encode_injective(m2, m);
                            }
                        }
                        match m {
                            ExecEvent::Request(req) => {
                                let outcome = execute(&req);
                                let response_msg = ExecEvent::Response(outcome);
                                let response_bytes = encode(&response_msg);
                                acts.push(
                                    Action::Publish {
                                        topic: vstd::slice::slice_to_vec(self.topic.as_slice()),
                                        payload: response_bytes,
                                    },
                                );
                            },
                            ExecEvent::Response(res) => {
                                acts.push(Action::ReportOutcome { outcome: res });
                            },
                        }
                    },
                }
                acts
            },
        }
    }
}

} // verus!
