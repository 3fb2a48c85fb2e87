//! Membership view: the node's local belief about which peers are reachable
//! on which broadcast topic. It is mutated only by discovery events —
//! idempotent insertion on "discovered", idempotent removal on "expired" —
//! and it never contains the node's own identity.

use vstd::prelude::*;

use crate::bytes::bytes_eq;

verus! {

/// One (topic, peer) fact believed by the node.
struct MembershipEntry {
    topic: Vec<u8>,
    peer: Vec<u8>,
}

/// The per-topic set of peers currently believed reachable, abstracted as a
/// set of (topic, peer) pairs over the topic and peer identity bytes.
pub struct MembershipView {
    local: Vec<u8>,
    entries: Vec<MembershipEntry>,
}

/// The effect of a "peer discovered" event on a membership abstraction:
/// idempotent insertion, ignoring the local identity.
pub open spec fn discovered_pairs(
    s: Set<(Seq<u8>, Seq<u8>)>,
    local: Seq<u8>,
    topic: Seq<u8>,
    peer: Seq<u8>,
) -> Set<(Seq<u8>, Seq<u8>)> {
    if peer == local {
        s
    } else {
        s.insert((topic, peer))
    }
}

/// The effect of a "peer expired" event: idempotent removal.
pub open spec fn expired_pairs(s: Set<(Seq<u8>, Seq<u8>)>, topic: Seq<u8>, peer: Seq<u8>) -> Set<
    (Seq<u8>, Seq<u8>),
> {
    s.remove((topic, peer))
}

impl MembershipView {
    /// The identity of the node owning this view.
    pub closed spec fn local_id(self) -> Seq<u8> {
        self.local@
    }

    /// The believed (topic, peer) facts.
    pub closed spec fn pairs(self) -> Set<(Seq<u8>, Seq<u8>)> {
        Set::new(
            |pr: (Seq<u8>, Seq<u8>)|
                exists|i: int|
                    0 <= i < self.entries@.len() && (#[trigger] self.entries@[i].topic@ == pr.0
                        && self.entries@[i].peer@ == pr.1),
        )
    }

    /// Well-formedness: no duplicate facts and never the local identity.
    pub closed spec fn wf(self) -> bool {
        &&& forall|i: int, j: int|
            0 <= i < j < self.entries@.len() ==> !(#[trigger] self.entries@[i].topic@
                == #[trigger] self.entries@[j].topic@ && self.entries@[i].peer@
                == self.entries@[j].peer@)
        &&& forall|i: int|
            0 <= i < self.entries@.len() ==> #[trigger] self.entries@[i].peer@ != self.local@
    }

    /// An empty view for the node with the given identity.
    pub fn new(local: Vec<u8>) -> (r: Self)
        ensures
            r.wf(),
            r.local_id() == local@,
            r.pairs() == Set::<(Seq<u8>, Seq<u8>)>::empty(),
    {
        let r = MembershipView { local, entries: Vec::new() };
        proof {
            assert(r.pairs() =~= Set::<(Seq<u8>, Seq<u8>)>::empty());
        }
        r
    }

    /// Whether `peer` is this node itself.
    pub fn is_local_peer(&self, peer: &[u8]) -> (r: bool)
        ensures
            r == (peer@ == self.local_id()),
    {
        bytes_eq(peer, self.local.as_slice())
    }

    /// Looks up the index of a (topic, peer) fact, if present.
    fn find(&self, topic: &[u8], peer: &[u8]) -> (r: Option<usize>)
        ensures
            r matches Some(i) ==> i < self.entries@.len() && self.entries@[i as int].topic@
                == topic@ && self.entries@[i as int].peer@ == peer@,
            r is None ==> forall|i: int|
                0 <= i < self.entries@.len() ==> !(#[trigger] self.entries@[i].topic@ == topic@
                    && self.entries@[i].peer@ == peer@),
    {
        let mut i: usize = 0;
        while i < self.entries.len()
            invariant
                i <= self.entries@.len(),
                forall|j: int|
                    0 <= j < i ==> !(#[trigger] self.entries@[j].topic@ == topic@
                        && self.entries@[j].peer@ == peer@),
            decreases self.entries@.len() - i,
        {
            let e = &self.entries[i];
            if bytes_eq(e.topic.as_slice(), topic) && bytes_eq(e.peer.as_slice(), peer) {
                return Some(i);
            }
            i += 1;
        }
        None
    }

    /// Whether `peer` is currently believed reachable on `topic`.
    pub fn contains(&self, topic: &[u8], peer: &[u8]) -> (r: bool)
        ensures
            r == self.pairs().contains((topic@, peer@)),
    {
        match self.find(topic, peer) {
            Some(i) => {
                proof {
                    assert(self.entries@[i as int].topic@ == topic@ && self.entries@[
                        i as int
                    ].peer@ == peer@);
                }
                true
            },
            None => {
                proof {
                    assert(!self.pairs().contains((topic@, peer@)));
                }
                false
            },
        }
    }

    /// Records a discovery event: inserts the fact unless it is already
    /// believed or names this node itself. Idempotent.
    pub fn record_discovered(&mut self, topic: &[u8], peer: &[u8])
        requires
            old(self).wf(),
        ensures
            final(self).wf(),
            final(self).local_id() == old(self).local_id(),
            final(self).pairs() == discovered_pairs(
                old(self).pairs(),
                old(self).local_id(),
                topic@,
                peer@,
            ),
    {
        if bytes_eq(peer, self.local.as_slice()) {
            return ;
        }
        match self.find(topic, peer) {
            Some(i) => {
                proof {
                    assert(old(self).pairs().contains((topic@, peer@)));
                    assert(old(self).pairs().insert((topic@, peer@)) =~= old(self).pairs());
                }
            },
            None => {
                let entry = MembershipEntry {
                    topic: vstd::slice::slice_to_vec(topic),
                    peer: vstd::slice::slice_to_vec(peer),
                };
                let ghost old_entries = self.entries@;
                self.entries.push(entry);
                proof {
                    assert forall|pr: (Seq<u8>, Seq<u8>)|
                        self.pairs().contains(pr) == old(self).pairs().insert(
                            (topic@, peer@),
                        ).contains(pr) by {
                        if self.pairs().contains(pr) {
                            let i = choose|i: int|
                                0 <= i < self.entries@.len() && (#[trigger] self.entries@[i].topic@
                                    == pr.0 && self.entries@[i].peer@ == pr.1);
                            if i < old_entries.len() {
                                assert(old(self).pairs().contains(pr));
                            } else {
                                assert(pr == (topic@, peer@));
                            }
                        }
                        if old(self).pairs().insert((topic@, peer@)).contains(pr) {
                            if pr == (topic@, peer@) {
                                let i = old_entries.len() as int;
                                assert(self.entries@[i].topic@ == pr.0 && self.entries@[i].peer@
                                    == pr.1);
                                assert(self.pairs().contains(pr));
                            } else {
                                let i = choose|i: int|
                                    0 <= i < old_entries.len() && (#[trigger] old_entries[i].topic@
                                        == pr.0 && old_entries[i].peer@ == pr.1);
                                assert(self.entries@[i].topic@ == pr.0 && self.entries@[i].peer@
                                    == pr.1);
                                assert(self.pairs().contains(pr));
                            }
                        }
                    }
                    assert(self.pairs() =~= old(self).pairs().insert((topic@, peer@)));
                }
            },
        }
    }

    /// Records an expiry event: removes the fact if believed. Idempotent.
    pub fn record_expired(&mut self, topic: &[u8], peer: &[u8])
        requires
            old(self).wf(),
        ensures
            final(self).wf(),
            final(self).local_id() == old(self).local_id(),
            final(self).pairs() == expired_pairs(old(self).pairs(), topic@, peer@),
    {
        match self.find(topic, peer) {
            None => {
                proof {
                    assert(!old(self).pairs().contains((topic@, peer@)));
                    assert(old(self).pairs().remove((topic@, peer@)) =~= old(self).pairs());
                }
            },
            Some(i) => {
                let ghost old_entries = self.entries@;
                self.entries.remove(i);
                proof {
                    assert(self.entries@ == old_entries.remove(i as int));
                    assert forall|j: int|
                        0 <= j < self.entries@.len() implies #[trigger] self.entries@[j]
                            == old_entries[if j < i { j } else { j + 1 }] by {
                        assert(old_entries.remove(i as int)[j] == old_entries[
                            if j < i {
                                j
                            } else {
                                j + 1
                            }
                        ]);
                    }
                    assert forall|pr: (Seq<u8>, Seq<u8>)|
                        self.pairs().contains(pr) == old(self).pairs().remove(
                            (topic@, peer@),
                        ).contains(pr) by {
                        if self.pairs().contains(pr) {
                            let j = choose|j: int|
                                0 <= j < self.entries@.len() && (#[trigger] self.entries@[j].topic@
                                    == pr.0 && self.entries@[j].peer@ == pr.1);
                            let k: int = if j < i { j } else { j + 1 };
                            assert(old_entries[k].topic@ == pr.0 && old_entries[k].peer@ == pr.1);
                            assert(old(self).pairs().contains(pr));
                            assert(k != i);
                            if pr == (topic@, peer@) {
                                assert(old_entries[k].topic@ == old_entries[i as int].topic@
                                    && old_entries[k].peer@ == old_entries[i as int].peer@);
                                assert(false);
                            }
                        }
                        if old(self).pairs().remove((topic@, peer@)).contains(pr) {
                            let j = choose|j: int|
                                0 <= j < old_entries.len() && (#[trigger] old_entries[j].topic@
                                    == pr.0 && old_entries[j].peer@ == pr.1);
                            assert(j != i);
                            let k: int = if j < i { j } else { j - 1 };
                            assert(self.entries@[k] == old_entries[j]);
                            assert(self.pairs().contains(pr));
                        }
                    }
                    assert(self.pairs() =~= old(self).pairs().remove((topic@, peer@)));
                }
            },
        }
    }
}

/// After a peer is discovered and then expires, it is no longer believed
/// reachable, whatever the view held before.
pub proof fn lemma_discover_then_expire(
    s: Set<(Seq<u8>, Seq<u8>)>,
    local: Seq<u8>,
    topic: Seq<u8>,
    peer: Seq<u8>,
)
    ensures
        !expired_pairs(discovered_pairs(s, local, topic, peer), topic, peer).contains(
            (topic, peer),
        ),
{
}

/// After a discovery alone, a peer other than the node itself is believed
/// reachable.
pub proof fn lemma_discover_visible(
    s: Set<(Seq<u8>, Seq<u8>)>,
    local: Seq<u8>,
    topic: Seq<u8>,
    peer: Seq<u8>,
)
    requires
        peer != local,
    ensures
        discovered_pairs(s, local, topic, peer).contains((topic, peer)),
{
}

/// Discovery is idempotent: recording the same peer twice leaves the same
/// observable view as recording it once.
pub proof fn lemma_discover_idempotent(
    s: Set<(Seq<u8>, Seq<u8>)>,
    local: Seq<u8>,
    topic: Seq<u8>,
    peer: Seq<u8>,
)
    ensures
        discovered_pairs(discovered_pairs(s, local, topic, peer), local, topic, peer)
            == discovered_pairs(s, local, topic, peer),
{
    if peer != local {
        assert(discovered_pairs(discovered_pairs(s, local, topic, peer), local, topic, peer)
            =~= discovered_pairs(s, local, topic, peer));
    }
}

} // verus!
