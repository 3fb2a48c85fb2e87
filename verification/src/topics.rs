//! The set of broadcast topics a node has subscribed to: grown by explicit
//! subscribe calls, shrunk by explicit unsubscribe calls, both idempotent.

use vstd::prelude::*;

use crate::bytes::bytes_eq;

verus! {

/// The topics this node is subscribed to, abstracted as a set of topic
/// names.
pub struct TopicSet {
    names: Vec<Vec<u8>>,
}

impl TopicSet {
    /// The subscribed topic names.
    pub closed spec fn names(self) -> Set<Seq<u8>> {
        Set::new(
            |t: Seq<u8>|
                exists|i: int| 0 <= i < self.names@.len() && #[trigger] self.names@[i]@ == t,
        )
    }

    /// Well-formedness: no topic is recorded twice.
    pub closed spec fn wf(self) -> bool {
        forall|i: int, j: int|
            0 <= i < j < self.names@.len() ==> #[trigger] self.names@[i]@ != #[trigger] self.names@[
                j
            ]@
    }

    /// An empty subscription set.
    pub fn new() -> (r: Self)
        ensures
            r.wf(),
            r.names() == Set::<Seq<u8>>::empty(),
    {
        let r = TopicSet { names: Vec::new() };
        proof {
            assert(r.names() =~= Set::<Seq<u8>>::empty());
        }
        r
    }

    fn find(&self, name: &[u8]) -> (r: Option<usize>)
        ensures
            r matches Some(i) ==> i < self.names@.len() && self.names@[i as int]@ == name@,
            r is None ==> forall|i: int|
                0 <= i < self.names@.len() ==> #[trigger] self.names@[i]@ != name@,
    {
        let mut i: usize = 0;
        while i < self.names.len()
            invariant
                i <= self.names@.len(),
                forall|j: int| 0 <= j < i ==> #[trigger] self.names@[j]@ != name@,
            decreases self.names@.len() - i,
        {
            if bytes_eq(self.names[i].as_slice(), name) {
                return Some(i);
            }
            i += 1;
        }
        None
    }

    /// Whether the node is subscribed to `name`.
    pub fn contains(&self, name: &[u8]) -> (r: bool)
        ensures
            r == self.names().contains(name@),
    {
        match self.find(name) {
            Some(i) => {
                proof {
                    assert(self.names@[i as int]@ == name@);
                }
                true
            },
            None => {
                proof {
                    assert(!self.names().contains(name@));
                }
                false
            },
        }
    }

    /// Subscribes to `name`; returns whether the subscription is new.
    pub fn subscribe(&mut self, name: &[u8]) -> (added: bool)
        requires
            old(self).wf(),
        ensures
            final(self).wf(),
            final(self).names() == old(self).names().insert(name@),
            added == !old(self).names().contains(name@),
    {
        match self.find(name) {
            Some(i) => {
                proof {
                    assert(old(self).names().contains(name@));
                    assert(old(self).names().insert(name@) =~= old(self).names());
                }
                false
            },
            None => {
                let ghost old_names = self.names@;
                self.names.push(vstd::slice::slice_to_vec(name));
                proof {
                    assert forall|t: Seq<u8>|
                        self.names().contains(t) == old(self).names().insert(name@).contains(
                            t,
                        ) by {
                        if self.names().contains(t) {
                            let i = choose|i: int|
                                0 <= i < self.names@.len() && #[trigger] self.names@[i]@ == t;
                            if i < old_names.len() {
                                assert(old(self).names().contains(t));
                            } else {
                                assert(t == name@);
                            }
                        }
                        if old(self).names().insert(name@).contains(t) {
                            if t == name@ {
                                assert(self.names@[old_names.len() as int]@ == t);
                            } else {
                                let i = choose|i: int|
                                    0 <= i < old_names.len() && #[trigger] old_names[i]@ == t;
                                assert(self.names@[i]@ == t);
                            }
                        }
                    }
                    assert(self.names() =~= old(self).names().insert(name@));
                    assert(!old(self).names().contains(name@));
                }
                true
            },
        }
    }

    /// Unsubscribes from `name`; returns whether a subscription was removed.
    pub fn unsubscribe(&mut self, name: &[u8]) -> (removed: bool)
        requires
            old(self).wf(),
        ensures
            final(self).wf(),
            final(self).names() == old(self).names().remove(name@),
            removed == old(self).names().contains(name@),
    {
        match self.find(name) {
            None => {
                proof {
                    assert(!old(self).names().contains(name@));
                    assert(old(self).names().remove(name@) =~= old(self).names());
                }
                false
            },
            Some(i) => {
                let ghost old_names = self.names@;
                self.names.remove(i);
                proof {
                    assert(old(self).names().contains(name@));
                    assert forall|j: int|
                        0 <= j < self.names@.len() implies #[trigger] self.names@[j] == old_names[
                        if j < i {
                            j
                        } else {
                            j + 1
                        }
                    ] by {
                        assert(old_names.remove(i as int)[j] == old_names[
                            if j < i {
                                j
                            } else {
                                j + 1
                            }
                        ]);
                    }
                    assert forall|t: Seq<u8>|
                        self.names().contains(t) == old(self).names().remove(name@).contains(
                            t,
                        ) by {
                        if self.names().contains(t) {
                            let j = choose|j: int|
                                0 <= j < self.names@.len() && #[trigger] self.names@[j]@ == t;
                            let k: int = if j < i {
                                j
                            } else {
                                j + 1
                            };
                            assert(old_names[k]@ == t);
                            assert(old(self).names().contains(t));
                            assert(k != i);
                            if t == name@ {
                                assert(old_names[k]@ == old_names[i as int]@);
                                assert(false);
                            }
                        }
                        if old(self).names().remove(name@).contains(t) {
                            let j = choose|j: int|
                                0 <= j < old_names.len() && #[trigger] old_names[j]@ == t;
                            assert(j != i);
                            let k: int = if j < i {
                                j
                            } else {
                                j - 1
                            };
                            assert(self.names@[k] == old_names[j]);
                            assert(self.names().contains(t));
                        }
                    }
                    assert(self.names() =~= old(self).names().remove(name@));
                }
                true
            },
        }
    }
}

} // verus!
