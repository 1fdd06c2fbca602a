//! The fan-out channel: a bounded ring of messages with one read cursor
//! per subscriber. One publish reaches every current subscriber exactly
//! once; a late subscriber never sees history; a subscriber that falls
//! a full ring behind loses its oldest unread messages and no others,
//! and other subscribers are unaffected.

use vstd::prelude::*;

use crate::command::Response;

verus! {

/// Two outcome envelopes carrying the same content.
pub open spec fn resp_like(a: &Response, b: &Response) -> bool {
    &&& a.success == b.success
    &&& a.message@ == b.message@
    &&& match (a.data, b.data) {
        (Some(p), Some(q)) => p.profile_entries() == q.profile_entries() && p.player_entries()
            == q.player_entries() && p.current_profile@ == q.current_profile@
            && p.default_profile@ == q.default_profile@ && p.current_player@
            == q.current_player@,
        (None, None) => true,
        _ => false,
    }
    &&& a.sensor_values == b.sensor_values
    &&& match (a.response_type, b.response_type) {
        (Some(t), Some(u)) => t@ == u@,
        (None, None) => true,
        _ => false,
    }
}

/// The fan-out channel.
pub struct Broadcaster {
    ring: Vec<Response>,
    cursors: Vec<usize>,
    capacity: usize,
}

impl Broadcaster {
    /// A cursor points at the next unread slot, or past the ring.
    pub closed spec fn wf(&self) -> bool {
        &&& self.capacity >= 1
        &&& self.ring@.len() <= self.capacity
        &&& forall|i: int|
            0 <= i < self.cursors@.len() ==> (#[trigger] self.cursors@[i]) <= self.ring@.len()
    }

    pub closed spec fn spec_capacity(&self) -> int {
        self.capacity as int
    }

    pub closed spec fn subscriber_count(&self) -> int {
        self.cursors@.len() as int
    }

    /// What a subscriber has yet to read, oldest first.
    pub closed spec fn pending(&self, id: int) -> Seq<Response> {
        self.ring@.skip(self.cursors@[id] as int)
    }

    /// An empty channel that keeps at most `capacity` unread messages
    /// for each subscriber.
    pub fn new(capacity: usize) -> (r: Broadcaster)
        requires
            capacity >= 1,
        ensures
            r.wf(),
            r.spec_capacity() == capacity,
            r.subscriber_count() == 0,
    {
        Broadcaster { ring: Vec::new(), cursors: Vec::new(), capacity }
    }

    /// Joins the channel: the new subscriber sees no history, only what
    /// is published from now on.
    pub fn subscribe(&mut self) -> (id: usize)
        requires
            old(self).wf(),
        ensures
            final(self).wf(),
            final(self).spec_capacity() == old(self).spec_capacity(),
            id == old(self).subscriber_count(),
            final(self).subscriber_count() == old(self).subscriber_count() + 1,
            final(self).pending(id as int) == Seq::<Response>::empty(),
            forall|i: int|
                0 <= i < old(self).subscriber_count()
                    ==> #[trigger] final(self).pending(i) == old(self).pending(i),
    {
        let id = self.cursors.len();
        let at = self.ring.len();
        self.cursors.push(at);
        proof {
            assert(self.pending(id as int) =~= Seq::<Response>::empty());
            assert(forall|i: int|
                0 <= i < old(self).subscriber_count() ==> (#[trigger] self.cursors@[i]) == old(
                    self,
                ).cursors@[i]);
        }
        id
    }

    /// Publishes one message to every subscriber: each backlog grows by
    /// it, and a backlog already at capacity loses exactly its oldest
    /// unread message. No other subscriber is affected.
    pub fn publish(&mut self, msg: Response)
        requires
            old(self).wf(),
        ensures
            final(self).wf(),
            final(self).spec_capacity() == old(self).spec_capacity(),
            final(self).subscriber_count() == old(self).subscriber_count(),
            forall|i: int|
                0 <= i < old(self).subscriber_count() ==> #[trigger] final(self).pending(i) == (
                if old(self).pending(i).len() == old(self).spec_capacity() {
                    old(self).pending(i).skip(1).push(msg)
                } else {
                    old(self).pending(i).push(msg)
                }),
    {
        let full = self.ring.len() == self.capacity;
        if full {
            self.ring.remove(0);
            let n = self.cursors.len();
            let mut k: usize = 0;
            while k < n
                invariant
                    0 <= k <= n,
                    n == self.cursors@.len(),
                    self.ring@ == old(self).ring@.skip(1),
                    self.capacity == old(self).capacity,
                    old(self).ring@.len() == old(self).capacity,
                    old(self).wf(),
                    forall|i: int|
                        0 <= i < k ==> (#[trigger] self.cursors@[i]) as int == (
                        if old(self).cursors@[i] > 0 {
                            old(self).cursors@[i] - 1
                        } else {
                            0
                        }),
                    forall|i: int|
                        k <= i < n ==> (#[trigger] self.cursors@[i]) == old(self).cursors@[i],
                decreases n - k,
            {
                if self.cursors[k] > 0 {
                    let c = self.cursors[k];
                    self.cursors[k] = c - 1;
                } else {
                    let c = self.cursors[k];
                    self.cursors[k] = c;
                }
                k += 1;
            }
        }
        self.ring.push(msg);
        proof {
            assert forall|i: int| 0 <= i < old(self).subscriber_count() implies #[trigger] self
                .pending(i) == (if old(self).pending(i).len() == old(self).spec_capacity() {
                old(self).pending(i).skip(1).push(msg)
            } else {
                old(self).pending(i).push(msg)
            }) by {
                let c0 = old(self).cursors@[i] as int;
                let r0 = old(self).ring@;
                if full {
                    if c0 > 0 {
                        assert(self.cursors@[i] as int == c0 - 1);
                        assert(self.ring@ == r0.skip(1).push(msg));
                        assert(self.pending(i) =~= old(self).pending(i).push(msg));
                        assert(old(self).pending(i).len() < old(self).spec_capacity());
                    } else {
                        assert(self.cursors@[i] as int == 0);
                        assert(self.pending(i) =~= old(self).pending(i).skip(1).push(msg));
                        assert(old(self).pending(i).len() == old(self).spec_capacity());
                    }
                } else {
                    assert(self.cursors@[i] == old(self).cursors@[i]);
                    assert(self.ring@ == r0.push(msg));
                    assert(self.pending(i) =~= old(self).pending(i).push(msg));
                    assert(old(self).pending(i).len() < old(self).spec_capacity());
                }
            }
            assert(self.wf()) by {
                assert(forall|i: int|
                    0 <= i < self.cursors@.len() ==> (#[trigger] self.cursors@[i])
                        <= self.ring@.len());
            }
        }
    }

    /// Hands the subscriber its oldest unread message, or nothing when
    /// it has read everything.
    pub fn recv(&mut self, id: usize) -> (r: Option<Response>)
        requires
            old(self).wf(),
            id < old(self).subscriber_count(),
        ensures
            final(self).wf(),
            final(self).spec_capacity() == old(self).spec_capacity(),
            final(self).subscriber_count() == old(self).subscriber_count(),
            forall|i: int|
                0 <= i < old(self).subscriber_count() && i != id as int
                    ==> #[trigger] final(self).pending(i) == old(self).pending(i),
            match r {
                Some(m) => old(self).pending(id as int).len() > 0 && resp_like(
                    &m,
                    &old(self).pending(id as int)[0],
                ) && final(self).pending(id as int) == old(self).pending(id as int).skip(1),
                None => old(self).pending(id as int).len() == 0 && final(self).pending(id as int)
                    == old(self).pending(id as int),
            },
    {
        let c = self.cursors[id];
        if c < self.ring.len() {
            let msg = self.ring[c].clone();
            self.cursors[id] = c + 1;
            proof {
                assert(self.pending(id as int) =~= old(self).pending(id as int).skip(1));
                assert(old(self).pending(id as int)[0] == old(self).ring@[c as int]);
                assert(forall|i: int|
                    0 <= i < old(self).subscriber_count() && i != id as int ==> (
                    #[trigger] self.cursors@[i]) == old(self).cursors@[i]);
            }
            Some(msg)
        } else {
            proof {
                assert(old(self).pending(id as int).len() == 0);
            }
            None
        }
    }
}

} // verus!
