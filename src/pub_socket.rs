use vstd::prelude::*;
use crate::message::{ZmqMessage, lemma_frames_view};
use crate::registry::PeerTable;
use crate::socket_type::SocketType;
use crate::subscription::{after_control, apply_control, matches_any, subscribed};

verus! {

/// A publisher: broadcasts each message to the subscribers whose prefixes
/// match it, and never waits for any of them.
pub struct PubSocket {
    subscribers: PeerTable,
}

impl PubSocket {
    /// The kind this socket announces to its peers.
    pub fn socket_type(&self) -> (r: SocketType)
        ensures
            r == SocketType::Pub,
    {
        SocketType::Pub
    }

    /// Each connected subscriber with its subscription prefixes.
    pub closed spec fn subscriptions(&self) -> Map<u64, Seq<Seq<u8>>> {
        self.subscribers@
    }

    pub fn new() -> (r: PubSocket)
        ensures
            r.subscriptions().dom() == Set::<u64>::empty(),
    {
        PubSocket { subscribers: PeerTable::new() }
    }

    /// A subscriber joins with no subscriptions.
    pub fn peer_connected(&mut self, id: u64)
        ensures
            final(self).subscriptions() == old(self).subscriptions().insert(id, Seq::<Seq<u8>>::empty()),
    {
        let none: Vec<Vec<u8>> = Vec::new();
        proof {
            lemma_frames_view(none);
        }
        assert(none.deep_view() =~= Seq::<Seq<u8>>::empty());
        self.subscribers.insert(id, none);
    }

    pub fn peer_disconnected(&mut self, id: u64)
        ensures
            final(self).subscriptions() == old(self).subscriptions().remove(id),
    {
        self.subscribers.remove(id);
    }

    /// Drops every subscriber.
    pub fn shutdown(&mut self)
        ensures
            final(self).subscriptions().dom() == Set::<u64>::empty(),
    {
        self.subscribers.clear();
    }

    /// A message from a subscriber: a single frame is a subscription control
    /// frame for that subscriber; anything else is ignored.
    pub fn message_received(&mut self, id: u64, frames: Vec<Vec<u8>>)
        ensures
            old(self).subscriptions().contains_key(id) && frames@.len() == 1
                ==> final(self).subscriptions() == old(self).subscriptions().insert(
                    id,
                    after_control(old(self).subscriptions()[id], frames@[0]@),
                ),
            !(old(self).subscriptions().contains_key(id) && frames@.len() == 1)
                ==> final(self).subscriptions() == old(self).subscriptions(),
    {
        if frames.len() != 1 {
            return;
        }
        match self.subscribers.get(id) {
            None => {},
            Some(subs) => {
                let mut subs = subs;
                apply_control(&mut subs, &frames[0]);
                self.subscribers.insert(id, subs);
            },
        }
    }

    /// Whether subscriber `id` takes `message`.
    fn wants(&self, id: u64, message: &ZmqMessage) -> (r: bool)
        ensures
            r == (self.subscriptions().contains_key(id) && matches_any(self.subscriptions()[id], message@)),
    {
        match self.subscribers.get(id) {
            Some(subs) => subscribed(&subs, &message.data),
            None => false,
        }
    }

    /// The subscribers that `message` goes to: each one with a subscription
    /// that prefixes the message, once.
    pub fn send(&self, message: &ZmqMessage) -> (r: Vec<u64>)
        ensures
            r@.no_duplicates(),
            forall|id: u64|
                r@.contains(id) <==> (self.subscriptions().contains_key(id) && matches_any(
                    #[trigger] self.subscriptions()[id],
                    message@,
                )),
    {
        let ids = self.subscribers.ids();
        let mut out: Vec<u64> = Vec::new();
        let mut i: usize = 0;
        while i < ids.len()
            invariant
                0 <= i <= ids.len(),
                out@ == recipients(ids@.subrange(0, i as int), self.subscriptions(), message@),
            decreases ids.len() - i,
        {
            let id = ids[i];
            assert(ids@.subrange(0, i + 1).drop_last() =~= ids@.subrange(0, i as int));
            if self.wants(id, message) {
                out.push(id);
            }
            i = i + 1;
        }
        proof {
            assert(ids@.subrange(0, ids@.len() as int) =~= ids@);
            lemma_recipients(ids@, self.subscriptions(), message@);
            assert forall|x: u64| ids@.contains(x) <==> #[trigger] self.subscriptions().contains_key(x) by {
                assert(ids@.to_set().contains(x) == ids@.contains(x));
            }
        }
        out
    }
}

/// Those of `ids` whose subscriptions take `data`, in order.
pub open spec fn recipients(ids: Seq<u64>, subs: Map<u64, Seq<Seq<u8>>>, data: Seq<u8>) -> Seq<u64>
    decreases ids.len(),
{
    if ids.len() == 0 {
        Seq::empty()
    } else {
        let rest = recipients(ids.drop_last(), subs, data);
        let id = ids.last();
        if subs.contains_key(id) && matches_any(subs[id], data) {
            rest.push(id)
        } else {
            rest
        }
    }
}

proof fn lemma_recipients(ids: Seq<u64>, subs: Map<u64, Seq<Seq<u8>>>, data: Seq<u8>)
    requires
        ids.no_duplicates(),
    ensures
        recipients(ids, subs, data).no_duplicates(),
        forall|x: u64| #[trigger] recipients(ids, subs, data).contains(x) <==> (ids.contains(x)
            && subs.contains_key(x) && matches_any(subs[x], data)),
    decreases ids.len(),
{
    if ids.len() > 0 {
        let init = ids.drop_last();
        let id = ids.last();
        assert(init.no_duplicates());
        lemma_recipients(init, subs, data);
        assert(ids =~= init.push(id));
        assert(!init.contains(id)) by {
            if init.contains(id) {
                let j = choose|j: int| 0 <= j < init.len() && init[j] == id;
                assert(ids[j] == ids[ids.len() - 1]);
            }
        }
        let rest = recipients(init, subs, data);
        assert forall|x: u64| #[trigger] recipients(ids, subs, data).contains(x) <==> (ids.contains(x)
            && subs.contains_key(x) && matches_any(subs[x], data)) by {
            lemma_push_contains(init, id, x);
            lemma_push_contains(rest, id, x);
            assert(rest.contains(x) <==> (init.contains(x) && subs.contains_key(x) && matches_any(subs[x], data)));
        }
        if subs.contains_key(id) && matches_any(subs[id], data) {
            let all = rest.push(id);
            assert(!rest.contains(id));
            assert forall|a: int, b: int| 0 <= a < all.len() && 0 <= b < all.len() && a != b
                implies #[trigger] all[a] != #[trigger] all[b] by {
                if a == rest.len() {
                    assert(rest[b] != id) by {
                        if rest[b] == id {
                            assert(rest.contains(id));
                        }
                    }
                } else if b == rest.len() {
                    assert(rest[a] != id) by {
                        if rest[a] == id {
                            assert(rest.contains(id));
                        }
                    }
                }
            }
        }
    }
}

proof fn lemma_push_contains(s: Seq<u64>, a: u64, x: u64)
    ensures
        s.push(a).contains(x) == (s.contains(x) || x == a),
{
    if s.push(a).contains(x) && x != a {
        let j = choose|j: int| 0 <= j < s.push(a).len() && s.push(a)[j] == x;
        assert(s[j] == x);
    }
    if s.contains(x) {
        let j = choose|j: int| 0 <= j < s.len() && s[j] == x;
        assert(s.push(a)[j] == x);
    }
    assert(s.push(a)[s.len() as int] == a);
}

} // verus!
