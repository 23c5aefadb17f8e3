use vstd::prelude::*;
use crate::error::{RecvFailure, SendRefusal, ZmqError, failed_with, returned};
use crate::fair_queue::{FairQueue, InboxView, after, all_idle, first_ready, position_of};
use crate::message::{ZmqMessage, envelope_of, is_envelope, open_envelope, wrap_envelope};
use crate::registry::PeerTable;
use crate::socket_type::SocketType;

verus! {

/// A replier: takes requests from its peers in turn and routes each reply to
/// the peer whose request it answers.
pub struct RepSocket {
    peers: PeerTable,
    fair_queue: FairQueue,
    current_request: Option<u64>,
}

impl RepSocket {
    /// The kind this socket announces to its peers.
    pub fn socket_type(&self) -> (r: SocketType)
        ensures
            r == SocketType::Rep,
    {
        SocketType::Rep
    }

    /// The identities of the live peers.
    pub closed spec fn peers(&self) -> Set<u64> {
        self.peers@.dom()
    }

    /// The inboxes of the peers, in serving order.
    pub closed spec fn inboxes(&self) -> Seq<InboxView> {
        self.fair_queue.entries()
    }

    /// The peer to try first.
    pub closed spec fn cursor(&self) -> int {
        self.fair_queue.cursor()
    }

    /// The peer owed a reply, if any.
    pub closed spec fn current(&self) -> Option<u64> {
        self.current_request
    }

    pub closed spec fn wf(&self) -> bool {
        self.fair_queue.wf()
    }

    pub fn new() -> (r: RepSocket)
        ensures
            r.wf(),
            r.peers() == Set::<u64>::empty(),
            r.inboxes().len() == 0,
            r.current() is None,
    {
        RepSocket { peers: PeerTable::new(), fair_queue: FairQueue::new(), current_request: None }
    }

    /// A peer joins: it is live and gets an inbox at the end of the ring.
    pub fn peer_connected(&mut self, id: u64)
        requires
            old(self).wf(),
        ensures
            final(self).wf(),
            final(self).peers() == old(self).peers().insert(id),
            !(exists|k: int| position_of(old(self).inboxes(), id, k)) ==> final(self).inboxes()
                == old(self).inboxes().push((id, Seq::<Seq<Seq<u8>>>::empty())),
            (exists|k: int| position_of(old(self).inboxes(), id, k)) ==> final(self).inboxes() == old(self).inboxes(),
            final(self).current() == old(self).current(),
    {
        self.peers.insert(id, Vec::new());
        self.fair_queue.insert(id);
    }

    /// A peer leaves: it is no longer live, and its inbox goes with what it
    /// held.
    pub fn peer_disconnected(&mut self, id: u64)
        requires
            old(self).wf(),
        ensures
            final(self).wf(),
            final(self).peers() == old(self).peers().remove(id),
            forall|k: int| position_of(old(self).inboxes(), id, k) ==> final(self).inboxes() == old(self).inboxes().remove(k),
            !(exists|k: int| position_of(old(self).inboxes(), id, k)) ==> final(self).inboxes() == old(self).inboxes(),
            forall|k: int| !position_of(final(self).inboxes(), id, k),
            final(self).current() == old(self).current(),
    {
        self.peers.remove(id);
        self.fair_queue.remove(id);
    }

    /// Drops every peer, with what it had sent.
    pub fn shutdown(&mut self)
        ensures
            final(self).wf(),
            final(self).peers() == Set::<u64>::empty(),
            final(self).inboxes().len() == 0,
            final(self).current() == old(self).current(),
    {
        self.peers.clear();
        self.fair_queue.clear();
    }

    /// A message from peer `id` joins that peer's inbox; one from a peer
    /// that is not live is dropped.
    pub fn message_received(&mut self, id: u64, frames: Vec<Vec<u8>>)
        requires
            old(self).wf(),
        ensures
            final(self).wf(),
            old(self).peers().contains(id) ==> forall|k: int| position_of(old(self).inboxes(), id, k)
                ==> final(self).inboxes() == old(self).inboxes().update(
                    k,
                    (id, old(self).inboxes()[k].1.push(frames.deep_view())),
                ),
            !old(self).peers().contains(id) || !(exists|k: int| position_of(old(self).inboxes(), id, k))
                ==> final(self).inboxes() == old(self).inboxes(),
            final(self).peers() == old(self).peers(),
            final(self).current() == old(self).current(),
    {
        if self.peers.contains(id) {
            self.fair_queue.push(id, frames);
        }
    }

    /// Takes the next request, peers served in turn. Its peer is then owed
    /// the reply. A request that is not a delimiter and a body drops its
    /// peer, which is reported. `NoMessage` when no peer has sent anything.
    /// Refused while the reply to the last request is still owed. On
    /// `NoMessage` and on refusal nothing changes.
    pub fn recv(&mut self) -> (r: Result<ZmqMessage, ZmqError>)
        requires
            old(self).wf(),
        ensures
            final(self).wf(),
            old(self).current() is Some ==> failed_with(r, RecvFailure::ReplyOwed) && *final(self) == *old(self),
            old(self).current() is None ==> ((r matches Err(ZmqError::NoMessage)) <==> all_idle(old(self).inboxes())),
            (r matches Err(ZmqError::NoMessage)) ==> *final(self) == *old(self),
            r matches Ok(m) ==> exists|idx: int| {
                &&& #[trigger] first_ready(old(self).inboxes(), old(self).cursor(), idx)
                &&& is_envelope(old(self).inboxes()[idx].1[0])
                &&& m@ == old(self).inboxes()[idx].1[0][1]
                &&& final(self).current() == Some(old(self).inboxes()[idx].0)
                &&& final(self).inboxes() == old(self).inboxes().update(
                    idx,
                    (old(self).inboxes()[idx].0, old(self).inboxes()[idx].1.drop_first()),
                )
                &&& final(self).cursor() == after(idx, old(self).inboxes().len() as int)
                &&& final(self).peers() == old(self).peers()
            },
            r matches Err(ZmqError::ProtocolError { peer }) ==> old(self).current() is None && exists|idx: int| {
                &&& #[trigger] first_ready(old(self).inboxes(), old(self).cursor(), idx)
                &&& !is_envelope(old(self).inboxes()[idx].1[0])
                &&& peer == old(self).inboxes()[idx].0
                &&& final(self).peers() == old(self).peers().remove(peer)
                &&& final(self).inboxes() == old(self).inboxes().remove(idx)
                &&& final(self).current() == old(self).current()
            },
            r is Ok ==> old(self).current() is None,
            old(self).current() is None ==> (r is Ok || r matches Err(ZmqError::NoMessage) || r matches Err(ZmqError::ProtocolError { .. })),
    {
        if self.current_request.is_some() {
            return Err(ZmqError::Other(RecvFailure::ReplyOwed));
        }
        let ghost q = self.fair_queue.entries();
        match self.fair_queue.next() {
            None => Err(ZmqError::NoMessage),
            Some((peer, frames)) => {
                let ghost idx = choose|idx: int| {
                    &&& #[trigger] first_ready(q, old(self).cursor(), idx)
                    &&& peer == q[idx].0
                    &&& frames.deep_view() == q[idx].1[0]
                    &&& self.fair_queue.entries() == q.update(idx, (peer, q[idx].1.drop_first()))
                    &&& self.fair_queue.cursor() == after(idx, q.len() as int)
                };
                match open_envelope(frames) {
                    Some(m) => {
                        self.current_request = Some(peer);
                        Ok(m)
                    },
                    None => {
                        let ghost mid = self.fair_queue.entries();
                        self.peers.remove(peer);
                        self.fair_queue.remove(peer);
                        proof {
                            assert(position_of(mid, peer, idx));
                            assert(mid.remove(idx) =~= q.remove(idx));
                        }
                        Err(ZmqError::ProtocolError { peer })
                    },
                }
            },
        }
    }

    /// Answers the request in progress: the frames to write and the peer to
    /// write them to, which is the peer the request came from. The message is
    /// handed back when there is no request to answer or its peer has gone.
    /// Either way no reply is owed afterwards.
    pub fn send(&mut self, message: ZmqMessage) -> (r: Result<(u64, Vec<Vec<u8>>), ZmqError>)
        ensures
            old(self).current() is None ==> returned(r, SendRefusal::NoRequestInProgress, message@),
            old(self).current() is Some && !old(self).peers().contains(old(self).current().unwrap())
                ==> returned(r, SendRefusal::ClientDisconnected, message@),
            old(self).current() is Some && old(self).peers().contains(old(self).current().unwrap())
                ==> (r matches Ok((p, frames)) && p == old(self).current().unwrap()
                && frames.deep_view() == envelope_of(message@)),
            final(self).current() is None,
            final(self).peers() == old(self).peers(),
            final(self).inboxes() == old(self).inboxes(),
            final(self).cursor() == old(self).cursor(),
            final(self).wf() == old(self).wf(),
    {
        match self.current_request.take() {
            None => Err(ZmqError::ReturnToSender { reason: SendRefusal::NoRequestInProgress, message }),
            Some(p) => {
                if self.peers.contains(p) {
                    Ok((p, wrap_envelope(message)))
                } else {
                    Err(ZmqError::ReturnToSender { reason: SendRefusal::ClientDisconnected, message })
                }
            },
        }
    }
}

} // verus!
