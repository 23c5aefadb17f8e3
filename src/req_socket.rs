use vstd::prelude::*;
use crate::dispatch::{RoundRobin, first_live};
use crate::error::{RecvFailure, SendRefusal, ZmqError, failed_with, returned};
use crate::message::{ZmqMessage, envelope_of, is_envelope, open_envelope, wrap_envelope};
use crate::registry::PeerTable;
use crate::socket_type::SocketType;

verus! {

/// A requester: strictly alternates `send` and `recv`, load-balancing
/// requests over its peers and accepting a reply only from the peer that got
/// the request.
pub struct ReqSocket {
    peers: PeerTable,
    round_robin: RoundRobin,
    current_request: Option<u64>,
    reply: Option<Vec<Vec<u8>>>,
}

impl ReqSocket {
    /// The kind this socket announces to its peers.
    pub fn socket_type(&self) -> (r: SocketType)
        ensures
            r == SocketType::Req,
    {
        SocketType::Req
    }

    /// The identities of the live peers.
    pub closed spec fn peers(&self) -> Set<u64> {
        self.peers@.dom()
    }

    /// The dispatch queue, head first.
    pub closed spec fn queue(&self) -> Seq<u64> {
        self.round_robin@
    }

    /// The peer whose reply is awaited, if a request is in progress.
    pub closed spec fn current(&self) -> Option<u64> {
        self.current_request
    }

    /// The reply taken in from that peer and not yet received.
    pub closed spec fn pending(&self) -> Option<Seq<Seq<u8>>> {
        match self.reply {
            Some(f) => Some(f.deep_view()),
            None => None,
        }
    }

    pub fn new() -> (r: ReqSocket)
        ensures
            r.peers() == Set::<u64>::empty(),
            r.queue() == Seq::<u64>::empty(),
            r.current() is None,
            r.pending() is None,
    {
        ReqSocket {
            peers: PeerTable::new(),
            round_robin: RoundRobin::new(),
            current_request: None,
            reply: None,
        }
    }

    /// A peer joins: it is live and queued for dispatch.
    pub fn peer_connected(&mut self, id: u64)
        ensures
            final(self).peers() == old(self).peers().insert(id),
            final(self).queue() == old(self).queue().push(id),
            final(self).current() == old(self).current(),
            final(self).pending() == old(self).pending(),
    {
        self.peers.insert(id, Vec::new());
        self.round_robin.add(id);
    }

    /// A peer leaves. Its identity may stay queued; dispatch skips it.
    pub fn peer_disconnected(&mut self, id: u64)
        ensures
            final(self).peers() == old(self).peers().remove(id),
            final(self).queue() == old(self).queue(),
            final(self).current() == old(self).current(),
            final(self).pending() == old(self).pending(),
    {
        self.peers.remove(id);
    }

    /// Drops every peer.
    pub fn shutdown(&mut self)
        ensures
            final(self).peers() == Set::<u64>::empty(),
            final(self).queue() == old(self).queue(),
            final(self).current() == old(self).current(),
            final(self).pending() == old(self).pending(),
    {
        self.peers.clear();
    }

    /// Starts a request: picks the next live peer in turn and returns it with
    /// the frames to write to it. Refused, with the message handed back, while
    /// a request is in progress or when no peer is live.
    pub fn send(&mut self, message: ZmqMessage) -> (r: Result<(u64, Vec<Vec<u8>>), ZmqError>)
        ensures
            old(self).current() is Some ==> returned(r, SendRefusal::RequestInProgress, message@)
                && *final(self) == *old(self),
            old(self).current() is None && (forall|j: int| 0 <= j < old(self).queue().len()
                ==> !old(self).peers().contains(#[trigger] old(self).queue()[j]))
                ==> returned(r, SendRefusal::NotConnected, message@)
                && final(self).queue().len() == 0
                && final(self).current() is None,
            old(self).current() is None && !(forall|j: int| 0 <= j < old(self).queue().len()
                ==> !old(self).peers().contains(#[trigger] old(self).queue()[j])) ==> r is Ok,
            r matches Ok((p, frames)) ==> {
                &&& old(self).current() is None
                &&& exists|k: int| #[trigger] first_live(old(self).queue(), old(self).peers(), k)
                    && p == old(self).queue()[k]
                    && final(self).queue() == old(self).queue().subrange(k + 1, old(self).queue().len() as int).push(p)
                &&& frames.deep_view() == envelope_of(message@)
                &&& final(self).current() == Some(p)
                &&& final(self).pending() is None
            },
            r is Err ==> final(self).current() == old(self).current() && final(self).pending() == old(self).pending(),
            final(self).peers() == old(self).peers(),
    {
        if self.current_request.is_some() {
            return Err(ZmqError::ReturnToSender { reason: SendRefusal::RequestInProgress, message });
        }
        let ghost q0 = self.round_robin@;
        let ghost live = self.peers@.dom();
        match self.round_robin.next(&self.peers) {
            None => {
                assert(forall|j: int| 0 <= j < q0.len() ==> !live.contains(#[trigger] q0[j]));
                Err(ZmqError::ReturnToSender { reason: SendRefusal::NotConnected, message })
            },
            Some(p) => {
                proof {
                    let k = choose|k: int| #[trigger] first_live(q0, live, k) && p == q0[k]
                        && self.round_robin@ == q0.subrange(k + 1, q0.len() as int).push(p);
                    assert(first_live(old(self).queue(), old(self).peers(), k));
                }
                self.current_request = Some(p);
                self.reply = None;
                Ok((p, wrap_envelope(message)))
            },
        }
    }

    /// An inbound message from peer `id`. It is kept as the reply only when
    /// it comes from the peer of the request in progress, that peer is still
    /// live, and no reply is held yet; any other is discarded. Returns
    /// whether it was kept.
    pub fn message_received(&mut self, id: u64, frames: Vec<Vec<u8>>) -> (r: bool)
        ensures
            r == (old(self).current() == Some(id) && old(self).pending() is None && old(self).peers().contains(id)),
            r ==> final(self).pending() == Some(frames.deep_view()),
            !r ==> final(self).pending() == old(self).pending(),
            final(self).current() == old(self).current(),
            final(self).peers() == old(self).peers(),
            final(self).queue() == old(self).queue(),
    {
        match self.current_request {
            Some(c) => {
                if c == id && self.reply.is_none() && self.peers.contains(id) {
                    self.reply = Some(frames);
                    true
                } else {
                    false
                }
            },
            None => false,
        }
    }

    /// Completes the request in progress with its reply's body. Fails with no
    /// request in progress, when the peer has gone, or on a reply that is not
    /// a delimiter and a body; `NoMessage` while the reply has not come, and
    /// then nothing changes.
    pub fn recv(&mut self) -> (r: Result<ZmqMessage, ZmqError>)
        ensures
            old(self).current() is None ==> failed_with(r, RecvFailure::NoRequestInProgress)
                && *final(self) == *old(self),
            old(self).current() is Some && !old(self).peers().contains(old(self).current().unwrap())
                ==> failed_with(r, RecvFailure::ServerDisconnected)
                && final(self).current() is None && final(self).pending() is None,
            old(self).current() is Some && old(self).peers().contains(old(self).current().unwrap())
                && old(self).pending() is None ==> (r matches Err(ZmqError::NoMessage)) && *final(self) == *old(self),
            old(self).current() is Some && old(self).peers().contains(old(self).current().unwrap())
                && old(self).pending() is Some ==> {
                &&& final(self).current() is None
                &&& final(self).pending() is None
                &&& is_envelope(old(self).pending().unwrap()) ==> (r matches Ok(m) && m@ == old(self).pending().unwrap()[1])
                &&& !is_envelope(old(self).pending().unwrap()) ==> failed_with(r, RecvFailure::WrongMessageType)
            },
            final(self).peers() == old(self).peers(),
            final(self).queue() == old(self).queue(),
    {
        match self.current_request {
            None => Err(ZmqError::Other(RecvFailure::NoRequestInProgress)),
            Some(p) => {
                if !self.peers.contains(p) {
                    self.current_request = None;
                    self.reply = None;
                    return Err(ZmqError::Other(RecvFailure::ServerDisconnected));
                }
                match self.reply.take() {
                    None => Err(ZmqError::NoMessage),
                    Some(frames) => {
                        self.current_request = None;
                        match open_envelope(frames) {
                            Some(m) => Ok(m),
                            None => Err(ZmqError::Other(RecvFailure::WrongMessageType)),
                        }
                    },
                }
            },
        }
    }
}

} // verus!
