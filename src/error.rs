use vstd::prelude::*;
use crate::message::ZmqMessage;

verus! {

/// Why a message was handed back to the caller of `send`.
#[derive(PartialEq, Eq, Structural, Clone, Copy, Debug)]
pub enum SendRefusal {
    /// A REQ socket already waits for a reply.
    RequestInProgress,
    /// No live peer could take the message.
    NotConnected,
    /// A REP socket holds no request to answer.
    NoRequestInProgress,
    /// The peer that sent the current request has gone.
    ClientDisconnected,
}

/// Failures of `recv` that carry no message.
#[derive(PartialEq, Eq, Structural, Clone, Copy, Debug)]
pub enum RecvFailure {
    /// A REQ socket has sent no request.
    NoRequestInProgress,
    /// The reply did not have the delimiter-and-body shape.
    WrongMessageType,
    /// The peer that got the request has gone.
    ServerDisconnected,
    /// A REP socket still owes the reply to the last request.
    ReplyOwed,
}

#[derive(Debug)]
pub enum ZmqError {
    ReturnToSender { reason: SendRefusal, message: ZmqMessage },
    Other(RecvFailure),
    /// Nothing to receive now.
    NoMessage,
    /// Peer `peer` broke the wire protocol and was dropped.
    ProtocolError { peer: u64 },
    /// `unbind` of an endpoint the socket is not bound to.
    NoSuchBind,
    /// Writing to a peer's connection failed.
    Io,
}

impl SendRefusal {
    /// The reason as text.
    pub fn text(&self) -> (r: &'static str)
        ensures
            *self == SendRefusal::ClientDisconnected ==> r@ == "client disconnected"@,
            *self == SendRefusal::RequestInProgress ==> r@ == "request already in progress"@,
            *self == SendRefusal::NotConnected ==> r@ == "not connected to peers"@,
            *self == SendRefusal::NoRequestInProgress ==> r@ == "no request in progress"@,
    {
        match self {
            SendRefusal::RequestInProgress => "request already in progress",
            SendRefusal::NotConnected => "not connected to peers",
            SendRefusal::NoRequestInProgress => "no request in progress",
            SendRefusal::ClientDisconnected => "client disconnected",
        }
    }
}

} // verus!

verus! {

/// `r` hands `body` back to the sender for reason `why`.
pub open spec fn returned<T>(r: Result<T, ZmqError>, why: SendRefusal, body: Seq<u8>) -> bool {
    match r {
        Err(ZmqError::ReturnToSender { reason, message }) => reason == why && message@ == body,
        _ => false,
    }
}

/// `r` is the failure `why`.
pub open spec fn failed_with<T>(r: Result<T, ZmqError>, why: RecvFailure) -> bool {
    match r {
        Err(ZmqError::Other(f)) => f == why,
        _ => false,
    }
}

} // verus!
