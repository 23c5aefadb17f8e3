use vstd::prelude::*;

verus! {

/// The socket kinds that peers announce to each other in the greeting.
#[derive(PartialEq, Eq, Structural, Clone, Copy, Debug)]
pub enum SocketType {
    Pair,
    Pub,
    Sub,
    Req,
    Rep,
    Dealer,
    Router,
    Pull,
    Push,
    XPub,
    XSub,
    Stream,
}

impl SocketType {
    /// The name carried in the greeting's socket-type property.
    pub fn name(&self) -> (r: &'static str)
        ensures
            *self == SocketType::Req ==> r@ == "REQ"@,
            *self == SocketType::Rep ==> r@ == "REP"@,
            *self == SocketType::Pub ==> r@ == "PUB"@,
            *self == SocketType::Sub ==> r@ == "SUB"@,
    {
        match self {
            SocketType::Pair => "PAIR",
            SocketType::Pub => "PUB",
            SocketType::Sub => "SUB",
            SocketType::Req => "REQ",
            SocketType::Rep => "REP",
            SocketType::Dealer => "DEALER",
            SocketType::Router => "ROUTER",
            SocketType::Pull => "PULL",
            SocketType::Push => "PUSH",
            SocketType::XPub => "XPUB",
            SocketType::XSub => "XSUB",
            SocketType::Stream => "STREAM",
        }
    }
}

} // verus!
