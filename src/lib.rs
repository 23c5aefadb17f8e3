//! Socket personalities of a ZeroMQ-style messaging library (REQ, REP, PUB),
//! written as verified state machines. Each socket decides what to do with
//! an application call or an inbound message; moving bytes is left to the
//! caller.

pub mod error;
pub mod message;
pub mod registry;
pub mod binds;
pub mod dispatch;
pub mod endpoint;
pub mod fair_queue;
pub mod subscription;
pub mod pub_socket;
pub mod req_socket;
pub mod socket_type;
pub mod rep_socket;
