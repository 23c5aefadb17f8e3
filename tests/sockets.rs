use zeromq::error::{RecvFailure, SendRefusal, ZmqError};
use zeromq::message::ZmqMessage;
use zeromq::pub_socket::PubSocket;
use zeromq::rep_socket::RepSocket;
use zeromq::req_socket::ReqSocket;
use zeromq::socket_type::SocketType;

fn msg(s: &str) -> ZmqMessage {
    ZmqMessage::new(s.as_bytes().to_vec())
}

fn text(m: &ZmqMessage) -> String {
    String::from_utf8(m.data.clone()).unwrap()
}

fn control(op: u8, prefix: &str) -> Vec<Vec<u8>> {
    let mut f = vec![op];
    f.extend_from_slice(prefix.as_bytes());
    vec![f]
}

#[test]
fn req_rep_ping_512_iterations() {
    let mut req = ReqSocket::new();
    let mut rep = RepSocket::new();
    req.peer_connected(1);
    rep.peer_connected(2);
    for i in 0..512 {
        let (to, frames) = req.send(msg(&format!("Req - {}", i))).unwrap();
        assert_eq!(to, 1);
        assert_eq!(frames.len(), 2);
        assert!(frames[0].is_empty());
        rep.message_received(2, frames);
        let request = rep.recv().unwrap();
        assert_eq!(text(&request), format!("Req - {}", i));
        let reply = format!("{} Rep - {}", text(&request), i);
        let (back, frames) = rep.send(msg(&reply)).unwrap();
        assert_eq!(back, 2);
        assert!(req.message_received(1, frames));
        let got = req.recv().unwrap();
        assert_eq!(text(&got), format!("Req - {} Rep - {}", i, i));
    }
}

#[test]
fn req_round_robin_over_three_peers() {
    let mut req = ReqSocket::new();
    req.peer_connected(10);
    req.peer_connected(11);
    req.peer_connected(12);
    let mut order = Vec::new();
    for i in 0..6 {
        let (to, _) = req.send(msg(&format!("r{}", i))).unwrap();
        order.push(to);
        let mut reply = vec![Vec::new()];
        reply.push(b"ok".to_vec());
        assert!(req.message_received(to, reply));
        assert_eq!(text(&req.recv().unwrap()), "ok");
    }
    assert_eq!(order, vec![10, 11, 12, 10, 11, 12]);
}

#[test]
fn req_round_robin_skips_departed_peer() {
    let mut req = ReqSocket::new();
    req.peer_connected(1);
    req.peer_connected(2);
    req.peer_disconnected(1);
    let (to, _) = req.send(msg("x")).unwrap();
    assert_eq!(to, 2);
}

#[test]
fn pub_subscription_gating() {
    let mut p = PubSocket::new();
    p.peer_connected(1);
    p.peer_connected(2);
    p.message_received(1, control(1, "odd:"));
    p.message_received(2, control(1, ""));
    let mut s1 = Vec::new();
    let mut s2 = Vec::new();
    for body in ["odd:1", "even:2", "odd:3"] {
        for id in p.send(&msg(body)) {
            if id == 1 {
                s1.push(body);
            } else if id == 2 {
                s2.push(body);
            }
        }
    }
    assert_eq!(s1, vec!["odd:1", "odd:3"]);
    assert_eq!(s2, vec!["odd:1", "even:2", "odd:3"]);
}

#[test]
fn pub_unsubscribe_stops_delivery() {
    let mut p = PubSocket::new();
    p.peer_connected(7);
    p.message_received(7, control(1, "x"));
    assert_eq!(p.send(&msg("xyz")), vec![7]);
    p.message_received(7, control(0, "x"));
    assert!(p.send(&msg("xyz")).is_empty());
}

#[test]
fn pub_unsubscribe_removes_one_copy() {
    let mut p = PubSocket::new();
    p.peer_connected(7);
    p.message_received(7, control(1, "a"));
    p.message_received(7, control(1, "a"));
    p.message_received(7, control(0, "a"));
    assert_eq!(p.send(&msg("abc")), vec![7]);
    p.message_received(7, control(0, "a"));
    assert!(p.send(&msg("abc")).is_empty());
}

#[test]
fn pub_ignores_other_control_bytes_and_shapes() {
    let mut p = PubSocket::new();
    p.peer_connected(3);
    p.message_received(3, control(2, "z"));
    p.message_received(3, vec![vec![1, b'z'], vec![1]]);
    p.message_received(3, vec![Vec::new()]);
    assert!(p.send(&msg("zz")).is_empty());
}

#[test]
fn pub_sends_each_subscriber_once() {
    let mut p = PubSocket::new();
    p.peer_connected(4);
    p.message_received(4, control(1, "a"));
    p.message_received(4, control(1, "ab"));
    assert_eq!(p.send(&msg("abc")), vec![4]);
    p.peer_disconnected(4);
    assert!(p.send(&msg("abc")).is_empty());
}

#[test]
fn rep_disconnect_mid_reply_returns_message() {
    let mut rep = RepSocket::new();
    rep.peer_connected(5);
    rep.message_received(5, vec![Vec::new(), b"hello".to_vec()]);
    assert_eq!(text(&rep.recv().unwrap()), "hello");
    rep.peer_disconnected(5);
    match rep.send(msg("reply")) {
        Err(ZmqError::ReturnToSender { reason, message }) => {
            assert_eq!(reason, SendRefusal::ClientDisconnected);
            assert_eq!(reason.text(), "client disconnected");
            assert_eq!(text(&message), "reply");
        }
        other => panic!("unexpected {:?}", other),
    }
    match rep.send(msg("again")) {
        Err(ZmqError::ReturnToSender { reason, .. }) => {
            assert_eq!(reason, SendRefusal::NoRequestInProgress)
        }
        other => panic!("unexpected {:?}", other),
    }
}

#[test]
fn req_double_send_is_refused() {
    let mut req = ReqSocket::new();
    req.peer_connected(1);
    req.peer_connected(2);
    let (to, _) = req.send(msg("first")).unwrap();
    assert_eq!(to, 1);
    match req.send(msg("second")) {
        Err(ZmqError::ReturnToSender { reason, message }) => {
            assert_eq!(reason, SendRefusal::RequestInProgress);
            assert_eq!(reason.text(), "request already in progress");
            assert_eq!(text(&message), "second");
        }
        other => panic!("unexpected {:?}", other),
    }
    assert!(req.message_received(1, vec![Vec::new(), b"answer".to_vec()]));
    assert_eq!(text(&req.recv().unwrap()), "answer");
    let (next, _) = req.send(msg("third")).unwrap();
    assert_eq!(next, 2);
}

#[test]
fn req_recv_without_send_fails() {
    let mut req = ReqSocket::new();
    req.peer_connected(1);
    match req.recv() {
        Err(ZmqError::Other(f)) => assert_eq!(f, RecvFailure::NoRequestInProgress),
        other => panic!("unexpected {:?}", other),
    }
}

#[test]
fn req_without_peers_is_not_connected() {
    let mut req = ReqSocket::new();
    match req.send(msg("x")) {
        Err(ZmqError::ReturnToSender { reason, message }) => {
            assert_eq!(reason, SendRefusal::NotConnected);
            assert_eq!(text(&message), "x");
        }
        other => panic!("unexpected {:?}", other),
    }
}

#[test]
fn req_discards_stray_replies() {
    let mut req = ReqSocket::new();
    req.peer_connected(1);
    req.peer_connected(2);
    assert!(!req.message_received(1, vec![Vec::new(), b"early".to_vec()]));
    let (to, _) = req.send(msg("q")).unwrap();
    assert_eq!(to, 1);
    assert!(!req.message_received(2, vec![Vec::new(), b"stray".to_vec()]));
    assert!(matches!(req.recv(), Err(ZmqError::NoMessage)));
    assert!(req.message_received(1, vec![Vec::new(), b"right".to_vec()]));
    assert_eq!(text(&req.recv().unwrap()), "right");
}

#[test]
fn req_wrong_reply_shape() {
    let mut req = ReqSocket::new();
    req.peer_connected(1);
    req.send(msg("q")).unwrap();
    assert!(req.message_received(1, vec![b"body".to_vec()]));
    match req.recv() {
        Err(ZmqError::Other(f)) => assert_eq!(f, RecvFailure::WrongMessageType),
        other => panic!("unexpected {:?}", other),
    }
}

#[test]
fn req_server_disconnected() {
    let mut req = ReqSocket::new();
    req.peer_connected(1);
    req.send(msg("q")).unwrap();
    req.peer_disconnected(1);
    match req.recv() {
        Err(ZmqError::Other(f)) => assert_eq!(f, RecvFailure::ServerDisconnected),
        other => panic!("unexpected {:?}", other),
    }
    assert!(req.send(msg("q2")).is_err());
}

#[test]
fn rep_serves_peers_in_turn() {
    let mut rep = RepSocket::new();
    for id in [1u64, 2, 3] {
        rep.peer_connected(id);
    }
    for round in 0..4 {
        for id in [1u64, 2, 3] {
            rep.message_received(id, vec![Vec::new(), format!("{}-{}", id, round).into_bytes()]);
        }
    }
    let mut served = Vec::new();
    for _ in 0..12 {
        let m = rep.recv().unwrap();
        served.push(text(&m));
        let (to, _) = rep.send(msg("r")).unwrap();
        assert_eq!(text(&m).as_bytes()[0] - b'0', to as u8);
    }
    assert_eq!(
        served,
        vec!["1-0", "2-0", "3-0", "1-1", "2-1", "3-1", "1-2", "2-2", "3-2", "1-3", "2-3", "3-3"]
    );
    assert!(matches!(rep.recv(), Err(ZmqError::NoMessage)));
}

#[test]
fn rep_protocol_error_drops_peer() {
    let mut rep = RepSocket::new();
    rep.peer_connected(8);
    rep.peer_connected(9);
    rep.message_received(8, vec![b"no delimiter".to_vec()]);
    rep.message_received(9, vec![Vec::new(), b"fine".to_vec()]);
    match rep.recv() {
        Err(ZmqError::ProtocolError { peer }) => assert_eq!(peer, 8),
        other => panic!("unexpected {:?}", other),
    }
    assert_eq!(text(&rep.recv().unwrap()), "fine");
    rep.message_received(8, vec![Vec::new(), b"late".to_vec()]);
    rep.send(msg("r")).unwrap();
    assert!(matches!(rep.recv(), Err(ZmqError::NoMessage)));
}

#[test]
fn rep_send_without_request() {
    let mut rep = RepSocket::new();
    match rep.send(msg("x")) {
        Err(ZmqError::ReturnToSender { reason, message }) => {
            assert_eq!(reason, SendRefusal::NoRequestInProgress);
            assert_eq!(text(&message), "x");
        }
        other => panic!("unexpected {:?}", other),
    }
}

#[test]
fn rep_ignores_unknown_peer() {
    let mut rep = RepSocket::new();
    rep.message_received(4, vec![Vec::new(), b"x".to_vec()]);
    assert!(matches!(rep.recv(), Err(ZmqError::NoMessage)));
}

#[test]
fn sockets_announce_their_kind() {
    assert_eq!(ReqSocket::new().socket_type(), SocketType::Req);
    assert_eq!(RepSocket::new().socket_type(), SocketType::Rep);
    assert_eq!(PubSocket::new().socket_type(), SocketType::Pub);
    assert_eq!(SocketType::Req.name(), "REQ");
    assert_eq!(SocketType::Rep.name(), "REP");
    assert_eq!(SocketType::Pub.name(), "PUB");
    assert_eq!(SocketType::Dealer.name(), "DEALER");
}

#[test]
fn rep_recv_refused_while_reply_owed() {
    let mut rep = RepSocket::new();
    rep.peer_connected(1);
    rep.peer_connected(2);
    rep.message_received(1, vec![Vec::new(), b"one".to_vec()]);
    rep.message_received(2, vec![Vec::new(), b"two".to_vec()]);
    assert_eq!(text(&rep.recv().unwrap()), "one");
    match rep.recv() {
        Err(ZmqError::Other(f)) => assert_eq!(f, RecvFailure::ReplyOwed),
        other => panic!("unexpected {:?}", other),
    }
    let (to, _) = rep.send(msg("r1")).unwrap();
    assert_eq!(to, 1);
    assert_eq!(text(&rep.recv().unwrap()), "two");
}

#[test]
fn rep_shutdown_drops_pending_requests() {
    let mut rep = RepSocket::new();
    rep.peer_connected(1);
    rep.message_received(1, vec![Vec::new(), b"one".to_vec()]);
    rep.shutdown();
    assert!(matches!(rep.recv(), Err(ZmqError::NoMessage)));
}

#[test]
fn req_drops_reply_from_departed_peer() {
    let mut req = ReqSocket::new();
    req.peer_connected(1);
    req.send(msg("q")).unwrap();
    req.peer_disconnected(1);
    assert!(!req.message_received(1, vec![Vec::new(), b"late".to_vec()]));
    match req.recv() {
        Err(ZmqError::Other(f)) => assert_eq!(f, RecvFailure::ServerDisconnected),
        other => panic!("unexpected {:?}", other),
    }
}
