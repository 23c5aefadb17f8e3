use zeromq::binds::Binds;
use zeromq::endpoint::{parse_endpoint, same_endpoint, Endpoint};
use zeromq::error::ZmqError;

fn parse(s: &str) -> Option<Endpoint> {
    parse_endpoint(&s.as_bytes().to_vec())
}

fn tcp(s: &str) -> (String, u16) {
    match parse(s) {
        Some(Endpoint::Tcp { host, port }) => (String::from_utf8(host).unwrap(), port),
        other => panic!("not tcp: {:?}", other),
    }
}

#[test]
fn tcp_endpoints() {
    assert_eq!(tcp("tcp://127.0.0.1:5555"), ("127.0.0.1".to_string(), 5555));
    assert_eq!(tcp("tcp://0.0.0.0:0"), ("0.0.0.0".to_string(), 0));
    assert_eq!(tcp("tcp://*:80"), ("*".to_string(), 80));
    assert_eq!(tcp("tcp://localhost:65535"), ("localhost".to_string(), 65535));
    assert_eq!(tcp("tcp://[::1]:4010"), ("::1".to_string(), 4010));
    assert_eq!(tcp("tcp://[::]:4010"), ("::".to_string(), 4010));
    assert_eq!(tcp("tcp://::1:7"), ("::1".to_string(), 7));
}

#[test]
fn ipc_endpoint() {
    match parse("ipc:///tmp/zmq.sock") {
        Some(Endpoint::Ipc { path }) => assert_eq!(path, b"/tmp/zmq.sock".to_vec()),
        other => panic!("not ipc: {:?}", other),
    }
}

#[test]
fn malformed_endpoints() {
    for s in [
        "tcp://host",
        "tcp://:80",
        "tcp://[]:80",
        "tcp://h:",
        "tcp://h:65536",
        "tcp://h:123456",
        "tcp://h:12a",
        "udp://h:1",
        "ipc://",
        "tcp:/",
        "",
    ] {
        assert!(parse(s).is_none(), "{} should be refused", s);
    }
}

#[test]
fn endpoints_compare_by_value() {
    let a = parse("tcp://[::1]:5").unwrap();
    let b = parse("tcp://::1:5").unwrap();
    let c = parse("tcp://::1:6").unwrap();
    let d = parse("ipc://::1").unwrap();
    assert!(same_endpoint(&a, &b));
    assert!(!same_endpoint(&a, &c));
    assert!(!same_endpoint(&a, &d));
}

#[test]
fn unbind_needs_a_bind() {
    let mut binds: Binds<u32> = Binds::new();
    let e = parse("tcp://127.0.0.1:4000").unwrap();
    assert!(matches!(binds.remove(&e), Err(ZmqError::NoSuchBind)));
    assert_eq!(binds.add(e.clone(), 1), None);
    assert_eq!(binds.add(parse("tcp://127.0.0.1:4000").unwrap(), 2), Some(2));
    assert_eq!(binds.add(parse("ipc:///tmp/s").unwrap(), 3), None);
    assert_eq!(binds.remove(&e).unwrap(), 1);
    assert!(matches!(binds.remove(&e), Err(ZmqError::NoSuchBind)));
    assert_eq!(binds.remove(&parse("ipc:///tmp/s").unwrap()).unwrap(), 3);
}
