use zeromq::dispatch::RoundRobin;
use zeromq::fair_queue::FairQueue;
use zeromq::message::{open_envelope, wrap_envelope, ZmqMessage};
use zeromq::registry::PeerTable;
use zeromq::subscription::{apply_control, bytes_equal, starts_with, subscribed};

#[test]
fn peer_table_holds_entries() {
    let mut t = PeerTable::new();
    assert!(!t.contains(1));
    t.insert(1, vec![b"a".to_vec()]);
    t.insert(2, Vec::new());
    assert!(t.contains(1));
    assert_eq!(t.get(1), Some(vec![b"a".to_vec()]));
    let mut ids = t.ids();
    ids.sort();
    assert_eq!(ids, vec![1, 2]);
    t.remove(1);
    assert!(!t.contains(1));
    assert_eq!(t.get(1), None);
    t.clear();
    assert!(t.ids().is_empty());
}

#[test]
fn round_robin_rotates_and_drains() {
    let mut t = PeerTable::new();
    t.insert(1, Vec::new());
    t.insert(2, Vec::new());
    let mut rr = RoundRobin::new();
    rr.add(1);
    rr.add(2);
    rr.add(3);
    assert_eq!(rr.next(&t), Some(1));
    assert_eq!(rr.next(&t), Some(2));
    assert_eq!(rr.next(&t), Some(1));
    t.remove(1);
    t.remove(2);
    assert_eq!(rr.next(&t), None);
    t.insert(1, Vec::new());
    assert_eq!(rr.next(&t), None);
}

#[test]
fn fair_queue_takes_in_turn_and_skips_idle() {
    let mut q = FairQueue::new();
    q.insert(1);
    q.insert(2);
    q.insert(3);
    assert_eq!(q.next(), None);
    q.push(1, vec![b"a1".to_vec()]);
    q.push(1, vec![b"a2".to_vec()]);
    q.push(3, vec![b"c1".to_vec()]);
    q.push(9, vec![b"lost".to_vec()]);
    assert_eq!(q.next(), Some((1, vec![b"a1".to_vec()])));
    assert_eq!(q.next(), Some((3, vec![b"c1".to_vec()])));
    assert_eq!(q.next(), Some((1, vec![b"a2".to_vec()])));
    assert_eq!(q.next(), None);
}

#[test]
fn fair_queue_removal_discards_pending() {
    let mut q = FairQueue::new();
    q.insert(1);
    q.insert(2);
    q.push(1, vec![b"x".to_vec()]);
    q.push(2, vec![b"y".to_vec()]);
    q.remove(1);
    assert_eq!(q.next(), Some((2, vec![b"y".to_vec()])));
    assert_eq!(q.next(), None);
}

#[test]
fn fair_queue_share_within_one() {
    let mut q = FairQueue::new();
    for id in 1..=4u64 {
        q.insert(id);
        for k in 0..10 {
            q.push(id, vec![vec![k]]);
        }
    }
    let mut counts = [0usize; 5];
    for _ in 0..10 {
        let (id, _) = q.next().unwrap();
        counts[id as usize] += 1;
    }
    for id in 1..=4 {
        assert!(counts[id] == 2 || counts[id] == 3);
    }
}

#[test]
fn envelope_round_trip() {
    let frames = wrap_envelope(ZmqMessage::new(b"body".to_vec()));
    assert_eq!(frames, vec![Vec::new(), b"body".to_vec()]);
    assert_eq!(open_envelope(frames).unwrap().data, b"body".to_vec());
    assert!(open_envelope(vec![b"x".to_vec(), b"body".to_vec()]).is_none());
    assert!(open_envelope(vec![Vec::new()]).is_none());
}

#[test]
fn prefixes_and_control_frames() {
    assert!(starts_with(&b"".to_vec(), &b"abc".to_vec()));
    assert!(starts_with(&b"ab".to_vec(), &b"abc".to_vec()));
    assert!(!starts_with(&b"abcd".to_vec(), &b"abc".to_vec()));
    assert!(!starts_with(&b"b".to_vec(), &b"abc".to_vec()));
    assert!(bytes_equal(&b"ab".to_vec(), &b"ab".to_vec()));
    assert!(!bytes_equal(&b"ab".to_vec(), &b"a".to_vec()));
    let mut subs: Vec<Vec<u8>> = Vec::new();
    apply_control(&mut subs, &vec![1, b'x']);
    apply_control(&mut subs, &vec![1, b'y']);
    apply_control(&mut subs, &vec![1, b'x']);
    apply_control(&mut subs, &vec![0, b'x']);
    assert_eq!(subs, vec![b"y".to_vec(), b"x".to_vec()]);
    assert!(subscribed(&subs, &b"xa".to_vec()));
    assert!(!subscribed(&subs, &b"za".to_vec()));
    apply_control(&mut subs, &vec![5, b'z']);
    apply_control(&mut subs, &Vec::new());
    assert_eq!(subs.len(), 2);
}
