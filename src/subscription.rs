use vstd::prelude::*;
use crate::message::lemma_frames_view;

verus! {

/// `prefix` is a prefix of `data`.
pub open spec fn is_prefix(prefix: Seq<u8>, data: Seq<u8>) -> bool {
    prefix.len() <= data.len() && data.subrange(0, prefix.len() as int) == prefix
}

/// Some subscription in `subs` is a prefix of `data`.
pub open spec fn matches_any(subs: Seq<Seq<u8>>, data: Seq<u8>) -> bool {
    exists|i: int| 0 <= i < subs.len() && is_prefix(#[trigger] subs[i], data)
}

/// `i` is the first position of `x` in `s`.
pub open spec fn first_position(s: Seq<Seq<u8>>, x: Seq<u8>, i: int) -> bool {
    &&& 0 <= i < s.len()
    &&& s[i] == x
    &&& forall|j: int| 0 <= j < i ==> #[trigger] s[j] != x
}

/// `s` with the first occurrence of `x` taken out; `s` itself when `x` does
/// not occur.
pub open spec fn remove_first(s: Seq<Seq<u8>>, x: Seq<u8>) -> Seq<Seq<u8>> {
    if exists|i: int| first_position(s, x, i) {
        s.remove(choose|i: int| first_position(s, x, i))
    } else {
        s
    }
}

/// The subscription list after a control frame: first byte 1 subscribes to
/// the rest, 0 unsubscribes from it once, anything else changes nothing.
pub open spec fn after_control(subs: Seq<Seq<u8>>, frame: Seq<u8>) -> Seq<Seq<u8>> {
    if frame.len() == 0 {
        subs
    } else if frame[0] == 1 {
        subs.push(frame.drop_first())
    } else if frame[0] == 0 {
        remove_first(subs, frame.drop_first())
    } else {
        subs
    }
}

pub fn bytes_equal(a: &Vec<u8>, b: &Vec<u8>) -> (r: bool)
    ensures
        r == (a@ == b@),
{
    if a.len() != b.len() {
        return false;
    }
    let mut i: usize = 0;
    while i < a.len()
        invariant
            a.len() == b.len(),
            0 <= i <= a.len(),
            forall|j: int| 0 <= j < i ==> a@[j] == b@[j],
        decreases a.len() - i,
    {
        if a[i] != b[i] {
            return false;
        }
        i = i + 1;
    }
    assert(a@ =~= b@);
    true
}

/// Whether `prefix` begins `data`.
pub fn starts_with(prefix: &Vec<u8>, data: &Vec<u8>) -> (r: bool)
    ensures
        r == is_prefix(prefix@, data@),
{
    if prefix.len() > data.len() {
        return false;
    }
    let mut i: usize = 0;
    while i < prefix.len()
        invariant
            prefix.len() <= data.len(),
            0 <= i <= prefix.len(),
            forall|j: int| 0 <= j < i ==> prefix@[j] == data@[j],
        decreases prefix.len() - i,
    {
        if prefix[i] != data[i] {
            assert(data@.subrange(0, prefix.len() as int)[i as int] != prefix@[i as int]);
            return false;
        }
        i = i + 1;
    }
    assert(data@.subrange(0, prefix.len() as int) =~= prefix@);
    true
}

/// Whether any subscription of `subs` begins `data`; the scan stops at the
/// first that does, so a subscriber is served once.
pub fn subscribed(subs: &Vec<Vec<u8>>, data: &Vec<u8>) -> (r: bool)
    ensures
        r == matches_any(subs.deep_view(), data@),
{
    proof {
        lemma_frames_view(*subs);
    }
    let mut i: usize = 0;
    while i < subs.len()
        invariant
            0 <= i <= subs.len(),
            subs.deep_view().len() == subs@.len(),
            forall|j: int| 0 <= j < subs@.len() ==> #[trigger] subs.deep_view()[j] == subs@[j]@,
            forall|j: int| 0 <= j < i ==> !is_prefix(#[trigger] subs.deep_view()[j], data@),
        decreases subs.len() - i,
    {
        if starts_with(&subs[i], data) {
            assert(is_prefix(subs.deep_view()[i as int], data@));
            return true;
        }
        i = i + 1;
    }
    false
}

/// Applies one subscription control frame to `subs`.
pub fn apply_control(subs: &mut Vec<Vec<u8>>, frame: &Vec<u8>)
    ensures
        final(subs).deep_view() == after_control(old(subs).deep_view(), frame@),
{
    if frame.len() == 0 || (frame[0] != 0 && frame[0] != 1) {
        return;
    }
    let mut rest: Vec<u8> = Vec::new();
    let mut k: usize = 1;
    while k < frame.len()
        invariant
            1 <= k <= frame.len(),
            rest@ == frame@.subrange(1, k as int),
        decreases frame.len() - k,
    {
        rest.push(frame[k]);
        k = k + 1;
    }
    assert(rest@ =~= frame@.drop_first());
    if frame[0] == 1 {
        let ghost before = subs.deep_view();
        proof {
            lemma_frames_view(*subs);
        }
        subs.push(rest);
        proof {
            lemma_frames_view(*subs);
        }
        assert(subs.deep_view() =~= before.push(frame@.drop_first()));
        return;
    }
    let ghost before = subs.deep_view();
    proof {
        lemma_frames_view(*subs);
    }
    let mut i: usize = 0;
    while i < subs.len()
        invariant
            subs.deep_view() == before,
            before == old(subs).deep_view(),
            rest@ == frame@.drop_first(),
            frame@.len() > 0 && frame@[0] == 0,
            before.len() == subs@.len(),
            forall|j: int| 0 <= j < subs@.len() ==> #[trigger] before[j] == subs@[j]@,
            0 <= i <= subs.len(),
            forall|j: int| 0 <= j < i ==> #[trigger] before[j] != rest@,
        decreases subs.len() - i,
    {
        if bytes_equal(&subs[i], &rest) {
            assert(first_position(before, rest@, i as int));
            let ghost pre = subs@;
            subs.remove(i);
            proof {
                lemma_frames_view(*subs);
                assert(subs@ == pre.remove(i as int));
                let c = choose|c: int| first_position(before, rest@, c);
                assert(c == i as int) by {
                    if c < i as int {
                        assert(before[c] != rest@);
                    } else if c > i as int {
                        assert(before[i as int] != rest@);
                    }
                }
                assert(subs.deep_view() =~= before.remove(i as int));
            }
            return;
        }
        i = i + 1;
    }
    assert(!exists|c: int| first_position(before, rest@, c));
}

} // verus!
