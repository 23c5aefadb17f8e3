use vstd::prelude::*;
use crossbeam::queue::SegQueue;
use crate::registry::PeerTable;

verus! {

#[verifier::external_type_specification]
#[verifier::external_body]
#[verifier::reject_recursive_types(T)]
pub struct ExSegQueue<T>(SegQueue<T>);

/// What a lock-free FIFO holds, head first.
pub uninterp spec fn queue_items(q: SegQueue<u64>) -> Seq<u64>;

/// Relies on SegQueue::new: a new queue is empty.
#[verifier::external_body]
fn queue_new() -> (r: SegQueue<u64>)
    ensures
        queue_items(r) == Seq::<u64>::empty(),
{
    SegQueue::new()
}

/// Relies on SegQueue::push_mut: appends at the tail.
#[verifier::external_body]
fn queue_push(q: &mut SegQueue<u64>, id: u64)
    ensures
        queue_items(*final(q)) == queue_items(*old(q)).push(id),
{
    q.push_mut(id)
}

/// Relies on SegQueue::pop_mut: takes the head, or `None` when empty.
#[verifier::external_body]
fn queue_pop(q: &mut SegQueue<u64>) -> (r: Option<u64>)
    ensures
        queue_items(*old(q)).len() == 0 ==> r.is_none() && queue_items(*final(q)) == queue_items(*old(q)),
        queue_items(*old(q)).len() > 0 ==> r == Some(queue_items(*old(q))[0])
            && queue_items(*final(q)) == queue_items(*old(q)).drop_first(),
{
    q.pop_mut()
}

/// The outbound load balancer: a FIFO of peer identities. Identities of
/// peers that have left stay in it until a dispatch skips them.
pub struct RoundRobin {
    queue: SegQueue<u64>,
}

impl View for RoundRobin {
    type V = Seq<u64>;

    closed spec fn view(&self) -> Seq<u64> {
        queue_items(self.queue)
    }
}

/// The dispatch outcome over a queue `q` and live set `live`: the position of
/// the first live identity, if any.
pub open spec fn first_live(q: Seq<u64>, live: Set<u64>, k: int) -> bool {
    &&& 0 <= k < q.len()
    &&& live.contains(q[k])
    &&& forall|j: int| 0 <= j < k ==> !live.contains(#[trigger] q[j])
}

impl RoundRobin {
    pub fn new() -> (r: RoundRobin)
        ensures
            r@ == Seq::<u64>::empty(),
    {
        RoundRobin { queue: queue_new() }
    }

    /// Queues a newly connected peer at the tail.
    pub fn add(&mut self, id: u64)
        ensures
            final(self)@ == old(self)@.push(id),
    {
        queue_push(&mut self.queue, id);
    }

    /// Picks the next live peer: stale identities before it are dropped,
    /// and the chosen one goes back to the tail. `None` when no queued
    /// identity is live; the queue is then empty.
    pub fn next(&mut self, peers: &PeerTable) -> (r: Option<u64>)
        ensures
            r.is_none() == (forall|j: int| 0 <= j < old(self)@.len()
                ==> !peers@.contains_key(#[trigger] old(self)@[j])),
            r.is_none() ==> final(self)@.len() == 0,
            r matches Some(p) ==> exists|k: int|
                #[trigger] first_live(old(self)@, peers@.dom(), k)
                && p == old(self)@[k]
                && final(self)@ == old(self)@.subrange(k + 1, old(self)@.len() as int).push(p),
    {
        let ghost start = self@;
        let ghost skipped: int = 0;
        loop
            invariant
                start == old(self)@,
                0 <= skipped <= start.len(),
                self@ == start.subrange(skipped, start.len() as int),
                forall|j: int| 0 <= j < skipped ==> !peers@.contains_key(#[trigger] start[j]),
            decreases self@.len(),
        {
            match queue_pop(&mut self.queue) {
                None => {
                    assert(skipped == start.len());
                    return None;
                },
                Some(id) => {
                    assert(id == start[skipped]);
                    if peers.contains(id) {
                        queue_push(&mut self.queue, id);
                        assert(first_live(start, peers@.dom(), skipped));
                        assert(self@ == start.subrange(skipped + 1, start.len() as int).push(id));
                        assert(!(forall|j: int| 0 <= j < start.len()
                            ==> !peers@.contains_key(#[trigger] start[j])));
                        return Some(id);
                    }
                    proof {
                        skipped = skipped + 1;
                    }
                    assert(self@ =~= start.subrange(skipped, start.len() as int));
                },
            }
        }
    }
}

} // verus!
