use vstd::prelude::*;

verus! {

/// What one peer has sent and the socket has not yet taken: its identity and
/// its wire messages, oldest first.
pub type InboxView = (u64, Seq<Seq<Seq<u8>>>);

struct Inbox {
    id: u64,
    messages: Vec<Vec<Vec<u8>>>,
}

/// How many places after `c` position `j` stands, going round a ring of `n`.
pub open spec fn ring_distance(c: int, j: int, n: int) -> int {
    if j >= c {
        j - c
    } else {
        j + n - c
    }
}

/// `idx` is the first peer with a message waiting, going round the ring from
/// `c`.
pub open spec fn first_ready(q: Seq<InboxView>, c: int, idx: int) -> bool {
    &&& 0 <= idx < q.len()
    &&& q[idx].1.len() > 0
    &&& forall|j: int| 0 <= j < q.len() && ring_distance(c, j, q.len() as int) < ring_distance(c, idx, q.len() as int)
        ==> (#[trigger] q[j]).1.len() == 0
}

/// No peer has a message waiting.
pub open spec fn all_idle(q: Seq<InboxView>) -> bool {
    forall|j: int| 0 <= j < q.len() ==> (#[trigger] q[j]).1.len() == 0
}

/// The position after `idx` on a ring of `n`.
pub open spec fn after(idx: int, n: int) -> int {
    if idx + 1 < n {
        idx + 1
    } else {
        0
    }
}

/// Where `id` stands among the entries, if it does.
pub open spec fn position_of(q: Seq<InboxView>, id: u64, k: int) -> bool {
    0 <= k < q.len() && q[k].0 == id
}

/// Merges what many peers send into one stream, taking from them in turn:
/// a ring of inboxes and a cursor at the peer to try first.
pub struct FairQueue {
    ring: Vec<Inbox>,
    cursor: usize,
}

impl FairQueue {
    pub closed spec fn entries(&self) -> Seq<InboxView> {
        Seq::new(self.ring@.len(), |i: int| (self.ring@[i].id, self.ring@[i].messages.deep_view()))
    }

    pub closed spec fn cursor(&self) -> int {
        self.cursor as int
    }

    /// Identities are unique and the cursor stands on the ring (at 0 when
    /// it is empty).
    pub open spec fn wf(&self) -> bool {
        &&& forall|a: int, b: int| 0 <= a < b < self.entries().len()
            ==> (#[trigger] self.entries()[a]).0 != (#[trigger] self.entries()[b]).0
        &&& if self.entries().len() == 0 { self.cursor() == 0 } else { 0 <= self.cursor() < self.entries().len() }
    }

    pub fn new() -> (r: FairQueue)
        ensures
            r.wf(),
            r.entries().len() == 0,
    {
        FairQueue { ring: Vec::new(), cursor: 0 }
    }

    fn find(&self, id: u64) -> (r: Option<usize>)
        ensures
            r matches Some(k) ==> position_of(self.entries(), id, k as int),
            r is None ==> forall|k: int| 0 <= k < self.entries().len() ==> (#[trigger] self.entries()[k]).0 != id,
    {
        let mut i: usize = 0;
        while i < self.ring.len()
            invariant
                0 <= i <= self.ring.len(),
                forall|k: int| 0 <= k < i ==> (#[trigger] self.entries()[k]).0 != id,
            decreases self.ring.len() - i,
        {
            if self.ring[i].id == id {
                return Some(i);
            }
            i = i + 1;
        }
        None
    }

    /// Adds a peer with an empty inbox at the end of the ring; a peer already
    /// there is left as it is.
    pub fn insert(&mut self, id: u64)
        requires
            old(self).wf(),
        ensures
            final(self).wf(),
            (exists|k: int| position_of(old(self).entries(), id, k)) ==> final(self).entries() == old(self).entries(),
            !(exists|k: int| position_of(old(self).entries(), id, k)) ==> final(self).entries()
                == old(self).entries().push((id, Seq::<Seq<Seq<u8>>>::empty())),
            final(self).cursor() == old(self).cursor(),
    {
        match self.find(id) {
            Some(_) => {},
            None => {
                let ghost before = self.entries();
                let fresh: Vec<Vec<Vec<u8>>> = Vec::new();
                assert(fresh.deep_view() =~= Seq::<Seq<Seq<u8>>>::empty());
                self.ring.push(Inbox { id, messages: fresh });
                assert(self.entries() =~= before.push((id, Seq::<Seq<Seq<u8>>>::empty())));
            },
        }
    }

    /// Appends a message to the inbox of `id`; dropped when `id` is not on
    /// the ring.
    pub fn push(&mut self, id: u64, frames: Vec<Vec<u8>>)
        requires
            old(self).wf(),
        ensures
            final(self).wf(),
            forall|k: int| position_of(old(self).entries(), id, k) ==> final(self).entries()
                == old(self).entries().update(k, (id, old(self).entries()[k].1.push(frames.deep_view()))),
            !(exists|k: int| position_of(old(self).entries(), id, k)) ==> final(self).entries() == old(self).entries(),
            final(self).cursor() == old(self).cursor(),
    {
        match self.find(id) {
            None => {},
            Some(k) => {
                let ghost before = self.entries();
                let mut inbox = self.ring.remove(k);
                let ghost pre = inbox.messages.deep_view();
                let ghost fv = frames.deep_view();
                inbox.messages.push(frames);
                assert(inbox.messages.deep_view() =~= pre.push(fv));
                self.ring.insert(k, inbox);
                assert(self.entries() =~= before.update(k as int, (id, before[k as int].1.push(frames.deep_view()))));
                assert forall|j: int| position_of(before, id, j) implies j == k as int by {
                    if j != k as int {
                        if j < k as int {
                            assert(before[j].0 != before[k as int].0);
                        } else {
                            assert(before[k as int].0 != before[j].0);
                        }
                    }
                }
            },
        }
    }

    /// Takes `id` off the ring; what it had sent is discarded.
    pub fn remove(&mut self, id: u64)
        requires
            old(self).wf(),
        ensures
            final(self).wf(),
            forall|k: int| position_of(old(self).entries(), id, k) ==> final(self).entries() == old(self).entries().remove(k),
            !(exists|k: int| position_of(old(self).entries(), id, k)) ==> *final(self) == *old(self),
            forall|k: int| !position_of(final(self).entries(), id, k),
    {
        match self.find(id) {
            None => {},
            Some(k) => {
                let ghost before = self.entries();
                self.ring.remove(k);
                if k < self.cursor {
                    self.cursor = self.cursor - 1;
                } else if self.cursor >= self.ring.len() {
                    self.cursor = 0;
                }
                assert(self.entries() =~= before.remove(k as int));
                assert forall|j: int| !position_of(self.entries(), id, j) by {
                    if position_of(self.entries(), id, j) {
                        let j0 = if j < k as int { j } else { j + 1 };
                        if j0 < k as int {
                            assert(before[j0].0 != before[k as int].0);
                        } else {
                            assert(before[k as int].0 != before[j0].0);
                        }
                    }
                }
                assert forall|j: int| position_of(before, id, j) implies j == k as int by {
                    if j != k as int {
                        if j < k as int {
                            assert(before[j].0 != before[k as int].0);
                        } else {
                            assert(before[k as int].0 != before[j].0);
                        }
                    }
                }
                assert forall|a: int, b: int| 0 <= a < b < self.entries().len()
                    implies (#[trigger] self.entries()[a]).0 != (#[trigger] self.entries()[b]).0 by {
                    let a0 = if a < k as int { a } else { a + 1 };
                    let b0 = if b < k as int { b } else { b + 1 };
                    assert(before[a0].0 != before[b0].0);
                }
            },
        }
    }

    /// Drops every peer with what it had sent.
    pub fn clear(&mut self)
        ensures
            final(self).wf(),
            final(self).entries().len() == 0,
    {
        self.ring = Vec::new();
        self.cursor = 0;
    }

    /// Takes the oldest message of the first peer, going round from the
    /// cursor, that has one; the cursor moves past that peer. `None` when
    /// no peer has a message, and then nothing changes.
    pub fn next(&mut self) -> (r: Option<(u64, Vec<Vec<u8>>)>)
        requires
            old(self).wf(),
        ensures
            final(self).wf(),
            r is None <==> all_idle(old(self).entries()),
            r is None ==> *final(self) == *old(self),
            r matches Some((id, frames)) ==> exists|idx: int| {
                &&& #[trigger] first_ready(old(self).entries(), old(self).cursor(), idx)
                &&& id == old(self).entries()[idx].0
                &&& frames.deep_view() == old(self).entries()[idx].1[0]
                &&& final(self).entries() == old(self).entries().update(idx, (id, old(self).entries()[idx].1.drop_first()))
                &&& final(self).cursor() == after(idx, old(self).entries().len() as int)
            },
    {
        let n = self.ring.len();
        let c = self.cursor;
        let ghost q = self.entries();
        let mut d: usize = 0;
        while d < n
            invariant
                n == self.ring.len(),
                c == self.cursor,
                q == self.entries(),
                self.wf(),
                *self == *old(self),
                0 <= d <= n,
                forall|j: int| 0 <= j < n && ring_distance(c as int, j, n as int) < d ==> (#[trigger] q[j]).1.len() == 0,
            decreases n - d,
        {
            let idx: usize = if d < n - c { c + d } else { d - (n - c) };
            assert(ring_distance(c as int, idx as int, n as int) == d);
            if self.ring[idx].messages.len() > 0 {
                let mut inbox = self.ring.remove(idx);
                let ghost pre = inbox.messages.deep_view();
                let frames = inbox.messages.remove(0);
                assert(inbox.messages.deep_view() =~= pre.drop_first());
                let id = inbox.id;
                self.ring.insert(idx, inbox);
                self.cursor = if idx + 1 < n { idx + 1 } else { 0 };
                proof {
                    assert(first_ready(q, c as int, idx as int));
                    assert(self.entries() =~= q.update(idx as int, (id, q[idx as int].1.drop_first())));
                    assert(q[idx as int].1.drop_first() =~= self.ring@[idx as int].messages.deep_view());
                    assert forall|a: int, b: int| 0 <= a < b < self.entries().len()
                        implies (#[trigger] self.entries()[a]).0 != (#[trigger] self.entries()[b]).0 by {
                        assert(q[a].0 != q[b].0);
                    }
                }
                return Some((id, frames));
            }
            d = d + 1;
        }
        assert forall|j: int| 0 <= j < q.len() implies (#[trigger] q[j]).1.len() == 0 by {
            assert(ring_distance(c as int, j, n as int) < n);
        }
        None
    }
}

/// When every peer on the ring has a message waiting, the peer at the cursor
/// is served; as `next` then moves the cursor one place on, peers that keep
/// sending are served strictly in turn.
pub proof fn lemma_busy_ring_served_in_turn(q: Seq<InboxView>, c: int, idx: int)
    requires
        0 <= c < q.len(),
        forall|j: int| 0 <= j < q.len() ==> (#[trigger] q[j]).1.len() > 0,
        first_ready(q, c, idx),
    ensures
        idx == c,
{
    if idx != c {
        assert(ring_distance(c, c, q.len() as int) == 0);
        assert(q[c].1.len() == 0);
    }
}

/// The position reached from `c` after `k` moves of one place round a ring
/// of `n`: the peers that `k` successive pulls from a busy ring serve.
pub open spec fn ring_walk(c: int, n: int, k: nat) -> int
    decreases k,
{
    if k == 0 {
        c
    } else {
        after(ring_walk(c, n, (k - 1) as nat), n)
    }
}

/// How many of the first `m` positions of the walk from `c` are `j`.
pub open spec fn visits(c: int, n: int, m: nat, j: int) -> nat
    decreases m,
{
    if m == 0 {
        0
    } else {
        visits(c, n, (m - 1) as nat, j) + if ring_walk(c, n, (m - 1) as nat) == j {
            1nat
        } else {
            0nat
        }
    }
}

proof fn lemma_walk_within_round(x: int, n: int, k: nat)
    requires
        0 <= x < n,
        k <= n,
    ensures
        ring_walk(x, n, k) == if x + k < n { x + k } else { x + k - n },
    decreases k,
{
    if k > 0 {
        lemma_walk_within_round(x, n, (k - 1) as nat);
    }
}

/// Walking `a` places and then `b` more is walking `a + b` places: after a
/// pull from a busy ring moves the cursor from `c` to `after(c, n)`, the
/// pulls that follow continue the same walk.
pub proof fn lemma_walk_compose(c: int, n: int, a: nat, b: nat)
    ensures
        ring_walk(c, n, a + b) == ring_walk(ring_walk(c, n, a), n, b),
    decreases b,
{
    if b > 0 {
        lemma_walk_compose(c, n, a, (b - 1) as nat);
        assert((a + b - 1) as nat == a + (b - 1) as nat);
    }
}

proof fn lemma_walk_stays(c: int, n: int, k: nat)
    requires
        0 <= c < n,
    ensures
        0 <= ring_walk(c, n, k) < n,
    decreases k,
{
    if k > 0 {
        lemma_walk_stays(c, n, (k - 1) as nat);
    }
}

proof fn lemma_visits_split(c: int, n: int, a: nat, b: nat, j: int)
    ensures
        visits(c, n, a + b, j) == visits(c, n, a, j) + visits(ring_walk(c, n, a), n, b, j),
    decreases b,
{
    if b > 0 {
        lemma_visits_split(c, n, a, (b - 1) as nat, j);
        lemma_walk_compose(c, n, a, (b - 1) as nat);
        assert((a + b - 1) as nat == a + (b - 1) as nat);
    }
}

proof fn lemma_visits_within_round(x: int, n: int, k: nat, j: int)
    requires
        0 <= x < n,
        0 <= j < n,
        k <= n,
    ensures
        visits(x, n, k, j) == if ring_distance(x, j, n) < k { 1nat } else { 0nat },
    decreases k,
{
    if k > 0 {
        lemma_visits_within_round(x, n, (k - 1) as nat, j);
        lemma_walk_within_round(x, n, (k - 1) as nat);
    }
}

/// Fairness of the fair queue. While every peer has messages waiting, each
/// pull serves the peer at the cursor and moves the cursor one place on, so
/// the peers served by successive pulls from cursor `c` are
/// `ring_walk(c, n, 0)`, `ring_walk(c, n, 1)`, .... Over any `m = q * n + r`
/// such pulls (`r < n`) each of the `n` peers is served `q` or `q + 1`
/// times.
pub proof fn lemma_busy_ring_share(c: int, n: int, q: nat, r: nat, j: int)
    requires
        0 <= c < n,
        0 <= j < n,
        r < n,
    ensures
        q <= visits(c, n, q * n as nat + r, j) <= q + 1,
    decreases q,
{
    if q == 0 {
        lemma_visits_within_round(c, n, r, j);
    } else {
        let m0 = ((q - 1) as nat * n as nat + r) as nat;
        assert(q * n as nat + r == m0 + n as nat) by (nonlinear_arith)
            requires m0 == (q - 1) as nat * n as nat + r, q > 0;
        lemma_busy_ring_share(c, n, (q - 1) as nat, r, j);
        lemma_visits_split(c, n, m0, n as nat, j);
        lemma_walk_stays(c, n, m0);
        lemma_visits_within_round(ring_walk(c, n, m0), n, n as nat, j);
    }
}

/// The cursor that pull `i` of a run starts from: `c0` for the first, and
/// the place after the peer served by the one before for the others.
pub open spec fn run_cursor(c0: int, n: int, served: Seq<int>, i: int) -> int {
    if i == 0 {
        c0
    } else {
        after(served[i - 1], n)
    }
}

/// A run of pulls from a busy ring of `n` peers: before pull `i` the ring
/// is `qs[i]`, every peer on it has a message waiting, and the pull serves
/// `served[i]`, as `FairQueue::next` (and `RepSocket::recv`) says.
pub open spec fn busy_run(qs: Seq<Seq<InboxView>>, c0: int, n: int, served: Seq<int>) -> bool {
    &&& qs.len() == served.len()
    &&& forall|i: int| 0 <= i < qs.len() ==> (#[trigger] qs[i]).len() == n
    &&& forall|i: int, k: int| 0 <= i < qs.len() && 0 <= k < n ==> (#[trigger] qs[i][k]).1.len() > 0
    &&& forall|i: int| 0 <= i < qs.len() ==> #[trigger] first_ready(qs[i], run_cursor(c0, n, served, i), served[i])
}

/// How many of the first `m` pulls served `j`.
pub open spec fn times_served(served: Seq<int>, m: nat, j: int) -> nat
    decreases m,
{
    if m == 0 {
        0
    } else {
        times_served(served, (m - 1) as nat, j) + if served[m - 1] == j {
            1nat
        } else {
            0nat
        }
    }
}

proof fn lemma_run_follows_walk(qs: Seq<Seq<InboxView>>, c0: int, n: int, served: Seq<int>, i: int)
    requires
        0 <= c0 < n,
        busy_run(qs, c0, n, served),
        0 <= i < served.len(),
    ensures
        served[i] == ring_walk(c0, n, i as nat),
    decreases i,
{
    if i > 0 {
        lemma_run_follows_walk(qs, c0, n, served, i - 1);
        lemma_walk_stays(c0, n, (i - 1) as nat);
    }
    assert(first_ready(qs[i], run_cursor(c0, n, served, i), served[i]));
    assert(qs[i].len() == n);
    assert forall|k: int| 0 <= k < qs[i].len() implies (#[trigger] qs[i][k]).1.len() > 0 by {
        assert(qs[i][k].1.len() > 0);
    }
    lemma_busy_ring_served_in_turn(qs[i], run_cursor(c0, n, served, i), served[i]);
}

proof fn lemma_run_counts(qs: Seq<Seq<InboxView>>, c0: int, n: int, served: Seq<int>, m: nat, j: int)
    requires
        0 <= c0 < n,
        busy_run(qs, c0, n, served),
        m <= served.len(),
    ensures
        times_served(served, m, j) == visits(c0, n, m, j),
    decreases m,
{
    if m > 0 {
        lemma_run_counts(qs, c0, n, served, (m - 1) as nat, j);
        lemma_run_follows_walk(qs, c0, n, served, m - 1);
    }
}

/// Fairness over a run: while no peer joins or leaves and every peer keeps
/// a message waiting, successive pulls walk the ring one place at a time
/// from the first cursor, and over `m = q * n + r` pulls (`r < n`) each peer
/// is served `q` or `q + 1` times.
pub proof fn lemma_busy_run_is_fair(
    qs: Seq<Seq<InboxView>>,
    c0: int,
    n: int,
    served: Seq<int>,
    q: nat,
    r: nat,
    j: int,
)
    requires
        0 <= c0 < n,
        0 <= j < n,
        r < n,
        served.len() == q * n as nat + r,
        busy_run(qs, c0, n, served),
    ensures
        forall|i: int| 0 <= i < served.len() ==> #[trigger] served[i] == ring_walk(c0, n, i as nat),
        q <= times_served(served, served.len() as nat, j) <= q + 1,
{
    assert forall|i: int| 0 <= i < served.len() implies #[trigger] served[i] == ring_walk(c0, n, i as nat) by {
        lemma_run_follows_walk(qs, c0, n, served, i);
    }
    lemma_run_counts(qs, c0, n, served, served.len() as nat, j);
    lemma_busy_ring_share(c0, n, q, r, j);
}

} // verus!
