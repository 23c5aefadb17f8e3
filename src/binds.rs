use vstd::prelude::*;
use crate::endpoint::{Endpoint, same_endpoint};
use crate::error::ZmqError;

verus! {

/// The endpoints a socket is bound to, each once, with the handle that stops
/// accepting on it.
pub struct Binds<H> {
    entries: Vec<(Endpoint, H)>,
}

impl<H> Binds<H> {
    /// The bound endpoints, oldest first.
    pub closed spec fn bound(&self) -> Seq<(bool, Seq<u8>, u16)> {
        self.entries@.map_values(|e: (Endpoint, H)| e.0@)
    }

    pub fn new() -> (r: Binds<H>)
        ensures
            r.bound().len() == 0,
            r.bound().no_duplicates(),
    {
        Binds { entries: Vec::new() }
    }

    fn position(&self, e: &Endpoint) -> (r: Option<usize>)
        ensures
            r matches Some(k) ==> k < self.bound().len() && self.bound()[k as int] == e@,
            r is None ==> !self.bound().contains(e@),
    {
        let mut i: usize = 0;
        while i < self.entries.len()
            invariant
                0 <= i <= self.entries.len(),
                forall|k: int| 0 <= k < i ==> #[trigger] self.bound()[k] != e@,
            decreases self.entries.len() - i,
        {
            if same_endpoint(&self.entries[i].0, e) {
                return Some(i);
            }
            i = i + 1;
        }
        None
    }

    /// Records a new bind; an endpoint already bound is refused, and its
    /// handle is given back.
    pub fn add(&mut self, e: Endpoint, handle: H) -> (r: Option<H>)
        requires
            old(self).bound().no_duplicates(),
        ensures
            final(self).bound().no_duplicates(),
            r is None <==> !old(self).bound().contains(e@),
            r is None ==> final(self).bound() == old(self).bound().push(e@),
            r is Some ==> final(self).bound() == old(self).bound(),
    {
        match self.position(&e) {
            Some(_) => Some(handle),
            None => {
                let ghost before = self.bound();
                let ghost ev = e@;
                self.entries.push((e, handle));
                assert(self.bound() =~= before.push(ev));
                assert forall|a: int, b: int| 0 <= a < self.bound().len() && 0 <= b < self.bound().len() && a != b
                    implies #[trigger] self.bound()[a] != #[trigger] self.bound()[b] by {
                    if a == before.len() {
                        assert(before[b] != ev);
                    } else if b == before.len() {
                        assert(before[a] != ev);
                    }
                }
                None
            },
        }
    }

    /// Forgets the bind on `e` and hands back its handle; `NoSuchBind` when
    /// the socket is not bound there.
    pub fn remove(&mut self, e: &Endpoint) -> (r: Result<H, ZmqError>)
        requires
            old(self).bound().no_duplicates(),
        ensures
            final(self).bound().no_duplicates(),
            r is Err <==> !old(self).bound().contains(e@),
            r is Err ==> (r matches Err(ZmqError::NoSuchBind)) && final(self).bound() == old(self).bound(),
            r is Ok ==> exists|k: int| 0 <= k < old(self).bound().len() && #[trigger] old(self).bound()[k] == e@
                && final(self).bound() == old(self).bound().remove(k),
    {
        match self.position(e) {
            None => Err(ZmqError::NoSuchBind),
            Some(k) => {
                let ghost before = self.bound();
                let (_, handle) = self.entries.remove(k);
                assert(self.bound() =~= before.remove(k as int));
                assert forall|a: int, b: int| 0 <= a < self.bound().len() && 0 <= b < self.bound().len() && a != b
                    implies #[trigger] self.bound()[a] != #[trigger] self.bound()[b] by {
                    let a0 = if a < k as int { a } else { a + 1 };
                    let b0 = if b < k as int { b } else { b + 1 };
                    assert(before[a0] != before[b0]);
                }
                Ok(handle)
            },
        }
    }
}

} // verus!
