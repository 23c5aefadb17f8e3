use vstd::prelude::*;
use dashmap::DashMap;

verus! {

#[verifier::external_type_specification]
#[verifier::external_body]
#[verifier::reject_recursive_types(K)]
#[verifier::reject_recursive_types(V)]
#[verifier::reject_recursive_types(S)]
pub struct ExDashMap<K, V, S>(DashMap<K, V, S>);

/// What a concurrent peer map holds: for each peer identity, its list of
/// subscription prefixes.
pub uninterp spec fn table_of(m: DashMap<u64, Vec<Vec<u8>>>) -> Map<u64, Seq<Seq<u8>>>;

/// Relies on DashMap::new: a new map is empty.
#[verifier::external_body]
fn table_new() -> (r: DashMap<u64, Vec<Vec<u8>>>)
    ensures
        table_of(r).dom() == Set::<u64>::empty(),
{
    DashMap::new()
}

/// Relies on DashMap::insert: the key maps to the value afterwards, the
/// other entries stay.
#[verifier::external_body]
fn table_insert(m: &mut DashMap<u64, Vec<Vec<u8>>>, key: u64, value: Vec<Vec<u8>>)
    ensures
        table_of(*final(m)) == table_of(*old(m)).insert(key, value.deep_view()),
{
    m.insert(key, value);
}

/// Relies on DashMap::remove: the key is gone afterwards, the other entries
/// stay.
#[verifier::external_body]
fn table_remove(m: &mut DashMap<u64, Vec<Vec<u8>>>, key: u64)
    ensures
        table_of(*final(m)) == table_of(*old(m)).remove(key),
{
    m.remove(&key);
}

/// Relies on DashMap::clear: the map is empty afterwards.
#[verifier::external_body]
fn table_clear(m: &mut DashMap<u64, Vec<Vec<u8>>>)
    ensures
        table_of(*final(m)).dom() == Set::<u64>::empty(),
{
    m.clear();
}

/// Relies on DashMap::contains_key.
#[verifier::external_body]
fn table_contains(m: &DashMap<u64, Vec<Vec<u8>>>, key: u64) -> (r: bool)
    ensures
        r == table_of(*m).contains_key(key),
{
    m.contains_key(&key)
}

/// Relies on DashMap::get: a copy of the value under the key, if any.
#[verifier::external_body]
fn table_get(m: &DashMap<u64, Vec<Vec<u8>>>, key: u64) -> (r: Option<Vec<Vec<u8>>>)
    ensures
        r.is_some() == table_of(*m).contains_key(key),
        r matches Some(v) ==> v.deep_view() == table_of(*m)[key],
{
    m.get(&key).map(|e| e.value().clone())
}

/// Relies on DashMap::iter: every key once, in an order that the map does
/// not fix.
#[verifier::external_body]
fn table_keys(m: &DashMap<u64, Vec<Vec<u8>>>) -> (r: Vec<u64>)
    ensures
        r@.no_duplicates(),
        r@.to_set() == table_of(*m).dom(),
{
    m.iter().map(|e| *e.key()).collect()
}

/// The live peers of one socket, keyed by identity. Each entry holds the
/// peer's subscription prefixes; sockets without subscriptions keep them
/// empty.
pub struct PeerTable {
    map: DashMap<u64, Vec<Vec<u8>>>,
}

impl View for PeerTable {
    type V = Map<u64, Seq<Seq<u8>>>;

    closed spec fn view(&self) -> Map<u64, Seq<Seq<u8>>> {
        table_of(self.map)
    }
}

impl PeerTable {
    pub fn new() -> (r: PeerTable)
        ensures
            r@.dom() == Set::<u64>::empty(),
    {
        PeerTable { map: table_new() }
    }

    pub fn insert(&mut self, id: u64, subscriptions: Vec<Vec<u8>>)
        ensures
            final(self)@ == old(self)@.insert(id, subscriptions.deep_view()),
    {
        table_insert(&mut self.map, id, subscriptions);
    }

    pub fn remove(&mut self, id: u64)
        ensures
            final(self)@ == old(self)@.remove(id),
    {
        table_remove(&mut self.map, id);
    }

    pub fn clear(&mut self)
        ensures
            final(self)@.dom() == Set::<u64>::empty(),
    {
        table_clear(&mut self.map);
    }

    pub fn contains(&self, id: u64) -> (r: bool)
        ensures
            r == self@.contains_key(id),
    {
        table_contains(&self.map, id)
    }

    pub fn get(&self, id: u64) -> (r: Option<Vec<Vec<u8>>>)
        ensures
            r.is_some() == self@.contains_key(id),
            r matches Some(v) ==> v.deep_view() == self@[id],
    {
        table_get(&self.map, id)
    }

    /// A snapshot of the identities, each once.
    pub fn ids(&self) -> (r: Vec<u64>)
        ensures
            r@.no_duplicates(),
            r@.to_set() == self@.dom(),
    {
        table_keys(&self.map)
    }
}

} // verus!
