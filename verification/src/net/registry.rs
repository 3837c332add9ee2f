//! The connections of a host.
use dashmap::DashMap;
use vstd::prelude::*;

verus! {

/// A concurrent hash map.
#[verifier::external_type_specification]
#[verifier::external_body]
#[verifier::reject_recursive_types(K)]
#[verifier::reject_recursive_types(V)]
#[verifier::reject_recursive_types(S)]
pub struct ExDashMap<K, V, S>(dashmap::DashMap<K, V, S>);

/// The entries of the map of connections.
pub uninterp spec fn entries(map: DashMap<(u32, u32), u64>) -> Map<(u32, u32), u64>;

/// The map without connections.
pub open spec fn no_connections() -> Map<(u32, u32), u64> {
    Map::empty()
}

/// `DashMap::new` gives a map without entries.
#[verifier::external_body]
fn new_map() -> (map: DashMap<(u32, u32), u64>)
    ensures
        entries(map) == no_connections(),
{
    DashMap::new()
}

/// `DashMap::insert` sets the entry of the key and returns the value that it
/// replaced.
#[verifier::external_body]
fn insert_entry(map: &mut DashMap<(u32, u32), u64>, key: (u32, u32), value: u64) -> (replaced:
    Option<u64>)
    ensures
        entries(*final(map)) == entries(*old(map)).insert(key, value),
        replaced == if entries(*old(map)).contains_key(key) {
            Some(entries(*old(map))[key])
        } else {
            None
        },
{
    map.insert(key, value)
}

/// `DashMap::remove` takes the entry of the key out and returns its value.
#[verifier::external_body]
fn remove_entry(map: &mut DashMap<(u32, u32), u64>, key: (u32, u32)) -> (removed: Option<u64>)
    ensures
        entries(*final(map)) == entries(*old(map)).remove(key),
        removed == if entries(*old(map)).contains_key(key) {
            Some(entries(*old(map))[key])
        } else {
            None
        },
{
    map.remove(&key).map(|entry| entry.1)
}

/// `DashMap::get` gives access to the value of the key.
#[verifier::external_body]
fn get_entry(map: &DashMap<(u32, u32), u64>, key: (u32, u32)) -> (found: Option<u64>)
    ensures
        found == if entries(*map).contains_key(key) {
            Some(entries(*map)[key])
        } else {
            None
        },
{
    map.get(&key).map(|entry| *entry.value())
}

/// [`ConnectionManager`] is what allows a single host to maintain multiple
/// connections. It maps the two ids of a connection, ours and the peer's, to the
/// handle of what the host keeps of the connection. As long as the id of the peer
/// is not known it is zero.
pub struct ConnectionManager {
    map: DashMap<(u32, u32), u64>,
}

impl View for ConnectionManager {
    type V = Map<(u32, u32), u64>;

    closed spec fn view(&self) -> Map<(u32, u32), u64> {
        entries(self.map)
    }
}

impl ConnectionManager {
    pub fn new() -> (manager: Self)
        ensures
            manager@ == no_connections(),
    {
        ConnectionManager { map: new_map() }
    }

    /// Registers a connection and returns the handle that was registered before.
    pub fn insert(&mut self, key: (u32, u32), handle: u64) -> (replaced: Option<u64>)
        ensures
            final(self)@ == old(self)@.insert(key, handle),
            final(self)@ == with_connection(old(self)@, key, handle),
            replaced == handle_of(old(self)@, key),
            replaced == if old(self)@.contains_key(key) {
                Some(old(self)@[key])
            } else {
                None
            },
    {
        insert_entry(&mut self.map, key, handle)
    }

    /// Takes a connection out and returns its handle.
    pub fn remove(&mut self, key: (u32, u32)) -> (removed: Option<u64>)
        ensures
            final(self)@ == old(self)@.remove(key),
            final(self)@ == without_connection(old(self)@, key),
            removed == handle_of(old(self)@, key),
            removed == if old(self)@.contains_key(key) {
                Some(old(self)@[key])
            } else {
                None
            },
    {
        remove_entry(&mut self.map, key)
    }

    /// The handle of a connection.
    pub fn get(&self, key: (u32, u32)) -> (found: Option<u64>)
        ensures
            found == handle_of(self@, key),
            found == if self@.contains_key(key) {
                Some(self@[key])
            } else {
                None
            },
    {
        get_entry(&self.map, key)
    }
}

/// The connections once one more is registered.
pub open spec fn with_connection(
    connections: Map<(u32, u32), u64>,
    key: (u32, u32),
    handle: u64,
) -> Map<(u32, u32), u64> {
    connections.insert(key, handle)
}

/// The connections without one.
pub open spec fn without_connection(
    connections: Map<(u32, u32), u64>,
    key: (u32, u32),
) -> Map<(u32, u32), u64> {
    connections.remove(key)
}

/// The handle of a connection, if it is registered.
pub open spec fn handle_of(connections: Map<(u32, u32), u64>, key: (u32, u32)) -> Option<u64> {
    if connections.contains_key(key) {
        Some(connections[key])
    } else {
        None
    }
}

/// A connection is found under its two ids, in their order, from when it was registered
/// until it is taken out, and no other connection is touched by that.
pub proof fn law_connections_are_found(
    connections: Map<(u32, u32), u64>,
    key: (u32, u32),
    handle: u64,
    other: (u32, u32),
)
    requires
        other != key,
    ensures
        handle_of(with_connection(connections, key, handle), key) == Some(handle),
        handle_of(without_connection(connections, key), key) is None,
        handle_of(with_connection(connections, key, handle), other) == handle_of(
            connections,
            other,
        ),
        handle_of(without_connection(connections, key), other) == handle_of(connections, other),
        handle_of(no_connections(), key) is None,
{
}

} // verus!
