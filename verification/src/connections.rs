//! Connections that are found again by an identifier.
//!
//! The connections themselves are the driver's. Here each is a number that the
//! driver gave it.

use slotmap::{DefaultKey, SlotMap};
use vstd::prelude::*;

use crate::connection::{ConnectionTiming, ConnectionType};
use crate::data_channel::SocketAddress;
use crate::time::Timestamp;

verus! {

/// The key `slotmap::DefaultKey` of a slot map, carried as it is.
#[verifier::external_type_specification]
#[verifier::external_body]
pub struct ExDefaultKey(slotmap::DefaultKey);

/// Identifies a connection.
pub type ConnectionId = DefaultKey;

/// A slot map `slotmap::SlotMap` of numbers.
#[verifier::external_body]
pub struct Slots {
    map: SlotMap<DefaultKey, u64>,
}

/// What a slot map holds, by key.
pub uninterp spec fn held(slots: Slots) -> Map<DefaultKey, u64>;

/// No connections.
pub open spec fn nothing() -> Map<ConnectionId, u64> {
    Map::empty()
}

/// The most connections that are held at a time: as many as a slot map has slots
/// for.
pub const MAX_CONNECTIONS: usize = 4_294_967_294;

/// `slotmap::SlotMap::new`: a map that holds nothing.
#[verifier::external_body]
fn new_slots() -> (r: Slots)
    ensures
        held(r) == nothing(),
{
    Slots { map: SlotMap::new() }
}

/// `slotmap::SlotMap::len`: how many values the map holds.
#[verifier::external_body]
fn slots_len(slots: &Slots) -> (r: usize)
    ensures
        r == held(*slots).dom().len(),
{
    slots.map.len()
}

/// `slotmap::SlotMap::insert`: the value is held under a key that held nothing
/// before. The call panics on a map that is full: one with 4294967295 slots, of
/// which the first holds nothing. Nothing is ever removed here, so that all
/// others hold a value.
#[verifier::external_body]
fn insert_slot(slots: &mut Slots, value: u64) -> (key: DefaultKey)
    requires
        held(*old(slots)).dom().len() < MAX_CONNECTIONS,
    ensures
        !held(*old(slots)).contains_key(key),
        held(*final(slots)) == held(*old(slots)).insert(key, value),
{
    slots.map.insert(value)
}

/// `slotmap::SlotMap::get`: the value held under a key.
#[verifier::external_body]
fn get_slot(slots: &Slots, key: DefaultKey) -> (r: Option<u64>)
    ensures
        match r {
            Some(value) => held(*slots).contains_key(key) && held(*slots)[key] == value,
            None => !held(*slots).contains_key(key),
        },
{
    slots.map.get(key).copied()
}

/// Connections by identifier.
pub struct Connections {
    connections: Slots,
}

impl View for Connections {
    type V = Map<ConnectionId, u64>;

    closed spec fn view(&self) -> Map<ConnectionId, u64> {
        held(self.connections)
    }
}

impl Default for Connections {
    fn default() -> (r: Self)
        ensures
            r@ == nothing(),
    {
        Connections { connections: new_slots() }
    }
}

impl Connections {
    /// Holds a connection. `None` where no more can be held.
    pub fn insert(&mut self, connection: u64) -> (id: Option<ConnectionId>)
        ensures
            match id {
                Some(id) => {
                    &&& old(self)@.dom().len() < MAX_CONNECTIONS
                    &&& !old(self)@.contains_key(id)
                    &&& final(self)@ == old(self)@.insert(id, connection)
                },
                None => old(self)@.dom().len() >= MAX_CONNECTIONS && *final(self) == *old(self),
            },
    {
        if slots_len(&self.connections) < MAX_CONNECTIONS {
            Some(insert_slot(&mut self.connections, connection))
        } else {
            None
        }
    }

    /// The connection to send a request on. `None` where the identifier is not
    /// that of a connection held here.
    pub fn send_request(&self, id: ConnectionId) -> (r: Option<u64>)
        ensures
            match r {
                Some(connection) => self@.contains_key(id) && self@[id] == connection,
                None => !self@.contains_key(id),
            },
    {
        get_slot(&self.connections, id)
    }

    /// How many connections are held.
    pub fn len(&self) -> (r: usize)
        ensures
            r == self@.dom().len(),
    {
        slots_len(&self.connections)
    }
}

/// A connection that was just held is found again, under an identifier that
/// finds no other, and all others are found as before.
pub proof fn held_connection_is_found(
    before: Map<ConnectionId, u64>,
    id: ConnectionId,
    connection: u64,
    other: ConnectionId,
)
    requires
        !before.contains_key(id),
        before.contains_key(other),
    ensures
        before.insert(id, connection)[id] == connection,
        other != id,
        before.insert(id, connection).contains_key(other),
        before.insert(id, connection)[other] == before[other],
{
}

/// A connection that was established, and how long that took.
#[derive(Debug, Clone, Copy)]
pub struct ConnectionEstablished {
    pub id: ConnectionId,
    pub timing: ConnectionTiming,
}

/// What a new connection is made from.
#[derive(Debug)]
pub struct NewConnectionArgs {
    pub start: Timestamp,
    pub remote_addr: SocketAddress,
    pub domain: String,
    pub conn_type: ConnectionType,
}

impl NewConnectionArgs {
    pub fn new(
        start: Timestamp,
        remote_addr: SocketAddress,
        domain: String,
        conn_type: ConnectionType,
    ) -> (r: Self)
        ensures
            r == (NewConnectionArgs { start, remote_addr, domain, conn_type }),
    {
        NewConnectionArgs { start, remote_addr, domain, conn_type }
    }

    /// For HTTP/1.1 over TLS.
    pub fn h1(start: Timestamp, remote_addr: SocketAddress, domain: String) -> (r: Self)
        ensures
            r == (NewConnectionArgs {
                start,
                remote_addr,
                domain,
                conn_type: ConnectionType::H1 { use_tls: true },
            }),
    {
        NewConnectionArgs::new(start, remote_addr, domain, ConnectionType::h1())
    }

    /// For HTTP/2.
    pub fn h2(start: Timestamp, remote_addr: SocketAddress, domain: String) -> (r: Self)
        ensures
            r == (NewConnectionArgs {
                start,
                remote_addr,
                domain,
                conn_type: ConnectionType::H2,
            }),
    {
        NewConnectionArgs::new(start, remote_addr, domain, ConnectionType::h2())
    }

    /// For HTTP/3.
    pub fn h3(start: Timestamp, remote_addr: SocketAddress, domain: String) -> (r: Self)
        ensures
            r == (NewConnectionArgs {
                start,
                remote_addr,
                domain,
                conn_type: ConnectionType::H3,
            }),
    {
        NewConnectionArgs::new(start, remote_addr, domain, ConnectionType::h3())
    }
}

} // verus!
