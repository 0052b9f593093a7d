use vstd::prelude::*;
use crate::tables::ConnectionTable;

verus! {

#[verifier::external_type_specification]
#[verifier::external_body]
#[verifier::reject_recursive_types(T)]
pub struct ExUnboundedSender<T>(tokio::sync::mpsc::UnboundedSender<T>);

#[verifier::external_type_specification]
#[verifier::external_body]
pub struct ExMessage(tokio_tungstenite::tungstenite::Message);

/// The sending end of the channel whose messages go out over a client's socket.
pub type Tx = tokio::sync::mpsc::UnboundedSender<tokio_tungstenite::tungstenite::Message>;

/// `uuid::Uuid::new_v4`, as its 128-bit value: a random identifier. Of every
/// outcome the source shows that the version field (bits 76 to 79) is 4 and the
/// variant field (bits 62 and 63) is binary 10; the other bits are random.
#[verifier::external_body]
fn new_v4_id() -> (r: u128)
    ensures
        (r >> 76u128) & 0xfu128 == 4,
        (r >> 62u128) & 0x3u128 == 2,
{
    uuid::Uuid::new_v4().as_u128()
}

/// A client connection: its identifier, the peer's address, and the sending end of
/// the channel to its socket.
pub struct Connection {
    pub id: u128,
    pub addr: String,
    pub sink: Tx,
}

impl Connection {
    /// A connection to `addr` with a fresh random (version 4) identifier.
    pub fn new(addr: String, sink: Tx) -> (r: Connection)
        ensures
            r.addr == addr,
            r.sink == sink,
            (r.id >> 76u128) & 0xfu128 == 4,
            (r.id >> 62u128) & 0x3u128 == 2,
    {
        Connection { addr, sink, id: new_v4_id() }
    }
}

/// The live connections, each under its own identifier.
pub struct ConnectionMap {
    map: ConnectionTable,
}

impl ConnectionMap {
    /// The connections, by identifier.
    pub closed spec fn connections(&self) -> Map<u128, Connection> {
        self.map@
    }

    /// Every connection is stored under its own identifier.
    pub open spec fn wf(&self) -> bool {
        forall|id: u128| #[trigger] self.connections().contains_key(id) ==> self.connections()[id].id == id
    }

    /// No connections.
    pub fn new() -> (r: ConnectionMap)
        ensures
            r.wf(),
            r.connections() == Map::<u128, Connection>::empty(),
    {
        ConnectionMap { map: ConnectionTable::new() }
    }

    /// Adds `connection` under its identifier, which no live connection may have.
    pub fn add_connection(&mut self, connection: Connection)
        requires
            old(self).wf(),
            !old(self).connections().contains_key(connection.id),
        ensures
            final(self).wf(),
            final(self).connections() == old(self).connections().insert(connection.id, connection),
    {
        let id = connection.id;
        self.map.insert(id, connection);
    }

    /// The connection with identifier `id`, if it is live.
    pub fn get_connection(&self, id: &u128) -> (r: Option<&Connection>)
        ensures
            r is Some == self.connections().contains_key(*id),
            r matches Some(c) ==> *c == self.connections()[*id],
    {
        self.map.get(id)
    }
}

/// A connection that was added can be found again: after `add_connection` of
/// `connection`, `get_connection` of its identifier gives it back, and every other
/// identifier finds what it found before.
pub proof fn lemma_get_after_add(before: ConnectionMap, after: ConnectionMap, connection: Connection, other: u128)
    requires
        after.connections() == before.connections().insert(connection.id, connection),
    ensures
        after.connections().contains_key(connection.id),
        after.connections()[connection.id] == connection,
        other != connection.id ==> after.connections().contains_key(other) == before.connections().contains_key(
            other,
        ),
        other != connection.id && before.connections().contains_key(other) ==> after.connections()[other]
            == before.connections()[other],
{
}

} // verus!
