//! Connection tracking for the outlets of a transparent TCP portal.
//!
//! A captured packet is resolved in two steps: its destination address and
//! port select an [`Outlet`] in the [`OutletRegistry`], and the outlet then
//! finds the [`OutletConnection`] either by the port that was reserved for
//! the flow or by the identity of the peer and the identifier of the flow.
//!
//! The types here are plain values. Sharing them between the contexts that
//! handle packets, and the locking that goes with it, is the caller's part.

use std::collections::HashMap;
use std::sync::Arc;
use vstd::prelude::*;

verus! {

broadcast use vstd::std_specs::hash::group_hash_axioms;

/// `ockam_core::Address`, the address of a worker. Carried, never inspected.
#[verifier::external_type_specification]
#[verifier::external_body]
pub struct ExAddress(ockam_core::Address);

/// `ockam_core::Route`, a path of addresses through the overlay network.
/// Carried, never inspected.
#[verifier::external_type_specification]
#[verifier::external_body]
pub struct ExRoute(ockam_core::Route);

/// `tokio::sync::mpsc::Sender`, the sending half of a bounded channel.
/// Carried, never inspected.
#[verifier::external_type_specification]
#[verifier::external_body]
#[verifier::reject_recursive_types(T)]
pub struct ExSender<T>(tokio::sync::mpsc::Sender<T>);

/// `tokio::net::TcpListener`, held only to keep its port reserved.
#[verifier::external_type_specification]
#[verifier::external_body]
pub struct ExTcpListener(tokio::net::TcpListener);

/// `Arc::clone`: another handle to the same shared value, so that what the
/// new handle points to is what the given one points to.
#[verifier::external_body]
fn share<T>(handle: &Arc<T>) -> (shared: Arc<T>)
    ensures
        shared == *handle,
{
    Arc::clone(handle)
}

/// TCP port number.
pub type Port = u16;

/// Identifier that is unique to one flow through a portal.
#[derive(Debug)]
pub struct ConnectionIdentifier(pub String);

impl Clone for ConnectionIdentifier {
    fn clone(&self) -> (copy: ConnectionIdentifier)
        ensures
            copy == *self,
    {
        ConnectionIdentifier(self.0.clone())
    }
}

/// A captured TCP segment with the addresses it travels between.
#[derive(Clone, Debug)]
pub struct ParsedRawSocketPacket {
    /// Address the segment came from
    pub source_ip: u32,
    /// Port the segment came from
    pub source_port: Port,
    /// Address the segment was sent to
    pub destination_ip: u32,
    /// Port the segment was sent to
    pub destination_port: Port,
    /// The segment, header included
    pub segment: Vec<u8>,
}

/// What tells one flow of an outlet from another on the control path:
/// the peer's identity, if it has one, and the identifier of the flow.
pub struct ConnectionKey {
    pub identifier: Option<Seq<char>>,
    pub connection_identifier: Seq<char>,
}

/// The key made of the given identity and flow identifier.
pub open spec fn connection_key(
    identifier: Option<String>,
    connection_identifier: ConnectionIdentifier,
) -> ConnectionKey {
    ConnectionKey {
        identifier: match identifier {
            Some(name) => Some(name@),
            None => None,
        },
        connection_identifier: connection_identifier.0@,
    }
}

/// Outlet mapping
pub struct OutletConnection {
    /// Identity Identifier of the other side
    pub identifier: Option<String>,
    /// Unique connection Identifier
    pub connection_identifier: ConnectionIdentifier,
    /// Assigned port on our machine for a specific connection
    pub assigned_port: Port,
    /// Route to the other side PortalWorker
    pub return_route: ockam_core::Route,
    /// To hold the port
    pub _tcp_listener: Arc<tokio::net::TcpListener>,
}

impl OutletConnection {
    /// The key under which the identity index holds this connection.
    pub open spec fn key(&self) -> ConnectionKey {
        connection_key(self.identifier, self.connection_identifier)
    }

    /// Whether this connection belongs to the given identity and flow.
    fn has_key(
        &self,
        identifier: &Option<String>,
        connection_identifier: &ConnectionIdentifier,
    ) -> (same: bool)
        ensures
            same == (self.key() == connection_key(*identifier, *connection_identifier)),
    {
        let same_identifier = match (&self.identifier, identifier) {
            (Some(mine), Some(other)) => mine.eq(other),
            (None, None) => true,
            _ => false,
        };
        same_identifier && self.connection_identifier.0.eq(&connection_identifier.0)
    }
}

/// No two connections of `connections` have the same key.
pub open spec fn distinct_keys(connections: Seq<Arc<OutletConnection>>) -> bool {
    forall|i: int, j: int|
        0 <= i < j < connections.len() ==> (#[trigger] connections[i]).key() != (
        #[trigger] connections[j]).key()
}

/// The connections of `connections`, each under its key.
pub open spec fn keyed(connections: Seq<Arc<OutletConnection>>) -> Map<
    ConnectionKey,
    Arc<OutletConnection>,
> {
    Map::new(
        |key: ConnectionKey|
            exists|i: int| 0 <= i < connections.len() && (#[trigger] connections[i]).key() == key,
        |key: ConnectionKey|
            connections[choose|i: int|
                0 <= i < connections.len() && (#[trigger] connections[i]).key() == key],
    )
}

/// Where keys are distinct, each connection is the one found under its key.
proof fn lemma_keyed_at(connections: Seq<Arc<OutletConnection>>, i: int)
    requires
        distinct_keys(connections),
        0 <= i < connections.len(),
    ensures
        keyed(connections).contains_key(connections[i].key()),
        keyed(connections)[connections[i].key()] == connections[i],
{
    let key = connections[i].key();
    let j = choose|j: int| 0 <= j < connections.len() && (#[trigger] connections[j]).key() == key;
    assert(j == i);
}

/// Putting a connection in the place of the one that has its key keeps the
/// keys distinct and changes what is found under that key, and nothing else.
proof fn lemma_keyed_replaced(
    before: Seq<Arc<OutletConnection>>,
    i: int,
    connection: Arc<OutletConnection>,
)
    requires
        distinct_keys(before),
        0 <= i < before.len(),
        before[i].key() == connection.key(),
    ensures
        distinct_keys(before.update(i, connection)),
        keyed(before.update(i, connection)) == keyed(before).insert(connection.key(), connection),
{
    let after = before.update(i, connection);
    let expected = keyed(before).insert(connection.key(), connection);
    assert forall|a: int, b: int| 0 <= a < b < after.len() implies (#[trigger] after[a]).key() != (
    #[trigger] after[b]).key() by {
        assert(after[a].key() == before[a].key());
        assert(after[b].key() == before[b].key());
    }
    assert forall|key: ConnectionKey| #[trigger]
        keyed(after).contains_key(key) <==> expected.contains_key(key) by {
        if keyed(after).contains_key(key) {
            let j = choose|j: int| 0 <= j < after.len() && (#[trigger] after[j]).key() == key;
            assert(before[j].key() == key);
        }
        if keyed(before).contains_key(key) {
            let j = choose|j: int| 0 <= j < before.len() && (#[trigger] before[j]).key() == key;
            assert(after[j].key() == key);
        }
        if key == connection.key() {
            assert(after[i].key() == key);
        }
    }
    assert forall|key: ConnectionKey| #[trigger] keyed(after).contains_key(key) implies keyed(
        after,
    )[key] == expected[key] by {
        let j = choose|j: int| 0 <= j < after.len() && (#[trigger] after[j]).key() == key;
        lemma_keyed_at(after, j);
        if j != i {
            assert(before[j] == after[j]);
            lemma_keyed_at(before, j);
        }
    }
    assert(keyed(after) =~= expected);
}

/// Appending a connection whose key is new keeps the keys distinct and adds
/// the connection under its key, and nothing else.
proof fn lemma_keyed_appended(before: Seq<Arc<OutletConnection>>, connection: Arc<OutletConnection>)
    requires
        distinct_keys(before),
        forall|i: int| 0 <= i < before.len() ==> (#[trigger] before[i]).key() != connection.key(),
    ensures
        distinct_keys(before.push(connection)),
        keyed(before.push(connection)) == keyed(before).insert(connection.key(), connection),
{
    let after = before.push(connection);
    let expected = keyed(before).insert(connection.key(), connection);
    let last = after.len() - 1;
    assert forall|a: int, b: int| 0 <= a < b < after.len() implies (#[trigger] after[a]).key() != (
    #[trigger] after[b]).key() by {
        assert(after[a] == before[a]);
        if b < last {
            assert(after[b] == before[b]);
        }
    }
    assert forall|key: ConnectionKey| #[trigger]
        keyed(after).contains_key(key) <==> expected.contains_key(key) by {
        if keyed(after).contains_key(key) {
            let j = choose|j: int| 0 <= j < after.len() && (#[trigger] after[j]).key() == key;
            if j < last {
                assert(before[j].key() == key);
            }
        }
        if keyed(before).contains_key(key) {
            let j = choose|j: int| 0 <= j < before.len() && (#[trigger] before[j]).key() == key;
            assert(after[j].key() == key);
        }
        if key == connection.key() {
            assert(after[last].key() == key);
        }
    }
    assert forall|key: ConnectionKey| #[trigger] keyed(after).contains_key(key) implies keyed(
        after,
    )[key] == expected[key] by {
        let j = choose|j: int| 0 <= j < after.len() && (#[trigger] after[j]).key() == key;
        lemma_keyed_at(after, j);
        if j < last {
            assert(before[j] == after[j]);
            lemma_keyed_at(before, j);
        }
    }
    assert(keyed(after) =~= expected);
}

/// Outlet info
pub struct Outlet {
    /// RemoteWorker Address
    pub remote_worker_address: ockam_core::Address,
    /// InternalProcessor Address
    pub internal_processor_address: ockam_core::Address,
    /// Sender to the InternalProcessor
    pub sender: tokio::sync::mpsc::Sender<ParsedRawSocketPacket>,
    /// Destination IP, the four bytes of the address as one number
    pub dst_ip: u32,
    /// Destination Port
    pub dst_port: Port,
    /// The same connections under two keys
    connections1: HashMap<Port, Arc<OutletConnection>>,
    connections2: Vec<Arc<OutletConnection>>,
}

/// Mathematical content of an outlet: what it was registered with, and its
/// connections under each of their two keys.
pub struct OutletView {
    pub remote_worker_address: ockam_core::Address,
    pub internal_processor_address: ockam_core::Address,
    pub sender: tokio::sync::mpsc::Sender<ParsedRawSocketPacket>,
    pub dst_ip: u32,
    pub dst_port: Port,
    /// The connections by the port that was reserved for each.
    pub by_port: Map<Port, Arc<OutletConnection>>,
    /// The connections by the identity of the peer and the flow's identifier.
    pub by_identity: Map<ConnectionKey, Arc<OutletConnection>>,
}

impl OutletView {
    /// Every connection is found under its own port and its own key.
    pub open spec fn indexed_by_own_keys(self) -> bool {
        &&& forall|port: Port| #[trigger]
            self.by_port.contains_key(port) ==> self.by_port[port].assigned_port == port
        &&& forall|key: ConnectionKey| #[trigger]
            self.by_identity.contains_key(key) ==> self.by_identity[key].key() == key
    }

    /// The two indices hold the same connections.
    pub open spec fn consistent(self) -> bool {
        &&& forall|port: Port| #[trigger]
            self.by_port.contains_key(port) ==> {
                let connection = self.by_port[port];
                self.by_identity.contains_key(connection.key())
                    && self.by_identity[connection.key()] == connection
            }
        &&& forall|key: ConnectionKey| #[trigger]
            self.by_identity.contains_key(key) ==> {
                let connection = self.by_identity[key];
                self.by_port.contains_key(connection.assigned_port)
                    && self.by_port[connection.assigned_port] == connection
            }
    }

    /// `connection` shares its port, or its key, with a different
    /// connection that the outlet already holds.
    pub open spec fn clashes_with(self, connection: Arc<OutletConnection>) -> bool {
        ||| self.by_port.contains_key(connection.assigned_port)
            && self.by_port[connection.assigned_port].key() != connection.key()
        ||| self.by_identity.contains_key(connection.key())
            && self.by_identity[connection.key()].assigned_port != connection.assigned_port
    }

    /// The outlet after `connection` entered both indices.
    pub open spec fn with_connection(self, connection: Arc<OutletConnection>) -> OutletView {
        OutletView {
            by_port: self.by_port.insert(connection.assigned_port, connection),
            by_identity: self.by_identity.insert(connection.key(), connection),
            ..self
        }
    }
}

impl View for Outlet {
    type V = OutletView;

    closed spec fn view(&self) -> OutletView {
        OutletView {
            remote_worker_address: self.remote_worker_address,
            internal_processor_address: self.internal_processor_address,
            sender: self.sender,
            dst_ip: self.dst_ip,
            dst_port: self.dst_port,
            by_port: self.connections1@,
            by_identity: keyed(self.connections2@),
        }
    }
}

impl Outlet {
    /// The internal invariant: each connection is indexed under its own port
    /// and its own key, and the identity index holds no key twice.
    pub closed spec fn wf(&self) -> bool {
        &&& distinct_keys(self.connections2@)
        &&& forall|port: Port| #[trigger]
            self.connections1@.contains_key(port) ==> self.connections1@[port].assigned_port
                == port
    }

    /// A well-formed outlet holds each connection under its own keys.
    pub proof fn lemma_wf_indexed(&self)
        requires
            self.wf(),
        ensures
            self@.indexed_by_own_keys(),
    {
        assert forall|key: ConnectionKey| #[trigger]
            self@.by_identity.contains_key(key) implies self@.by_identity[key].key() == key by {
            let j = choose|j: int|
                0 <= j < self.connections2@.len() && (#[trigger] self.connections2@[j]).key()
                    == key;
            lemma_keyed_at(self.connections2@, j);
        }
    }

    /// An outlet for the given destination, without connections.
    pub fn new(
        remote_worker_address: ockam_core::Address,
        internal_processor_address: ockam_core::Address,
        sender: tokio::sync::mpsc::Sender<ParsedRawSocketPacket>,
        dst_ip: u32,
        dst_port: Port,
    ) -> (outlet: Outlet)
        ensures
            outlet.wf(),
            outlet@ == registered(
                remote_worker_address,
                internal_processor_address,
                sender,
                dst_ip,
                dst_port,
            ),
    {
        let outlet = Outlet {
            remote_worker_address,
            internal_processor_address,
            sender,
            dst_ip,
            dst_port,
            connections1: HashMap::new(),
            connections2: Vec::new(),
        };
        proof {
            assert(keyed(outlet.connections2@) =~= Map::<
                ConnectionKey,
                Arc<OutletConnection>,
            >::empty());
        }
        outlet
    }

    /// RemoteWorker Address
    pub fn remote_worker_address(&self) -> (address: &ockam_core::Address)
        ensures
            *address == self@.remote_worker_address,
    {
        &self.remote_worker_address
    }

    /// InternalProcessor Address
    pub fn internal_processor_address(&self) -> (address: &ockam_core::Address)
        ensures
            *address == self@.internal_processor_address,
    {
        &self.internal_processor_address
    }

    /// Sender to the InternalProcessor
    pub fn sender(&self) -> (sender: &tokio::sync::mpsc::Sender<ParsedRawSocketPacket>)
        ensures
            *sender == self@.sender,
    {
        &self.sender
    }

    /// Destination IP
    pub fn dst_ip(&self) -> (dst_ip: u32)
        ensures
            dst_ip == self@.dst_ip,
    {
        self.dst_ip
    }

    /// Destination Port
    pub fn dst_port(&self) -> (dst_port: Port)
        ensures
            dst_port == self@.dst_port,
    {
        self.dst_port
    }

    /// Position in the identity index of the connection with the given key.
    fn position(
        &self,
        identifier: &Option<String>,
        connection_identifier: &ConnectionIdentifier,
    ) -> (found: Option<usize>)
        ensures
            match found {
                Some(i) => i < self.connections2@.len() && self.connections2@[i as int].key()
                    == connection_key(*identifier, *connection_identifier),
                None => forall|i: int|
                    0 <= i < self.connections2@.len() ==> (#[trigger] self.connections2@[i]).key()
                        != connection_key(*identifier, *connection_identifier),
            },
    {
        let mut i: usize = 0;
        while i < self.connections2.len()
            invariant
                i <= self.connections2@.len(),
                forall|j: int|
                    0 <= j < i ==> (#[trigger] self.connections2@[j]).key() != connection_key(
                        *identifier,
                        *connection_identifier,
                    ),
            decreases self.connections2@.len() - i,
        {
            if self.connections2[i].has_key(identifier, connection_identifier) {
                return Some(i);
            }
            i += 1;
        }
        None
    }

    /// Add mapping
    ///
    /// The connection enters both indices, replacing what either held under
    /// its port or its key.
    pub fn add_connection(&mut self, connection: Arc<OutletConnection>)
        requires
            old(self).wf(),
        ensures
            final(self).wf(),
            final(self)@ == old(self)@.with_connection(connection),
    {
        let ghost before = self.connections2@;
        self.connections1.insert(connection.assigned_port, share(&connection));
        match self.position(&connection.identifier, &connection.connection_identifier) {
            Some(i) => {
                self.connections2.set(i, connection);
                proof {
                    lemma_keyed_replaced(before, i as int, connection);
                }
            },
            None => {
                self.connections2.push(connection);
                proof {
                    lemma_keyed_appended(before, connection);
                }
            },
        }
    }

    /// Get Connection
    ///
    /// The connection for which `assigned_port` was reserved, if there is one.
    pub fn get_connection_internal(&self, assigned_port: Port) -> (connection: Option<
        Arc<OutletConnection>,
    >)
        ensures
            connection == if self@.by_port.contains_key(assigned_port) {
                Some(self@.by_port[assigned_port])
            } else {
                None
            },
    {
        match self.connections1.get(&assigned_port) {
            Some(found) => Some(share(found)),
            None => None,
        }
    }

    /// Get mapping
    ///
    /// The connection of the given peer and flow, if there is one.
    pub fn get_connection_external(
        &self,
        identifier: Option<String>,
        connection_identifier: ConnectionIdentifier,
    ) -> (connection: Option<Arc<OutletConnection>>)
        requires
            self.wf(),
        ensures
            connection == if self@.by_identity.contains_key(
                connection_key(identifier, connection_identifier),
            ) {
                Some(self@.by_identity[connection_key(identifier, connection_identifier)])
            } else {
                None
            },
    {
        match self.position(&identifier, &connection_identifier) {
            Some(i) => {
                proof {
                    lemma_keyed_at(self.connections2@, i as int);
                }
                Some(share(&self.connections2[i]))
            },
            None => None,
        }
    }
}

/// Adding a connection makes it the one found under its port and the one
/// found under its key, so both lookups give the same flow. The two indices
/// go on holding the same connections unless the new one takes the port or
/// the key of a different connection.
pub proof fn lemma_added_connection_in_both(before: OutletView, connection: Arc<OutletConnection>)
    requires
        before.indexed_by_own_keys(),
    ensures
        ({
            let after = before.with_connection(connection);
            &&& after.by_port.contains_key(connection.assigned_port)
            &&& after.by_port[connection.assigned_port] == connection
            &&& after.by_identity.contains_key(connection.key())
            &&& after.by_identity[connection.key()] == connection
            &&& after.by_port[connection.assigned_port].connection_identifier
                == after.by_identity[connection.key()].connection_identifier
            &&& after.indexed_by_own_keys()
            &&& before.consistent() && !before.clashes_with(connection) ==> after.consistent()
        }),
{
    let after = before.with_connection(connection);
    if before.consistent() && !before.clashes_with(connection) {
        assert forall|port: Port| #[trigger] after.by_port.contains_key(port) implies ({
            let found = after.by_port[port];
            after.by_identity.contains_key(found.key()) && after.by_identity[found.key()] == found
        }) by {
            if port != connection.assigned_port {
                assert(before.by_port.contains_key(port));
                let found = before.by_port[port];
                assert(before.by_identity.contains_key(found.key()));
            }
        }
        assert forall|key: ConnectionKey| #[trigger] after.by_identity.contains_key(key) implies ({
            let found = after.by_identity[key];
            after.by_port.contains_key(found.assigned_port) && after.by_port[found.assigned_port]
                == found
        }) by {
            if key != connection.key() {
                assert(before.by_identity.contains_key(key));
                let found = before.by_identity[key];
                assert(before.by_port.contains_key(found.assigned_port));
            }
        }
    }
}

/// The one integer that stands for a destination address and port.
pub open spec fn outlet_key(dst_ip: u32, dst_port: Port) -> u64 {
    (dst_ip as u64 * 65536 + dst_port as u64) as u64
}

/// The content of an outlet that was just registered: the given values and
/// no connection.
pub open spec fn registered(
    remote_worker_address: ockam_core::Address,
    internal_processor_address: ockam_core::Address,
    sender: tokio::sync::mpsc::Sender<ParsedRawSocketPacket>,
    dst_ip: u32,
    dst_port: Port,
) -> OutletView {
    OutletView {
        remote_worker_address,
        internal_processor_address,
        sender,
        dst_ip,
        dst_port,
        by_port: Map::empty(),
        by_identity: Map::empty(),
    }
}

/// An outlet that was just registered holds nothing, so its two indices
/// agree.
pub proof fn lemma_registered_consistent(
    remote_worker_address: ockam_core::Address,
    internal_processor_address: ockam_core::Address,
    sender: tokio::sync::mpsc::Sender<ParsedRawSocketPacket>,
    dst_ip: u32,
    dst_port: Port,
)
    ensures
        ({
            let outlet = registered(
                remote_worker_address,
                internal_processor_address,
                sender,
                dst_ip,
                dst_port,
            );
            outlet.consistent() && outlet.indexed_by_own_keys()
        }),
{
}

/// Outlet registry
pub struct OutletRegistry {
    outlets: HashMap<u64, Outlet>,
}

impl View for OutletRegistry {
    type V = Map<(u32, Port), OutletView>;

    closed spec fn view(&self) -> Map<(u32, Port), OutletView> {
        Map::new(
            |at: (u32, Port)| self.outlets@.contains_key(outlet_key(at.0, at.1)),
            |at: (u32, Port)| self.outlets@[outlet_key(at.0, at.1)]@,
        )
    }
}

impl OutletRegistry {
    /// The internal invariant: each outlet is well formed and stands under
    /// the address and port that it was registered with.
    pub closed spec fn wf(&self) -> bool {
        forall|key: u64| #[trigger]
            self.outlets@.contains_key(key) ==> {
                let outlet = self.outlets@[key];
                outlet.wf() && key == outlet_key(outlet.dst_ip, outlet.dst_port)
            }
    }

    /// A registry without outlets.
    pub fn new() -> (registry: OutletRegistry)
        ensures
            registry.wf(),
            registry@ == Map::<(u32, Port), OutletView>::empty(),
    {
        let registry = OutletRegistry { outlets: HashMap::new() };
        assert(registry@ =~= Map::<(u32, Port), OutletView>::empty());
        registry
    }

    /// Get outlet
    ///
    /// The outlet registered for the given destination, if there is one.
    pub fn get_outlet(&self, src_ip: u32, src_port: Port) -> (outlet: Option<&Outlet>)
        requires
            self.wf(),
        ensures
            match outlet {
                Some(found) => self@.contains_key((src_ip, src_port)) && found@ == self@[(
                    src_ip,
                    src_port,
                )] && found.wf() && found@.dst_ip == src_ip && found@.dst_port == src_port,
                None => !self@.contains_key((src_ip, src_port)),
            },
    {
        let key = pack(src_ip, src_port);
        let outlet = self.outlets.get(&key);
        proof {
            if let Some(found) = outlet {
                lemma_outlet_key_injective(src_ip, src_port, found.dst_ip, found.dst_port);
            }
        }
        outlet
    }

    /// Add outlet
    ///
    /// Registers a new outlet without connections for the given destination,
    /// in place of the one registered for it before, if any, and hands out
    /// the outlet as it now stands in the registry.
    pub fn add_outlet(
        &mut self,
        remote_worker_address: ockam_core::Address,
        internal_processor_address: ockam_core::Address,
        sender: tokio::sync::mpsc::Sender<ParsedRawSocketPacket>,
        dst_ip: u32,
        dst_port: Port,
    ) -> (outlet: &Outlet)
        requires
            old(self).wf(),
        ensures
            final(self).wf(),
            final(self)@ == old(self)@.insert(
                (dst_ip, dst_port),
                registered(
                    remote_worker_address,
                    internal_processor_address,
                    sender,
                    dst_ip,
                    dst_port,
                ),
            ),
            outlet.wf(),
            outlet@ == registered(
                remote_worker_address,
                internal_processor_address,
                sender,
                dst_ip,
                dst_port,
            ),
    {
        let outlet_info = Outlet::new(
            remote_worker_address,
            internal_processor_address,
            sender,
            dst_ip,
            dst_port,
        );
        let key = pack(dst_ip, dst_port);
        let ghost before = self@;
        self.outlets.insert(key, outlet_info);
        proof {
            assert forall|at: (u32, Port)|
                outlet_key(at.0, at.1) == key implies at == (dst_ip, dst_port) by {
                lemma_outlet_key_injective(at.0, at.1, dst_ip, dst_port);
            }
            assert(self@ =~= before.insert((dst_ip, dst_port), outlet_info@));
        }
        let outlet = self.outlets.get(&key);
        outlet.unwrap()
    }

    /// Adds a connection to the outlet that is registered for the given
    /// destination. Without such an outlet nothing changes.
    pub fn add_connection(
        &mut self,
        dst_ip: u32,
        dst_port: Port,
        connection: Arc<OutletConnection>,
    ) -> (added: bool)
        requires
            old(self).wf(),
        ensures
            final(self).wf(),
            added == old(self)@.contains_key((dst_ip, dst_port)),
            final(self)@ == if added {
                old(self)@.insert(
                    (dst_ip, dst_port),
                    old(self)@[(dst_ip, dst_port)].with_connection(connection),
                )
            } else {
                old(self)@
            },
    {
        let key = pack(dst_ip, dst_port);
        let ghost before = self@;
        let ghost stored = self.outlets@;
        match self.outlets.remove(&key) {
            Some(outlet) => {
                let mut outlet = outlet;
                outlet.add_connection(connection);
                self.outlets.insert(key, outlet);
                proof {
                    assert forall|at: (u32, Port)|
                        outlet_key(at.0, at.1) == key implies at == (dst_ip, dst_port) by {
                        lemma_outlet_key_injective(at.0, at.1, dst_ip, dst_port);
                    }
                    assert(self.outlets@ =~= stored.insert(key, outlet));
                    assert(self@ =~= before.insert(
                        (dst_ip, dst_port),
                        before[(dst_ip, dst_port)].with_connection(connection),
                    ));
                }
                true
            },
            None => {
                proof {
                    assert(self.outlets@ =~= stored);
                    assert(self@ =~= before);
                }
                false
            },
        }
    }
}

impl Default for OutletRegistry {
    fn default() -> (registry: OutletRegistry)
        ensures
            registry.wf(),
            registry@ == Map::<(u32, Port), OutletView>::empty(),
    {
        OutletRegistry::new()
    }
}

/// Registering an outlet makes it the one found for its destination and
/// touches no other destination. Registering a second one for the same
/// destination leaves the registry as if the first had never been there.
pub proof fn lemma_last_registration_wins(
    registry: Map<(u32, Port), OutletView>,
    at: (u32, Port),
    first: OutletView,
    second: OutletView,
)
    ensures
        registry.insert(at, first).contains_key(at),
        registry.insert(at, first)[at] == first,
        forall|other: (u32, Port)|
            other != at ==> (#[trigger] registry.insert(at, first).contains_key(other)
                == registry.contains_key(other)) && registry.insert(at, first)[other]
                == registry[other],
        registry.insert(at, first).insert(at, second) == registry.insert(at, second),
        registry.insert(at, first).insert(at, second)[at] == second,
{
    assert(registry.insert(at, first).insert(at, second) =~= registry.insert(at, second));
}

/// The key of a destination, computed.
fn pack(dst_ip: u32, dst_port: Port) -> (key: u64)
    ensures
        key == outlet_key(dst_ip, dst_port),
{
    dst_ip as u64 * 65536 + dst_port as u64
}

/// Different destinations have different keys.
proof fn lemma_outlet_key_injective(ip_a: u32, port_a: Port, ip_b: u32, port_b: Port)
    ensures
        outlet_key(ip_a, port_a) == outlet_key(ip_b, port_b) ==> ip_a == ip_b && port_a == port_b,
{
}

} // verus!
