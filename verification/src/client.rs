//! The client: one node's outbound connections and the writes it orders.
//!
//! The client keeps the table of connected peers and decides what is written
//! to whom. It opens no socket and spawns no task: it names the peers to dial,
//! records which dials succeeded, and answers each request to write with
//! orders, one per peer, that the caller carries out under the lock of that
//! peer's connection.

use crate::error::{IllegalStateError, WriteError};
use crate::node::State;
use crate::protocol::connection::{frame, framed, DELIMITER};
use dashmap::DashMap;
use vstd::prelude::*;

verus! {

/// `dashmap::DashMap`, the concurrent map that holds the connection table.
/// Nothing inside it is visible here: what a table holds goes by the name
/// [`table_entries`], and the table is reached through the four functions
/// below only.
#[verifier::external_type_specification]
#[verifier::external_body]
#[verifier::reject_recursive_types(K)]
#[verifier::reject_recursive_types(V)]
#[verifier::reject_recursive_types(S)]
pub struct ExDashMap<K, V, S>(DashMap<K, V, S>);

/// What a connection table holds: for each peer key, the handle of the
/// connection to that peer.
pub uninterp spec fn table_entries(table: DashMap<String, u64>) -> Map<Seq<char>, u64>;

/// The table of a client that is connected to no peer.
pub open spec fn no_peers() -> Map<Seq<char>, u64> {
    Map::empty()
}

/// Makes an empty table with `DashMap::new`.
///
/// Trusted: the new map holds nothing.
#[verifier::external_body]
fn table_new() -> (made: DashMap<String, u64>)
    ensures
        table_entries(made) == no_peers(),
{
    DashMap::new()
}

/// Puts `connection` under `key` with `DashMap::insert`.
///
/// Trusted: afterwards the key holds `connection` and every other key holds
/// what it held; the result is what the key held before, if anything.
#[verifier::external_body]
fn table_insert(table: &mut DashMap<String, u64>, key: String, connection: u64) -> (previous:
    Option<u64>)
    ensures
        table_entries(*final(table)) == table_entries(*old(table)).insert(key@, connection),
        previous == if table_entries(*old(table)).contains_key(key@) {
            Some(table_entries(*old(table))[key@])
        } else {
            None
        },
{
    table.insert(key, connection)
}

/// Looks `key` up with `DashMap::get` and copies the handle found.
///
/// Trusted: the result is what the key holds, if anything.
#[verifier::external_body]
fn table_get(table: &DashMap<String, u64>, key: &String) -> (connection: Option<u64>)
    ensures
        connection == if table_entries(*table).contains_key(key@) {
            Some(table_entries(*table)[key@])
        } else {
            None
        },
{
    table.get(key).map(|entry| *entry.value())
}

/// Walks the table with `DashMap::iter` and copies each key.
///
/// Trusted: every key of the table comes once, and nothing else comes. The
/// order of the walk is left open.
#[verifier::external_body]
fn table_keys(table: &DashMap<String, u64>) -> (keys: Vec<String>)
    ensures
        forall|i: int, j: int| 0 <= i < j < keys.len() ==> keys[i]@ != keys[j]@,
        forall|i: int|
            0 <= i < keys.len() ==> table_entries(*table).contains_key(#[trigger] keys[i]@),
        forall|key: Seq<char>| #[trigger]
            table_entries(*table).contains_key(key) ==> exists|i: int|
                0 <= i < keys.len() && #[trigger] keys[i]@ == key,
{
    table.iter().map(|entry| entry.key().clone()).collect()
}

/// The outcome of one dial: the address dialed and, where a connection was
/// opened, the handle under which the caller keeps it.
#[derive(Clone, Eq, PartialEq, Debug)]
pub struct Dialed {
    pub address: String,
    pub connection: Option<u64>,
}

/// The mathematical value of a [`Dialed`].
pub struct DialedView {
    pub address: Seq<char>,
    pub connection: Option<u64>,
}

impl View for Dialed {
    type V = DialedView;

    open spec fn view(&self) -> DialedView {
        DialedView { address: self.address@, connection: self.connection }
    }
}

/// The views of a list of dials.
pub open spec fn dialed_views(dialed: Seq<Dialed>) -> Seq<DialedView> {
    Seq::new(dialed.len(), |i: int| dialed[i]@)
}

/// The views of a list of keys.
pub open spec fn key_views(keys: Seq<String>) -> Seq<Seq<char>> {
    Seq::new(keys.len(), |i: int| keys[i]@)
}

/// The table after the dials `dialed` are recorded in `table`, in order: each
/// dial that opened a connection puts it under its address, in place of what
/// the address held; a dial that failed changes nothing.
pub open spec fn connected(table: Map<Seq<char>, u64>, dialed: Seq<DialedView>) -> Map<
    Seq<char>,
    u64,
>
    decreases dialed.len(),
{
    if dialed.len() == 0 {
        table
    } else {
        let before = connected(table, dialed.drop_last());
        match dialed.last().connection {
            Some(connection) => before.insert(dialed.last().address, connection),
            None => before,
        }
    }
}

/// The addresses of the dials that opened no connection, in order.
pub open spec fn failed_dials(dialed: Seq<DialedView>) -> Seq<Seq<char>>
    decreases dialed.len(),
{
    if dialed.len() == 0 {
        Seq::empty()
    } else {
        match dialed.last().connection {
            Some(_) => failed_dials(dialed.drop_last()),
            None => failed_dials(dialed.drop_last()).push(dialed.last().address),
        }
    }
}

/// An order to write: put `frame` on the wire of the connection with the
/// handle `connection`, which is that of the peer `peer`, in one piece and
/// under that connection's lock.
#[derive(Clone, Eq, PartialEq, Debug)]
pub struct Write {
    pub peer: String,
    pub connection: u64,
    pub frame: Vec<u8>,
}

impl Write {
    /// Whether this is the order that sends `msg` to the peer `peer` of
    /// `table`: it names the peer's connection and holds the message framed.
    pub open spec fn sends(
        &self,
        table: Map<Seq<char>, u64>,
        peer: Seq<char>,
        msg: Seq<u8>,
    ) -> bool {
        &&& self.peer@ == peer
        &&& table.contains_key(peer)
        &&& self.connection == table[peer]
        &&& self.frame@ == framed(msg)
    }
}

/// Whether `orders` send `msg` to all the peers of `table` and to them only,
/// once each: no two orders name the same peer, every order sends the message
/// to a peer of the table, and every peer of the table has its order.
pub open spec fn reaches_all(
    orders: Seq<Write>,
    table: Map<Seq<char>, u64>,
    msg: Seq<u8>,
) -> bool {
    &&& forall|i: int, j: int|
        0 <= i < j < orders.len() ==> (#[trigger] orders[i]).peer@ != (#[trigger] orders[j]).peer@
    &&& forall|i: int|
        0 <= i < orders.len() ==> (#[trigger] orders[i]).sends(table, orders[i].peer@, msg)
    &&& forall|key: Seq<char>| #[trigger]
        table.contains_key(key) ==> exists|i: int|
            0 <= i < orders.len() && (#[trigger] orders[i]).peer@ == key
}

/// One node's outbound networking: its own address, the peers it is
/// configured with, and the connections it holds, one per peer key.
///
/// A peer key is the text of the peer's socket address, `host:port`, as the
/// caller writes it everywhere.
pub struct Client {
    pub address: String,
    pub server_addresses: Vec<String>,
    pub state: State,
    pub connections: DashMap<String, u64>,
}

impl Client {
    /// The connections held: the handle of each connected peer, by peer key.
    pub open spec fn peers(&self) -> Map<Seq<char>, u64> {
        table_entries(self.connections)
    }

    /// A client for the node at `address` with the peers `server_addresses`,
    /// new and not connected to any of them.
    pub fn new(address: String, server_addresses: Vec<String>) -> (client: Client)
        ensures
            client.address == address,
            client.server_addresses == server_addresses,
            client.state == State::New,
            client.peers() == no_peers(),
    {
        Self { address, server_addresses, state: State::New, connections: table_new() }
    }

    /// The peers to dial: every configured peer, in the order of the
    /// configuration. The caller dials them all at once, one task each, waits
    /// for every task to end, and hands the outcomes to [`Client::run`].
    pub fn dial_targets(&self) -> (targets: Vec<String>)
        ensures
            key_views(targets@) == key_views(self.server_addresses@),
    {
        let mut targets: Vec<String> = Vec::new();
        let mut i: usize = 0;
        while i < self.server_addresses.len()
            invariant
                i <= self.server_addresses.len(),
                targets.len() == i,
                forall|k: int|
                    0 <= k < i ==> (#[trigger] targets@[k])@ == self.server_addresses@[k]@,
            decreases self.server_addresses.len() - i,
        {
            targets.push(self.server_addresses[i].clone());
            i += 1;
        }
        assert(key_views(targets@) =~= key_views(self.server_addresses@));
        targets
    }

    /// Records the outcomes of the dials: every peer that was reached enters
    /// the table under its key, and nothing else changes. A peer that was not
    /// reached is left out of the table and named in the result, so that the
    /// caller sees a partial failure and decides what it means.
    pub fn run(&mut self, dialed: Vec<Dialed>) -> (failed: Vec<String>)
        ensures
            final(self).peers() == connected(old(self).peers(), dialed_views(dialed@)),
            key_views(failed@) == failed_dials(dialed_views(dialed@)),
            final(self).address == old(self).address,
            final(self).server_addresses == old(self).server_addresses,
            final(self).state == old(self).state,
    {
        let ghost all = dialed_views(dialed@);
        let mut failed: Vec<String> = Vec::new();
        let mut i: usize = 0;
        assert(all.take(0) =~= Seq::<DialedView>::empty());
        while i < dialed.len()
            invariant
                i <= dialed.len(),
                all == dialed_views(dialed@),
                self.peers() == connected(old(self).peers(), all.take(i as int)),
                key_views(failed@) == failed_dials(all.take(i as int)),
                self.address == old(self).address,
                self.server_addresses == old(self).server_addresses,
                self.state == old(self).state,
            decreases dialed.len() - i,
        {
            assert(all.take(i + 1).drop_last() =~= all.take(i as int));
            assert(all.take(i + 1).last() == dialed@[i as int]@);
            match dialed[i].connection {
                Some(connection) => {
                    let address = dialed[i].address.clone();
                    let _ = table_insert(&mut self.connections, address, connection);
                },
                None => {
                    failed.push(dialed[i].address.clone());
                    assert(key_views(failed@) =~= failed_dials(all.take(i + 1)));
                },
            }
            i += 1;
        }
        assert(all.take(i as int) =~= all);
        failed
    }

    /// Whether a connection is held for the peer `peer_addr`.
    pub fn has_peer(&self, peer_addr: &String) -> (held: bool)
        ensures
            held == self.peers().contains_key(peer_addr@),
    {
        table_get(&self.connections, peer_addr).is_some()
    }

    /// The order that sends `msg` over `connection`, the connection of
    /// `peer`: the message framed, to be written under the connection's lock.
    fn write(peer: String, connection: u64, msg: &Vec<u8>) -> (order: Write)
        ensures
            order.peer == peer,
            order.connection == connection,
            order.frame@ == framed(msg@),
    {
        Write { peer, connection, frame: frame(msg.as_slice()) }
    }

    /// Orders one framed write of `msg` to the peer `peer_addr`.
    ///
    /// Fails, with an error that names the key, exactly when no connection is
    /// held for `peer_addr`; nothing is then to be written to anyone.
    pub fn write_to(&self, peer_addr: &String, msg: &Vec<u8>) -> (order: Result<
        Write,
        IllegalStateError,
    >)
        ensures
            match order {
                Ok(write) => write.sends(self.peers(), peer_addr@, msg@),
                Err(error) => {
                    &&& !self.peers().contains_key(peer_addr@)
                    &&& error@ == crate::error::IllegalStateErrorView::NoPeerAtAddress(peer_addr@)
                },
            },
    {
        match table_get(&self.connections, peer_addr) {
            Some(connection) => Ok(Self::write(peer_addr.clone(), connection, msg)),
            None => Err(IllegalStateError::NoPeerAtAddress(peer_addr.clone())),
        }
    }

    /// Orders one framed write of `msg` to each of `peer_addrs`, in their
    /// order. The caller carries the orders out at once, as many at a time as
    /// there are orders, and collects one result per order as they complete.
    ///
    /// The caller makes sure beforehand that a connection is held for every
    /// key: see [`Client::has_peer`].
    pub fn write_many(&self, peer_addrs: &Vec<String>, msg: &Vec<u8>) -> (orders: Vec<Write>)
        requires
            forall|i: int|
                0 <= i < peer_addrs.len() ==> self.peers().contains_key(#[trigger] peer_addrs[i]@),
        ensures
            orders.len() == peer_addrs.len(),
            forall|i: int|
                0 <= i < orders.len() ==> (#[trigger] orders[i]).sends(
                    self.peers(),
                    peer_addrs[i]@,
                    msg@,
                ),
    {
        let mut orders: Vec<Write> = Vec::new();
        let mut i: usize = 0;
        while i < peer_addrs.len()
            invariant
                i <= peer_addrs.len(),
                orders.len() == i,
                forall|k: int|
                    0 <= k < peer_addrs.len() ==> self.peers().contains_key(
                        #[trigger] peer_addrs[k]@,
                    ),
                forall|k: int|
                    0 <= k < i ==> (#[trigger] orders[k]).sends(
                        self.peers(),
                        peer_addrs[k]@,
                        msg@,
                    ),
            decreases peer_addrs.len() - i,
        {
            match self.write_to(&peer_addrs[i], msg) {
                Ok(order) => orders.push(order),
                Err(_) => {
                    assert(self.peers().contains_key(peer_addrs[i as int]@));
                    assert(false);
                },
            }
            i += 1;
        }
        orders
    }

    /// Orders one framed write of `msg` to every peer that is connected now:
    /// each peer of the table gets exactly one order, and no one else gets
    /// any. The order of the orders is not fixed.
    pub fn broadcast(&self, msg: &Vec<u8>) -> (orders: Vec<Write>)
        ensures
            reaches_all(orders@, self.peers(), msg@),
    {
        let peer_addrs = table_keys(&self.connections);
        let orders = self.write_many(&peer_addrs, msg);
        assert forall|key: Seq<char>| #[trigger] self.peers().contains_key(key) implies exists|
            i: int,
        | 0 <= i < orders.len() && (#[trigger] orders[i]).peer@ == key by {
            let i = choose|i: int| 0 <= i < peer_addrs.len() && #[trigger] peer_addrs[i]@ == key;
            assert(orders[i].sends(self.peers(), peer_addrs[i]@, msg@));
        }
        orders
    }

    /// The result of one write of a batch, whatever became of its task: the
    /// result of the write where the task ran to its end, and an error of its
    /// own where the task did not. A task that failed thus fills its own place
    /// in the results and touches no other.
    pub fn settle(joined: Result<Result<(), WriteError>, String>) -> (result: Result<
        (),
        WriteError,
    >)
        ensures
            result == match joined {
                Ok(written) => written,
                Err(report) => Err(WriteError::Task(report)),
            },
    {
        match joined {
            Ok(written) => written,
            Err(report) => Err(WriteError::Task(report)),
        }
    }
}

/// After dials are recorded, a connection is held for exactly the peers that
/// had one before and the peers that a dial reached.
pub proof fn lemma_connected_peers(
    table: Map<Seq<char>, u64>,
    dialed: Seq<DialedView>,
    key: Seq<char>,
)
    ensures
        connected(table, dialed).contains_key(key) <==> table.contains_key(key) || exists|i: int|
            0 <= i < dialed.len() && (#[trigger] dialed[i]).address == key
                && dialed[i].connection is Some,
    decreases dialed.len(),
{
    if dialed.len() > 0 {
        let before = dialed.drop_last();
        lemma_connected_peers(table, before, key);
        if connected(table, dialed).contains_key(key) && !table.contains_key(key) {
            if connected(table, before).contains_key(key) {
                let i = choose|i: int|
                    0 <= i < before.len() && (#[trigger] before[i]).address == key
                        && before[i].connection is Some;
                assert(dialed[i] == before[i]);
            } else {
                assert(dialed[dialed.len() - 1].address == key);
            }
        }
        if exists|i: int|
            0 <= i < dialed.len() && (#[trigger] dialed[i]).address == key
                && dialed[i].connection is Some {
            let i = choose|i: int|
                0 <= i < dialed.len() && (#[trigger] dialed[i]).address == key
                    && dialed[i].connection is Some;
            if i < dialed.len() - 1 {
                assert(before[i] == dialed[i]);
            }
        }
    }
}

/// After dials are recorded, the connection held for a peer that was reached
/// is the one that the last dial to reach it opened: there is one connection
/// per peer key, the latest.
pub proof fn lemma_connected_handle(table: Map<Seq<char>, u64>, dialed: Seq<DialedView>, i: int)
    requires
        0 <= i < dialed.len(),
        dialed[i].connection is Some,
        forall|j: int|
            i < j < dialed.len() ==> (#[trigger] dialed[j]).address != dialed[i].address
                || dialed[j].connection is None,
    ensures
        connected(table, dialed).contains_key(dialed[i].address),
        connected(table, dialed)[dialed[i].address] == dialed[i].connection->0,
    decreases dialed.len(),
{
    if i < dialed.len() - 1 {
        let before = dialed.drop_last();
        assert(before[i] == dialed[i]);
        assert forall|j: int| i < j < before.len() implies (#[trigger] before[j]).address
            != before[i].address || before[j].connection is None by {
            assert(before[j] == dialed[j]);
        }
        lemma_connected_handle(table, before, i);
        assert(dialed[dialed.len() - 1].address != dialed[i].address || dialed[dialed.len()
            - 1].connection is None);
    }
}

/// Every dial that failed is reported: its address is among those that the
/// run hands back.
pub proof fn lemma_failed_dials_are_reported(dialed: Seq<DialedView>, i: int)
    requires
        0 <= i < dialed.len(),
        dialed[i].connection is None,
    ensures
        failed_dials(dialed).contains(dialed[i].address),
    decreases dialed.len(),
{
    if i < dialed.len() - 1 {
        let before = dialed.drop_last();
        assert(before[i] == dialed[i]);
        lemma_failed_dials_are_reported(before, i);
        let k = choose|k: int|
            0 <= k < failed_dials(before).len() && failed_dials(before)[k] == dialed[i].address;
        if dialed.last().connection is None {
            assert(failed_dials(dialed)[k] == dialed[i].address);
        }
    } else {
        assert(failed_dials(dialed).last() == dialed[i].address);
    }
}

/// A broadcast is complete: of the orders that send a message to all the
/// peers of a table, exactly one is for any given peer of the table, and it
/// holds the message followed by the delimiter, for that peer's connection.
pub proof fn lemma_broadcast_is_complete(
    orders: Seq<Write>,
    table: Map<Seq<char>, u64>,
    msg: Seq<u8>,
    key: Seq<char>,
)
    requires
        reaches_all(orders, table, msg),
        table.contains_key(key),
    ensures
        exists|i: int|
            {
                &&& 0 <= i < orders.len()
                &&& (#[trigger] orders[i]).peer@ == key
                &&& orders[i].connection == table[key]
                &&& orders[i].frame@ == msg.push(DELIMITER)
                &&& forall|j: int|
                    0 <= j < orders.len() && j != i ==> (#[trigger] orders[j]).peer@ != key
            },
{
    let i = choose|i: int| 0 <= i < orders.len() && (#[trigger] orders[i]).peer@ == key;
    assert(orders[i].sends(table, orders[i].peer@, msg));
    assert forall|j: int| 0 <= j < orders.len() && j != i implies (#[trigger] orders[j]).peer@
        != key by {
        if j < i {
            assert(orders[j].peer@ != orders[i].peer@);
        } else {
            assert(orders[i].peer@ != orders[j].peer@);
        }
    }
}

/// Writes to different peers wait for different locks: where every peer of
/// the table has a connection of its own, no two orders of a broadcast name
/// the same connection, so that none of them waits for another.
pub proof fn lemma_broadcast_shares_no_connection(
    orders: Seq<Write>,
    table: Map<Seq<char>, u64>,
    msg: Seq<u8>,
)
    requires
        reaches_all(orders, table, msg),
        table.is_injective(),
    ensures
        forall|i: int, j: int|
            0 <= i < j < orders.len() ==> (#[trigger] orders[i]).connection != (
            #[trigger] orders[j]).connection,
{
    assert forall|i: int, j: int| 0 <= i < j < orders.len() implies (
    #[trigger] orders[i]).connection != (#[trigger] orders[j]).connection by {
        assert(orders[i].sends(table, orders[i].peer@, msg));
        assert(orders[j].sends(table, orders[j].peer@, msg));
        assert(orders[i].peer@ != orders[j].peer@);
    }
}

} // verus!
