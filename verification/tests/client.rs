use kv_transport::client::{Client, Dialed, Write};
use kv_transport::error::{IllegalStateError, WriteError};
use kv_transport::node::State;
use kv_transport::protocol::connection::FrameReader;
use std::collections::HashSet;

fn server_addrs() -> Vec<String> {
    vec!["127.0.0.1:4001".to_string(), "127.0.0.1:4002".to_string(), "127.0.0.1:4003".to_string()]
}

/// The listeners of the peers, in memory: what each one's stream received.
struct Peers {
    wires: Vec<Vec<u8>>,
}

impl Peers {
    fn new(count: usize) -> Peers {
        Peers { wires: vec![Vec::new(); count] }
    }

    /// Dials every target: the peer at position `i` of `targets` gets the
    /// connection handle `i`.
    fn dial(&self, targets: &Vec<String>) -> Vec<Dialed> {
        targets
            .iter()
            .enumerate()
            .map(|(i, address)| Dialed {
                address: address.clone(),
                connection: if i < self.wires.len() { Some(i as u64) } else { None },
            })
            .collect()
    }

    fn carry_out(&mut self, orders: &Vec<Write>) {
        for order in orders.iter() {
            self.wires[order.connection as usize].extend(order.frame.iter());
        }
    }

    fn received(&self, connection: usize) -> Vec<Vec<u8>> {
        let mut reader = FrameReader::new();
        reader.receive(&self.wires[connection]);
        let mut frames = Vec::new();
        while let Some(frame) = reader.next_frame() {
            frames.push(frame);
        }
        assert_eq!(reader.finish(), None);
        frames
    }
}

fn connected_client(peers: &Peers) -> Client {
    let mut client = Client::new("127.0.0.1:4000".to_string(), server_addrs());
    let failed = client.run(peers.dial(&client.dial_targets()));
    assert!(failed.is_empty());
    client
}

#[test]
fn constructs_itself() {
    let client_addr = "127.0.0.1:4000".to_string();
    let server_addrs = server_addrs();
    let client = Client::new(client_addr.clone(), server_addrs.clone());

    assert_eq!(client.address, client_addr);
    assert_eq!(client.server_addresses, server_addrs.clone());
    assert!(client.connections.is_empty());
    assert_eq!(client.state, State::New);
}

#[test]
fn connects_to_servers() {
    let server_addrs = server_addrs();
    let peers = Peers::new(3);
    let mut client = Client::new("127.0.0.1:4000".to_string(), server_addrs.clone());

    let targets = client.dial_targets();
    assert_eq!(targets, server_addrs);
    let failed = client.run(peers.dial(&targets));

    assert!(failed.is_empty());
    assert_eq!(client.connections.len(), server_addrs.len());
    for (i, address) in server_addrs.iter().enumerate() {
        assert!(client.has_peer(address));
        assert_eq!(*client.connections.get(address).unwrap(), i as u64);
    }
}

#[test]
fn run_leaves_out_the_peers_that_were_not_reached() {
    let server_addrs = server_addrs();
    let peers = Peers::new(2);
    let mut client = Client::new("127.0.0.1:4000".to_string(), server_addrs.clone());

    let failed = client.run(peers.dial(&client.dial_targets()));

    assert_eq!(failed, vec![server_addrs[2].clone()]);
    assert_eq!(client.connections.len(), 2);
    assert!(client.has_peer(&server_addrs[0]));
    assert!(client.has_peer(&server_addrs[1]));
    assert!(!client.has_peer(&server_addrs[2]));
    assert_eq!(client.address, "127.0.0.1:4000");
    assert_eq!(client.server_addresses, server_addrs);
}

#[test]
fn run_keeps_one_connection_per_peer_key() {
    let mut client = Client::new("127.0.0.1:4000".to_string(), server_addrs());
    let failed = client.run(vec![
        Dialed { address: "127.0.0.1:4001".to_string(), connection: Some(10) },
        Dialed { address: "127.0.0.1:4001".to_string(), connection: Some(11) },
        Dialed { address: "127.0.0.1:4001".to_string(), connection: None },
    ]);
    assert_eq!(failed, vec!["127.0.0.1:4001".to_string()]);
    assert_eq!(client.connections.len(), 1);
    assert_eq!(*client.connections.get("127.0.0.1:4001").unwrap(), 11);
}

#[test]
fn writes_to_a_peer() {
    let server_addrs = server_addrs();
    let mut peers = Peers::new(3);
    let client = connected_client(&peers);
    assert_eq!(client.connections.len(), 3);

    let order = client.write_to(&server_addrs[0], &b"hello".to_vec()).unwrap();
    assert_eq!(
        order,
        Write { peer: server_addrs[0].clone(), connection: 0, frame: b"hello\n".to_vec() }
    );
    peers.carry_out(&vec![order]);

    assert_eq!(peers.wires[0], b"hello\n".to_vec());
    assert_eq!(peers.received(0), vec![b"hello".to_vec()]);
    assert!(peers.wires[1].is_empty());
    assert!(peers.wires[2].is_empty());
}

#[test]
fn write_to_an_unregistered_peer_is_an_error() {
    let peers = Peers::new(3);
    let client = connected_client(&peers);

    let order = client.write_to(&"unregistered-address".to_string(), &b"hello".to_vec());

    assert_eq!(
        order,
        Err(IllegalStateError::NoPeerAtAddress("unregistered-address".to_string()))
    );
    assert_eq!(order.unwrap_err().message(), "no peer at address unregistered-address");
    assert_eq!(client.connections.len(), 3);
}

#[test]
fn write_to_before_run_is_an_error() {
    let client = Client::new("127.0.0.1:4000".to_string(), server_addrs());
    let order = client.write_to(&"127.0.0.1:4001".to_string(), &b"hello".to_vec());
    assert_eq!(order, Err(IllegalStateError::NoPeerAtAddress("127.0.0.1:4001".to_string())));
}

#[test]
fn broadcasts_to_all_peers() {
    let server_addrs = server_addrs();
    let mut peers = Peers::new(3);
    let client = connected_client(&peers);

    let orders = client.broadcast(&b"hello".to_vec());
    assert_eq!(orders.len(), 3);
    peers.carry_out(&orders);

    assert_eq!(
        vec![peers.wires[0].clone(), peers.wires[1].clone(), peers.wires[2].clone()],
        vec![b"hello\n".to_vec(), b"hello\n".to_vec(), b"hello\n".to_vec()]
    );
    assert_eq!(
        orders.iter().map(|order| order.peer.clone()).collect::<HashSet<String>>(),
        server_addrs.into_iter().collect::<HashSet<String>>(),
    );
    for connection in 0..3 {
        assert_eq!(peers.received(connection), vec![b"hello".to_vec()]);
    }
}

#[test]
fn broadcast_without_peers_orders_nothing() {
    let client = Client::new("127.0.0.1:4000".to_string(), server_addrs());
    assert!(client.broadcast(&b"hello".to_vec()).is_empty());
}

#[test]
fn writes_to_many_peers() {
    let server_addrs = server_addrs();
    let mut peers = Peers::new(3);
    let client = connected_client(&peers);

    let recipient_addrs = server_addrs[0..2].to_vec();
    for address in recipient_addrs.iter() {
        assert!(client.has_peer(address));
    }
    let orders = client.write_many(&recipient_addrs, &b"hello".to_vec());
    assert_eq!(
        orders,
        vec![
            Write { peer: server_addrs[0].clone(), connection: 0, frame: b"hello\n".to_vec() },
            Write { peer: server_addrs[1].clone(), connection: 1, frame: b"hello\n".to_vec() },
        ]
    );
    peers.carry_out(&orders);

    assert_eq!(peers.wires[0], b"hello\n".to_vec());
    assert_eq!(peers.wires[1], b"hello\n".to_vec());
    assert!(peers.wires[2].is_empty());
    assert_eq!(peers.received(0), vec![b"hello".to_vec()]);
    assert_eq!(peers.received(1), vec![b"hello".to_vec()]);
    assert!(peers.received(2).is_empty());
}

#[test]
fn writes_to_one_peer_arrive_whole_and_in_order() {
    let server_addrs = server_addrs();
    let mut peers = Peers::new(3);
    let client = connected_client(&peers);

    let messages: Vec<Vec<u8>> = (0..5).map(|i| format!("message {}", i).into_bytes()).collect();
    for message in messages.iter() {
        let order = client.write_to(&server_addrs[1], message).unwrap();
        peers.carry_out(&vec![order]);
    }

    assert_eq!(peers.received(1), messages);
    assert!(peers.wires[0].is_empty());
}

#[test]
fn settle_keeps_the_result_of_a_task_that_ran() {
    assert_eq!(Client::settle(Ok(Ok(()))), Ok(()));
    assert_eq!(
        Client::settle(Ok(Err(WriteError::Transport("broken pipe".to_string())))),
        Err(WriteError::Transport("broken pipe".to_string()))
    );
}

#[test]
fn settle_turns_a_failed_task_into_an_error_of_its_peer() {
    assert_eq!(
        Client::settle(Err("task panicked".to_string())),
        Err(WriteError::Task("task panicked".to_string()))
    );
}
