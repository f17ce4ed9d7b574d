use mesh_vpn::errors::Error;
use mesh_vpn::net::{ipv4, SocketAddress};
use mesh_vpn::router::{ConnectionPool, ConnectionTable, RouterEvent};
use std::sync::Arc;
use std::time::Instant;

fn socket() -> (tokio::runtime::Runtime, Arc<tokio::net::UdpSocket>) {
    let rt = tokio::runtime::Runtime::new().unwrap();
    let s = rt.block_on(tokio::net::UdpSocket::bind("127.0.0.1:0")).unwrap();
    (rt, Arc::new(s))
}

#[test]
fn table_counts_datagrams() {
    let mut t = ConnectionTable::new();
    let a = SocketAddress::new(ipv4(10, 0, 0, 1), 1000);
    let b = SocketAddress::new(ipv4(10, 0, 0, 2), 1000);
    assert_eq!(t.get_connection_count(), 0);
    let ev = t.on_datagram(a, b"one", Instant::now());
    assert_eq!(ev.len(), 2);
    assert!(matches!(ev[0], RouterEvent::PeerConnected(x) if x == a));
    assert!(matches!(&ev[1], RouterEvent::PacketReceived { from, data } if *from == a && data == b"one"));
    let ev = t.on_datagram(a, b"two", Instant::now());
    assert_eq!(ev.len(), 1);
    assert_eq!(t.counts(a), Some((0, 2)));
    t.on_send(a, Instant::now());
    t.on_send(b, Instant::now());
    assert_eq!(t.counts(a), Some((1, 2)));
    assert_eq!(t.counts(b), None);
    t.on_datagram(b, b"", Instant::now());
    assert_eq!(t.get_connection_count(), 2);
}

#[test]
fn pool_capacity_and_removal() {
    let (_rt, s) = socket();
    let ep = SocketAddress::new(ipv4(127, 0, 0, 1), 9);
    let mut pool = ConnectionPool::new(2);
    pool.add_connection("a".to_string(), s.clone(), ep).unwrap();
    pool.add_connection("b".to_string(), s.clone(), ep).unwrap();
    match pool.add_connection("c".to_string(), s.clone(), ep) {
        Err(Error::Network(m)) => assert_eq!(m, "Connection pool full"),
        other => panic!("unexpected {:?}", other),
    }
    let got = pool.get_connection("a").unwrap();
    assert_eq!(got.peer_id, "a");
    assert_eq!(got.endpoint, Some(ep));
    pool.remove_connection("a").unwrap();
    assert!(pool.get_connection("a").is_none());
    pool.add_connection("c".to_string(), s.clone(), ep).unwrap();
    assert!(pool.get_connection("c").is_some());
}

#[test]
fn pool_drops_stale_connections_when_full() {
    let (_rt, s) = socket();
    let ep = SocketAddress::new(ipv4(127, 0, 0, 1), 9);
    let mut pool = ConnectionPool::new(2);
    let now = Instant::now();
    pool.add_connection_with("a".to_string(), s.clone(), ep, now, &vec![]).unwrap();
    pool.add_connection_with("b".to_string(), s.clone(), ep, now, &vec![true]).unwrap();
    pool.add_connection_with("c".to_string(), s.clone(), ep, now, &vec![false, true]).unwrap();
    assert!(pool.get_connection("a").is_none());
    assert!(pool.get_connection("b").is_some());
    assert!(pool.get_connection("c").is_some());
    assert!(pool.add_connection_with("d".to_string(), s.clone(), ep, now, &vec![true, true]).is_err());
}

#[test]
fn table_over_a_sequence_of_datagrams() {
    let mut t = ConnectionTable::new();
    let a = SocketAddress::new(ipv4(10, 0, 0, 1), 1);
    let b = SocketAddress::new(ipv4(10, 0, 0, 2), 2);
    let mut connected = Vec::new();
    for from in [a, b, a, a, b] {
        for ev in t.on_datagram(from, b"x", Instant::now()) {
            if let RouterEvent::PeerConnected(x) = ev {
                connected.push(x);
            }
        }
    }
    assert_eq!(connected, vec![a, b]);
    assert_eq!(t.get_connection_count(), 2);
    assert_eq!(t.counts(a), Some((0, 3)));
    assert_eq!(t.counts(b), Some((0, 2)));
}
