use moot::models::Timestamp;
use moot::peers::{
    find_peer, initial_peers, note_identify, note_routing_update, parse_multiaddr,
    peer_addresses, AddrPart, PeerInfo,
};

fn at(secs: i64) -> Timestamp {
    Timestamp { secs, nanos: 0 }
}

#[test]
fn routing_update_adds_unknown_peer_once() {
    let mut peers: Vec<PeerInfo> = Vec::new();
    note_routing_update(&mut peers, "p1", at(5));
    assert_eq!(peers.len(), 1);
    assert_eq!(peers[0].peer_id, "p1");
    assert!(peers[0].addresses.is_empty());
    assert_eq!(peers[0].last_seen, Some(at(5)));
    note_routing_update(&mut peers, "p1", at(9));
    assert_eq!(peers.len(), 1);
    assert_eq!(peers[0].last_seen, Some(at(5)));
}

#[test]
fn identify_sets_addresses() {
    let mut peers: Vec<PeerInfo> = Vec::new();
    note_routing_update(&mut peers, "p1", at(1));
    note_routing_update(&mut peers, "p2", at(2));
    note_identify(&mut peers, "p2", vec!["/ip4/1.2.3.4/tcp/4001".to_string()], at(3));
    assert_eq!(peers.len(), 2);
    assert_eq!(peers[1].peer_id, "p2");
    assert_eq!(peers[1].addresses, vec!["/ip4/1.2.3.4/tcp/4001".to_string()]);
    assert_eq!(peers[1].last_seen, Some(at(3)));
    assert_eq!(peers[0].last_seen, Some(at(1)));
    note_identify(&mut peers, "p3", vec!["/dns/x.org/tcp/1".to_string()], at(4));
    assert_eq!(peers.len(), 3);
    assert_eq!(find_peer(&peers, "p3"), Some(2));
    assert_eq!(find_peer(&peers, "nobody"), None);
}

#[test]
fn addresses_of_all_peers_in_order() {
    let peers = vec![
        PeerInfo { peer_id: "a".to_string(), addresses: vec!["x".to_string(), "y".to_string()], last_seen: None },
        PeerInfo { peer_id: "b".to_string(), addresses: vec![], last_seen: None },
        PeerInfo { peer_id: "c".to_string(), addresses: vec!["z".to_string()], last_seen: None },
    ];
    assert_eq!(peer_addresses(&peers), vec!["x".to_string(), "y".to_string(), "z".to_string()]);
}

#[test]
fn initial_peers_are_the_persisted_ones() {
    let persisted = vec!["/ip4/10.0.0.1/tcp/4001".to_string()];
    assert_eq!(initial_peers(persisted.clone()), persisted);
    assert!(initial_peers(vec![]).is_empty());
}

#[test]
fn multiaddr_host_and_port() {
    let parts = vec![AddrPart::Ip4("1.2.3.4".to_string()), AddrPart::Tcp(4001), AddrPart::Other];
    assert_eq!(parse_multiaddr(&parts), Some(("1.2.3.4".to_string(), 4001)));
    let dns = vec![AddrPart::Dns("node.example".to_string()), AddrPart::Tcp(80)];
    assert_eq!(parse_multiaddr(&dns), Some(("node.example".to_string(), 80)));
    let later = vec![
        AddrPart::Ip6("::1".to_string()),
        AddrPart::Tcp(1),
        AddrPart::Ip4("5.6.7.8".to_string()),
        AddrPart::Tcp(2),
    ];
    assert_eq!(parse_multiaddr(&later), Some(("5.6.7.8".to_string(), 2)));
}

#[test]
fn multiaddr_missing_part() {
    assert_eq!(parse_multiaddr(&vec![AddrPart::Ip4("1.2.3.4".to_string())]), None);
    assert_eq!(parse_multiaddr(&vec![AddrPart::Tcp(1)]), None);
    assert_eq!(parse_multiaddr(&vec![]), None);
}

#[test]
fn table_holds_each_peer_once() {
    let mut peers: Vec<PeerInfo> = Vec::new();
    note_routing_update(&mut peers, "a", at(1));
    note_identify(&mut peers, "b", vec!["/ip4/1.2.3.4/tcp/1".to_string()], at(2));
    note_identify(&mut peers, "a", vec!["/ip4/5.6.7.8/tcp/2".to_string()], at(3));
    note_routing_update(&mut peers, "b", at(4));
    note_identify(&mut peers, "b", vec![], at(5));
    let ids: Vec<&str> = peers.iter().map(|p| p.peer_id.as_str()).collect();
    assert_eq!(ids, vec!["a", "b"]);
}
