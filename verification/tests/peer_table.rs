use orb::peers::{IpAddress, Peer, PeerAddress, PeerTable, ServiceRecord, PEER_TTL_NANOS};
use orb::state::State;

fn record(id: Option<&str>, name: Option<&str>, state: Option<&str>, ips: Vec<IpAddress>) -> ServiceRecord {
    ServiceRecord {
        id: id.map(|s| s.to_string()),
        name: name.map(|s| s.to_string()),
        state: state.map(|s| s.to_string()),
        addresses: ips,
        port: 34254,
    }
}

fn v4(a: u8) -> IpAddress {
    IpAddress::V4([192, 168, 1, a])
}

#[test]
fn announced_peer_is_recorded() {
    let mut t = PeerTable::new();
    t.handle_peer(&record(Some("p1"), Some("alice-host"), Some("RECEIVE"), vec![v4(5), v4(6)]), "me", 100);
    assert_eq!(t.len(), 1);
    let p = t.get("p1").unwrap();
    assert_eq!(p.id, "p1");
    assert_eq!(p.name, "alice-host");
    assert_eq!(p.state, State::Receive);
    assert_eq!(p.address, PeerAddress { ip: v4(5), port: 34254 });
    assert_eq!(p.last_seen, 100);
}

#[test]
fn own_announcement_is_ignored() {
    let mut t = PeerTable::new();
    t.handle_peer(&record(Some("me"), Some("x"), Some("SEND"), vec![v4(1)]), "me", 5);
    assert!(t.is_empty());
    assert!(t.get("me").is_none());
}

#[test]
fn announcement_without_id_or_address_is_ignored() {
    let mut t = PeerTable::new();
    t.handle_peer(&record(None, Some("x"), Some("SEND"), vec![v4(1)]), "me", 5);
    t.handle_peer(&record(Some("p"), Some("x"), Some("SEND"), vec![]), "me", 5);
    assert_eq!(t.len(), 0);
}

#[test]
fn missing_name_and_unknown_state() {
    let mut t = PeerTable::new();
    t.handle_peer(&record(Some("p"), None, Some("BUSY"), vec![IpAddress::V6([0xfe80, 0, 0, 0, 0, 0, 0, 1])]), "me", 0);
    let p = t.get("p").unwrap();
    assert_eq!(p.name, "unknown");
    assert_eq!(p.state, State::Idle);
    t.handle_peer(&record(Some("q"), Some("n"), None, vec![v4(2)]), "me", 0);
    assert_eq!(t.get("q").unwrap().state, State::Idle);
}

#[test]
fn reannouncement_replaces_entry() {
    let mut t = PeerTable::new();
    t.handle_peer(&record(Some("p"), Some("a"), Some("IDLE"), vec![v4(1)]), "me", 10);
    t.handle_peer(&record(Some("p"), Some("b"), Some("RECEIVE"), vec![v4(2)]), "me", 20);
    assert_eq!(t.len(), 1);
    let p = t.get("p").unwrap();
    assert_eq!(p.name, "b");
    assert_eq!(p.state, State::Receive);
    assert_eq!(p.last_seen, 20);
}

#[test]
fn stale_peers_expire_after_ttl() {
    let mut t = PeerTable::new();
    t.handle_peer(&record(Some("old"), Some("a"), None, vec![v4(1)]), "me", 0);
    t.handle_peer(&record(Some("mid"), Some("b"), None, vec![v4(2)]), "me", 1);
    t.handle_peer(&record(Some("new"), Some("c"), None, vec![v4(3)]), "me", PEER_TTL_NANOS);
    assert!(t.get("old").is_none());
    assert!(t.get("mid").is_some());
    assert!(t.get("new").is_some());
    assert_eq!(t.len(), 2);
}

#[test]
fn prune_keeps_fresh_and_future_entries() {
    let mut t = PeerTable::new();
    t.insert(Peer { id: "a".into(), name: "a".into(), state: State::Idle, address: PeerAddress { ip: v4(1), port: 1 }, last_seen: 1000 });
    t.insert(Peer { id: "b".into(), name: "b".into(), state: State::Idle, address: PeerAddress { ip: v4(2), port: 1 }, last_seen: 10 });
    t.prune(500);
    assert_eq!(t.len(), 2);
    t.prune(10 + PEER_TTL_NANOS - 1);
    assert_eq!(t.len(), 2);
    t.prune(10 + PEER_TTL_NANOS);
    assert_eq!(t.len(), 1);
    assert!(t.get("a").is_some());
    t.prune(u64::MAX);
    assert!(t.is_empty());
}

#[test]
fn receivers_in_table_order() {
    let mut t = PeerTable::new();
    t.handle_peer(&record(Some("r1"), Some("one"), Some("RECEIVE"), vec![v4(1)]), "me", 1);
    t.handle_peer(&record(Some("s"), Some("two"), Some("SEND"), vec![v4(2)]), "me", 2);
    t.handle_peer(&record(Some("r2"), Some("three"), Some("RECEIVE"), vec![v4(3)]), "me", 3);
    let r = t.receivers();
    let ids: Vec<&str> = r.iter().map(|p| p.id.as_str()).collect();
    assert_eq!(ids, vec!["r1", "r2"]);
}

#[test]
fn insert_and_get() {
    let mut t = PeerTable::new();
    assert!(t.get("x").is_none());
    let p = Peer { id: "x".into(), name: "n".into(), state: State::Send, address: PeerAddress { ip: v4(9), port: 7 }, last_seen: 3 };
    t.insert(p.clone());
    let got = t.get("x").unwrap();
    assert_eq!(got.name, "n");
    assert_eq!(got.address.port, 7);
}

#[test]
fn pruning_twice_changes_nothing_more() {
    let mut t = PeerTable::new();
    t.handle_peer(&record(Some("a"), None, None, vec![v4(1)]), "me", 0);
    t.handle_peer(&record(Some("b"), None, None, vec![v4(2)]), "me", 5_000_000_000);
    t.prune(7_000_000_000);
    assert_eq!(t.len(), 1);
    t.prune(7_000_000_000);
    assert_eq!(t.len(), 1);
    assert!(t.get("b").is_some());
}
