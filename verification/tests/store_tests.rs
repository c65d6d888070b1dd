use peer_chat::discovery::{discovery_message, parse_discovery_message};
use peer_chat::persistence::Persist;

#[test]
fn add_and_get_peer() {
    let mut p = Persist::default();
    p.add_peer("alice".to_string(), "10.0.0.1:9000".to_string());
    p.add_peer("bob".to_string(), "10.0.0.2:9000".to_string());
    assert_eq!(p.get_peer(&"alice".to_string()).unwrap().addr, "10.0.0.1:9000");
    assert_eq!(p.get_peer(&"bob".to_string()).unwrap().addr, "10.0.0.2:9000");
    assert!(p.get_peer(&"carol".to_string()).is_none());
}

#[test]
fn add_peer_replaces_same_name() {
    let mut p = Persist::default();
    p.add_peer("alice".to_string(), "10.0.0.1:9000".to_string());
    p.add_peer("bob".to_string(), "10.0.0.2:9000".to_string());
    p.add_peer("alice".to_string(), "10.0.0.9:9999".to_string());
    assert_eq!(p.list_peers().len(), 2);
    assert_eq!(p.get_peer(&"alice".to_string()).unwrap().addr, "10.0.0.9:9999");
    // replaced entries move to the end of the list
    assert_eq!(p.list_peers()[0].name, "bob");
    assert_eq!(p.list_peers()[1].name, "alice");
}

#[test]
fn list_peers_keeps_order() {
    let mut p = Persist::default();
    p.add_peer("a".to_string(), "1".to_string());
    p.add_peer("b".to_string(), "2".to_string());
    p.add_peer("c".to_string(), "3".to_string());
    let names: Vec<String> = p.list_peers().iter().map(|q| q.name.clone()).collect();
    assert_eq!(names, vec!["a".to_string(), "b".to_string(), "c".to_string()]);
}

#[test]
fn discovery_round_trip() {
    let msg = discovery_message(8888);
    assert_eq!(msg, b"p2p-chat-discovery:8888".to_vec());
    assert_eq!(parse_discovery_message(&msg), Some(8888));
}

#[test]
fn discovery_rejects_garbage() {
    assert_eq!(parse_discovery_message(&b"hello".to_vec()), None);
    assert_eq!(parse_discovery_message(&b"p2p-chat-discovery:".to_vec()), None);
    assert_eq!(parse_discovery_message(&b"p2p-chat-discovery:12x4".to_vec()), None);
    assert_eq!(parse_discovery_message(&b"p2p-chat-discovery:99999".to_vec()), None);
}

#[test]
fn discovery_port_bounds() {
    let msg = discovery_message(65535);
    assert_eq!(msg, b"p2p-chat-discovery:65535".to_vec());
    assert_eq!(parse_discovery_message(&msg), Some(65535));
    assert_eq!(parse_discovery_message(&b"p2p-chat-discovery:65536".to_vec()), None);
}

#[test]
fn discovery_accepts_leading_zeros() {
    assert_eq!(parse_discovery_message(&b"p2p-chat-discovery:0080".to_vec()), Some(80));
    assert_eq!(parse_discovery_message(&b"p2p-chat-discovery:0".to_vec()), Some(0));
}
