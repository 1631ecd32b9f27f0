use libp2p::identity;
use libp2p::{Multiaddr, PeerId};
use pyde_node::node::dial_address;
use pyde_node::peer_book::{
    any_loopback, on_this_host, redial_saved_peers, PeerBook, PeerEntry, PendingNonces,
};

fn random_peer_addr() -> (PeerId, Multiaddr) {
    let kp = identity::Keypair::generate_ed25519();
    let peer_id = PeerId::from(kp.public());
    let addr: Multiaddr = "/ip4/127.0.0.1/tcp/30000".parse().unwrap();
    (peer_id, addr)
}

#[test]
fn roundtrip() {
    let mut book = PeerBook::new();
    let (p1, a1) = random_peer_addr();
    let (p2, a2) = random_peer_addr();
    assert!(book.record(&p1.to_string(), &a1.to_string()));
    assert!(book.record(&p2.to_string(), &a2.to_string()));
    let saved = book.iter();

    let loaded = PeerBook::from_entries(&saved);
    assert_eq!(loaded.len(), 2);
    assert_eq!(loaded.get(&p1.to_string()), Some(&a1.to_string()));
    assert_eq!(loaded.get(&p2.to_string()), Some(&a2.to_string()));
}

#[test]
fn record_is_idempotent_and_refreshes_address() {
    let mut book = PeerBook::new();
    let (p1, a1) = random_peer_addr();
    let a2: Multiaddr = "/ip4/127.0.0.1/tcp/40000".parse().unwrap();
    book.record(&p1.to_string(), &a1.to_string());
    book.record(&p1.to_string(), &a2.to_string());
    assert_eq!(book.len(), 1);
    assert_eq!(book.get(&p1.to_string()), Some(&a2.to_string()));
}

#[test]
fn malformed_entries_are_passed_over() {
    let (p, a) = random_peer_addr();
    let saved = vec![
        PeerEntry { peer_id: "not a peer".to_string(), multiaddr: a.to_string() },
        PeerEntry { peer_id: p.to_string(), multiaddr: "not-an-address".to_string() },
        PeerEntry { peer_id: p.to_string(), multiaddr: a.to_string() },
    ];
    let book = PeerBook::from_entries(&saved);
    assert_eq!(book.len(), 1);
    assert!(!book.is_empty());
    assert!(PeerBook::from_entries(&vec![]).is_empty());
}

#[test]
fn addresses_are_held_as_they_are_written() {
    let (p, _) = random_peer_addr();
    let mut book = PeerBook::new();
    // The old name of a protocol is written as the new one.
    let old = format!("/ip4/1.2.3.4/tcp/80/ipfs/{p}");
    assert!(book.record(&p.to_string(), &old));
    assert_eq!(
        book.get(&p.to_string()),
        Some(&format!("/ip4/1.2.3.4/tcp/80/p2p/{p}"))
    );
    assert!(!book.record("", "/ip4/1.2.3.4/tcp/80"));
}

#[test]
fn redial_leaves_out_itself_and_the_connected() {
    let entry = |id: &str| PeerEntry { peer_id: id.to_string(), multiaddr: "/memory/1".to_string() };
    let saved = vec![entry("a"), entry("b"), entry("c"), entry("d")];
    let ids: Vec<String> = redial_saved_peers(&saved, "b", &vec!["d".to_string()])
        .into_iter()
        .map(|e| e.peer_id)
        .collect();
    assert_eq!(ids, vec!["a".to_string(), "c".to_string()]);
}

#[test]
fn one_challenge_at_a_time() {
    let mut nonces = PendingNonces::new();
    assert!(nonces.begin("p", [1; 32]));
    assert!(!nonces.begin("p", [2; 32]));
    assert!(nonces.begin("q", [3; 32]));
    assert_eq!(nonces.take("p"), Some([1; 32]));
    assert_eq!(nonces.take("p"), None);
    assert!(nonces.begin("p", [4; 32]));
    assert_eq!(nonces.take("q"), Some([3; 32]));
}

#[test]
fn addresses_on_this_host() {
    assert!(on_this_host("/ip4/127.0.0.1/tcp/30000"));
    assert!(on_this_host("/dns4/a.example/tcp/1/ip4/127.9.9.9/tcp/2"));
    assert!(!on_this_host("/ip4/128.0.0.1/tcp/30000"));
    assert!(!on_this_host("/ip4/10.127.0.1/tcp/30000"));
    assert!(!on_this_host("/ip6/::1/tcp/30000"));
    assert!(!on_this_host("127.0.0.1"));
    assert!(any_loopback(&vec![None, Some([127, 0, 0, 1])]));
    assert!(!any_loopback(&vec![None, Some([0, 127, 0, 1])]));
}

#[test]
fn the_lower_peer_dials() {
    let (a, _) = random_peer_addr();
    let (b, _) = random_peer_addr();
    let (low, high) = if a < b { (a, b) } else { (b, a) };
    let (low, high) = (low.to_string(), high.to_string());
    let addresses = vec![
        "/ip4/10.0.0.7/tcp/30000".to_string(),
        "/ip4/127.0.0.1/tcp/30000".to_string(),
    ];
    assert_eq!(dial_address(false, &low, &high, &addresses), Some(1));
    assert_eq!(dial_address(false, &high, &low, &addresses), None);
    assert_eq!(dial_address(false, &low, &low, &addresses), None);
    assert_eq!(dial_address(true, &low, &high, &addresses), None);
    assert_eq!(dial_address(false, &low, &high, &vec![addresses[0].clone()]), Some(0));
    assert_eq!(dial_address(false, &low, &high, &vec![]), None);
    assert_eq!(dial_address(false, "nobody", &high, &addresses), None);
}
