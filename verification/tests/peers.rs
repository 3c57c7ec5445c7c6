use mesh_todo::beacon::{fresh_beacon, make_beacon, peer_from_beacon, record_beacon, BeaconPacket, REPLICATION_PORT};
use mesh_todo::handlers::{add_peer_manual, get_peers_handler};
use mesh_todo::identity::NodeKey;
use mesh_todo::models::PeerReq;
use mesh_todo::state::PeerTable;

fn packet(fp: &str) -> BeaconPacket {
    BeaconPacket {
        user_hash: "anonymous".into(),
        pubkey_fingerprint: fp.into(),
        replication_port: 11204,
        nonce: "n".into(),
        nonce_sig: "s".into(),
    }
}

#[test]
fn beacon_carries_signed_nonce() {
    let k = NodeKey::from_secret_bytes(&[5u8; 32]).unwrap();
    let b = make_beacon(&k, &"fp".to_string(), "nonce-x".to_string());
    assert_eq!(b.user_hash, "anonymous");
    assert_eq!(b.pubkey_fingerprint, "fp");
    assert_eq!(b.replication_port, REPLICATION_PORT);
    assert_eq!(b.nonce, "nonce-x");
    assert_eq!(b.nonce_sig, hex::encode(k.sign(b"nonce-x")));
}

#[test]
fn beacons_keep_one_entry_per_fingerprint() {
    let mut t = PeerTable::new();
    record_beacon(&mut t, "10.0.0.1".into(), packet("A"), 1000);
    record_beacon(&mut t, "10.0.0.2".into(), packet("B"), 2000);
    record_beacon(&mut t, "10.0.0.9".into(), packet("A"), 3000);
    let all = get_peers_handler(&t);
    assert_eq!(all.len(), 2);
    let a = all.iter().find(|p| p.pubkey_fingerprint == "A").unwrap();
    assert_eq!(a.addr, "10.0.0.9");
    assert_eq!(a.last_seen, 3000);
}

#[test]
fn recent_peers_window() {
    let mut t = PeerTable::new();
    t.record(peer_from_beacon("a".into(), packet("A"), 0));
    t.record(peer_from_beacon("b".into(), packet("B"), 10_000));
    let recent = t.recent_peers(39_999);
    assert_eq!(recent.len(), 1);
    assert_eq!(recent[0].pubkey_fingerprint, "B");
    assert_eq!(t.recent_peers(29_999).len(), 2);
    assert_eq!(t.recent_peers(i64::MIN).len(), 2);
}

#[test]
fn manual_peer_url_loses_trailing_slashes() {
    assert_eq!(add_peer_manual(&PeerReq { url: "http://x:8080///".into() }), "http://x:8080");
    assert_eq!(add_peer_manual(&PeerReq { url: "x".into() }), "x");
    assert_eq!(add_peer_manual(&PeerReq { url: "//".into() }), "");
}

#[test]
fn fresh_beacons_sign_fresh_nonces() {
    let k = NodeKey::from_secret_bytes(&[6u8; 32]).unwrap();
    let a = fresh_beacon(&k, &"fp".to_string());
    let b = fresh_beacon(&k, &"fp".to_string());
    assert_eq!(a.nonce.len(), 36);
    assert_ne!(a.nonce, b.nonce);
    assert_eq!(a.nonce_sig, hex::encode(k.sign(a.nonce.as_bytes())));
    assert_eq!(a.user_hash, "anonymous");
}
