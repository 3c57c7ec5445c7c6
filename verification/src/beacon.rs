//! UDP discovery beacons: what a node announces, and what a heard beacon
//! does to the peer table.

use vstd::prelude::*;
use vstd::utf8::encode_utf8;
use crate::codec::{hex_encode, hex_lower};
use crate::crypto::{ed25519_signature, new_uuid_v4, uuid_text};
use crate::identity::NodeKey;
use crate::state::{DiscoveredPeer, PeerRecord, PeerTable};
use crate::text::ascii_chars;

verus! {

/// The UDP port beacons are sent to and heard on.
pub const BEACON_PORT: u16 = 8765;

/// The TCP port of the authenticated replication server.
pub const REPLICATION_PORT: u16 = 11204;

/// Seconds between two beacons.
pub const BEACON_INTERVAL_SECS: u64 = 5;

/// What a node broadcasts to announce itself.
#[derive(Debug)]
pub struct BeaconPacket {
    pub user_hash: String,
    pub pubkey_fingerprint: String,
    pub replication_port: u16,
    pub nonce: String,
    pub nonce_sig: String,
}

/// The beacon a node sends: no user yet, its fingerprint, its replication
/// port, a fresh nonce and the hex signature of that nonce.
pub fn make_beacon(key: &NodeKey, node_id: &String, nonce: String) -> (res: BeaconPacket)
    ensures
        res.user_hash@ == "anonymous"@,
        res.pubkey_fingerprint@ == node_id@,
        res.replication_port == REPLICATION_PORT,
        res.nonce@ == nonce@,
        res.nonce_sig@ == ascii_chars(hex_lower(ed25519_signature(key.secret(), encode_utf8(nonce@)))),
{
    let sig = key.sign(nonce.as_str().as_bytes());
    BeaconPacket {
        user_hash: "anonymous".to_owned(),
        pubkey_fingerprint: node_id.clone(),
        replication_port: REPLICATION_PORT,
        nonce,
        nonce_sig: hex_encode(sig.as_slice()),
    }
}

/// The beacon a node sends next: as `make_beacon` describes it, under a
/// fresh random UUID as its nonce.
pub fn fresh_beacon(key: &NodeKey, node_id: &String) -> (res: BeaconPacket)
    ensures
        uuid_text(res.nonce@),
        res.user_hash@ == "anonymous"@,
        res.pubkey_fingerprint@ == node_id@,
        res.replication_port == REPLICATION_PORT,
        res.nonce_sig@ == ascii_chars(hex_lower(ed25519_signature(key.secret(), encode_utf8(res.nonce@)))),
{
    let nonce = new_uuid_v4();
    make_beacon(key, node_id, nonce)
}

/// The table entry for a beacon heard from an address at a time.
pub fn peer_from_beacon(addr: String, packet: BeaconPacket, now: i64) -> (res: DiscoveredPeer)
    ensures
        res@ == (PeerRecord {
            addr: addr@,
            user_hash: packet.user_hash@,
            pubkey_fingerprint: packet.pubkey_fingerprint@,
            replication_port: packet.replication_port,
            last_seen: now as int,
        }),
{
    DiscoveredPeer {
        addr,
        user_hash: packet.user_hash,
        pubkey_fingerprint: packet.pubkey_fingerprint,
        replication_port: packet.replication_port,
        last_seen: now,
    }
}

/// Records a heard beacon: the sender's entry is replaced by a fresh one.
pub fn record_beacon(peers: &mut PeerTable, addr: String, packet: BeaconPacket, now: i64)
    ensures
        final(peers)@ == old(peers)@.insert(
            packet.pubkey_fingerprint@,
            PeerRecord {
                addr: addr@,
                user_hash: packet.user_hash@,
                pubkey_fingerprint: packet.pubkey_fingerprint@,
                replication_port: packet.replication_port,
                last_seen: now as int,
            },
        ),
{
    let peer = peer_from_beacon(addr, packet, now);
    peers.record(peer);
}

} // verus!
