//! The authenticated replication exchange, as two state machines (the
//! serving side and the pulling side), and where the mesh worker pulls from.

use vstd::prelude::*;
use vstd::utf8::encode_utf8;
use vstd::string::{StrSliceExecFns, StringExecFns, StringSliceAdditionalSpecFns};
use crate::codec::{hex_decode, hex_decoded, hex_encode, hex_lower, lemma_hex_lower_ascii, lemma_hex_round_trip};
use crate::crypto::{
    ed25519_accepts, ed25519_public_key, ed25519_signature, ed25519_verify, new_uuid_v4, sha256,
    sha256_digest, uuid_text,
};
use crate::identity::{law_url_decode_round_trip, url_encoded, urlencoding_encode, NodeKey};
use crate::models::{records, Todo};
use crate::state::{peer_records, DiscoveredPeer, PeerRecord};
use crate::text::{ascii_chars, ascii_string, decimal, decimal_bytes, lemma_ascii_chars_injective, lemma_ascii_utf8};

verus! {

/// The messages of the replication exchange.
#[derive(Debug)]
pub enum ReplicationMsg {
    Challenge { nonce: String, user_hash: String },
    ChallengeResponse { nonce: String, signature: String, verifying_key: String },
    SyncRequest { user_hash: String },
    SyncData { todos: Vec<Todo> },
    Error { message: String },
}

/// Lowercase hex of the signature of a nonce's UTF-8 bytes.
pub open spec fn signed_nonce_hex(secret: Seq<u8>, nonce: Seq<char>) -> Seq<char> {
    ascii_chars(hex_lower(ed25519_signature(secret, encode_utf8(nonce))))
}

/// Lowercase hex of a public key.
pub open spec fn public_key_hex(secret: Seq<u8>) -> Seq<char> {
    ascii_chars(hex_lower(ed25519_public_key(secret)))
}

/// The fingerprint of a public key: lowercase hex of its SHA-256 digest.
pub open spec fn key_fingerprint(public: Seq<u8>) -> Seq<char> {
    ascii_chars(hex_lower(sha256(public)))
}

/// Whether a challenge response proves that the peer known by a
/// fingerprint signed the nonce: both fields are hex, the key is 32 bytes
/// and has that fingerprint, the signature is 64 bytes, and it verifies.
pub open spec fn response_verifies(
    signature: Seq<char>,
    verifying_key: Seq<char>,
    nonce: Seq<char>,
    fingerprint: Seq<char>,
) -> bool {
    match (hex_decoded(encode_utf8(verifying_key)), hex_decoded(encode_utf8(signature))) {
        (Some(vk), Some(sig)) => vk.len() == 32 && key_fingerprint(vk) == fingerprint && sig.len() == 64
            && ed25519_accepts(vk, encode_utf8(nonce), sig),
        _ => false,
    }
}

/// Where the serving side of an exchange stands.
pub enum ServerPhase {
    AwaitChallenge,
    AwaitSyncRequest,
    AwaitUserRows,
    Finished,
}

/// What happens to the serving side: a message arrives (`None` when the
/// bytes are no message), the connection ends, or the requested user's
/// rows are looked up (`None` when the node holds no data for the user).
pub enum ServerEvent {
    Received(Option<ReplicationMsg>),
    Closed,
    UserRows(Option<Vec<Todo>>),
}

/// What the serving side does next.
pub enum ServerAction {
    Send(ReplicationMsg),
    SendAndClose(ReplicationMsg),
    LookUpUser(String),
    Close,
}

/// The phase the serving side moves to on an event: a challenge first, then
/// a sync request, then the lookup; anything else ends the exchange.
pub open spec fn server_next(phase: ServerPhase, event: ServerEvent) -> ServerPhase {
    match (phase, event) {
        (ServerPhase::AwaitChallenge, ServerEvent::Received(Some(ReplicationMsg::Challenge { .. }))) => ServerPhase::AwaitSyncRequest,
        (ServerPhase::AwaitSyncRequest, ServerEvent::Received(Some(ReplicationMsg::SyncRequest { .. }))) => ServerPhase::AwaitUserRows,
        _ => ServerPhase::Finished,
    }
}

/// The phase of the serving side before the event at index `k` of a
/// connection's events.
pub open spec fn server_phase_before(events: Seq<ServerEvent>, k: nat) -> ServerPhase
    decreases k,
{
    if k == 0 {
        ServerPhase::AwaitChallenge
    } else {
        server_next(server_phase_before(events, (k - 1) as nat), events[k - 1])
    }
}

/// One step of the serving side. It answers a challenge by signing the
/// nonce, and hands out a user's rows only after that, to a sync request.
pub fn server_step(phase: ServerPhase, event: ServerEvent, key: &NodeKey) -> (res: (ServerPhase, ServerAction))
    ensures
        res.0 == server_next(phase, event),
        res.1 matches ServerAction::SendAndClose(ReplicationMsg::SyncData { .. }) ==> phase is AwaitUserRows,
        match (phase, event) {
            (ServerPhase::AwaitChallenge, ServerEvent::Received(Some(ReplicationMsg::Challenge { nonce, .. }))) => {
                &&& res.0 is AwaitSyncRequest
                &&& res.1 matches ServerAction::Send(ReplicationMsg::ChallengeResponse { nonce: n, signature, verifying_key })
                &&& n@ == nonce@
                &&& signature@ == signed_nonce_hex(key.secret(), nonce@)
                &&& verifying_key@ == public_key_hex(key.secret())
            },
            (ServerPhase::AwaitChallenge, ServerEvent::Received(_)) => {
                &&& res.0 is Finished
                &&& res.1 matches ServerAction::SendAndClose(ReplicationMsg::Error { message })
                &&& message@ == "expected Challenge"@
            },
            (ServerPhase::AwaitSyncRequest, ServerEvent::Received(Some(ReplicationMsg::SyncRequest { user_hash }))) => {
                &&& res.0 is AwaitUserRows
                &&& res.1 matches ServerAction::LookUpUser(h)
                &&& h@ == user_hash@
            },
            (ServerPhase::AwaitUserRows, ServerEvent::UserRows(None)) => {
                &&& res.0 is Finished
                &&& res.1 matches ServerAction::SendAndClose(ReplicationMsg::Error { message })
                &&& message@ == "no data for that user_hash"@
            },
            (ServerPhase::AwaitUserRows, ServerEvent::UserRows(Some(todos))) => {
                &&& res.0 is Finished
                &&& res.1 matches ServerAction::SendAndClose(ReplicationMsg::SyncData { todos: t })
                &&& records(t@) == records(todos@)
            },
            _ => res.0 is Finished && res.1 is Close,
        },
{
    match (phase, event) {
        (ServerPhase::AwaitChallenge, ServerEvent::Received(Some(ReplicationMsg::Challenge { nonce, .. }))) => {
            let sig = key.sign(nonce.as_str().as_bytes());
            let vk = key.public_key();
            let response = ReplicationMsg::ChallengeResponse {
                nonce,
                signature: hex_encode(sig.as_slice()),
                verifying_key: hex_encode(vk.as_slice()),
            };
            (ServerPhase::AwaitSyncRequest, ServerAction::Send(response))
        },
        (ServerPhase::AwaitChallenge, ServerEvent::Received(_)) => {
            let err = ReplicationMsg::Error { message: "expected Challenge".to_owned() };
            (ServerPhase::Finished, ServerAction::SendAndClose(err))
        },
        (ServerPhase::AwaitSyncRequest, ServerEvent::Received(Some(ReplicationMsg::SyncRequest { user_hash }))) => {
            (ServerPhase::AwaitUserRows, ServerAction::LookUpUser(user_hash))
        },
        (ServerPhase::AwaitUserRows, ServerEvent::UserRows(None)) => {
            let err = ReplicationMsg::Error { message: "no data for that user_hash".to_owned() };
            (ServerPhase::Finished, ServerAction::SendAndClose(err))
        },
        (ServerPhase::AwaitUserRows, ServerEvent::UserRows(Some(todos))) => {
            (ServerPhase::Finished, ServerAction::SendAndClose(ReplicationMsg::SyncData { todos }))
        },
        _ => (ServerPhase::Finished, ServerAction::Close),
    }
}

/// Where the pulling side of an exchange stands.
pub enum ClientPhase {
    AwaitChallengeResponse,
    AwaitSyncData,
    Finished,
}

/// A pull from one peer for one user: the nonce the peer must sign, and
/// the fingerprint of the key it must sign with (the one its beacons
/// announce).
pub struct PullSession {
    pub phase: ClientPhase,
    pub nonce: String,
    pub user_hash: String,
    pub peer_fingerprint: String,
}

/// What happens to the pulling side: a message arrives (`None` when the
/// bytes are no message), or the connection ends.
pub enum ClientEvent {
    Received(Option<ReplicationMsg>),
    Closed,
}

/// What the pulling side does next: send, merge the rows received, drop a
/// peer whose signature fails, or stop.
pub enum ClientAction {
    Send(ReplicationMsg),
    Merge(Vec<Todo>),
    RejectPeer,
    Close,
}

/// Starts a pull from the peer known by a fingerprint: the session and the
/// challenge to send.
pub fn start_pull(nonce: String, user_hash: String, peer_fingerprint: String) -> (res: (PullSession, ReplicationMsg))
    ensures
        res.0.phase is AwaitChallengeResponse,
        res.0.nonce@ == nonce@,
        res.0.user_hash@ == user_hash@,
        res.0.peer_fingerprint@ == peer_fingerprint@,
        res.1 matches ReplicationMsg::Challenge { nonce: n, user_hash: u } && n@ == nonce@ && u@ == user_hash@,
{
    let msg = ReplicationMsg::Challenge { nonce: nonce.clone(), user_hash: user_hash.clone() };
    (PullSession { phase: ClientPhase::AwaitChallengeResponse, nonce, user_hash, peer_fingerprint }, msg)
}

/// Starts a pull from the peer known by a fingerprint, under a fresh random
/// UUID as its nonce.
pub fn open_pull(user_hash: String, peer_fingerprint: String) -> (res: (PullSession, ReplicationMsg))
    ensures
        uuid_text(res.0.nonce@),
        res.0.phase is AwaitChallengeResponse,
        res.0.user_hash@ == user_hash@,
        res.0.peer_fingerprint@ == peer_fingerprint@,
        res.1 matches ReplicationMsg::Challenge { nonce: n, user_hash: u } && n@ == res.0.nonce@
            && u@ == user_hash@,
{
    let nonce = new_uuid_v4();
    start_pull(nonce, user_hash, peer_fingerprint)
}

proof fn lemma_honest_response(secret: Seq<u8>, nonce: Seq<char>)
    ensures
        hex_decoded(encode_utf8(signed_nonce_hex(secret, nonce))) == Some(ed25519_signature(secret, encode_utf8(nonce))),
        hex_decoded(encode_utf8(public_key_hex(secret))) == Some(ed25519_public_key(secret)),
{
    let s = hex_lower(ed25519_signature(secret, encode_utf8(nonce)));
    let k = hex_lower(ed25519_public_key(secret));
    lemma_hex_lower_ascii(ed25519_signature(secret, encode_utf8(nonce)));
    lemma_hex_lower_ascii(ed25519_public_key(secret));
    lemma_ascii_utf8(s);
    lemma_ascii_utf8(k);
    lemma_hex_round_trip(ed25519_signature(secret, encode_utf8(nonce)));
    lemma_hex_round_trip(ed25519_public_key(secret));
}

/// The phase the pulling side moves to on an event: a challenge response
/// that proves the known peer signed the nonce lets it ask for rows;
/// anything else ends the exchange.
pub open spec fn client_next(phase: ClientPhase, nonce: Seq<char>, fingerprint: Seq<char>, event: ClientEvent) -> ClientPhase {
    match (phase, event) {
        (ClientPhase::AwaitChallengeResponse, ClientEvent::Received(Some(ReplicationMsg::ChallengeResponse { signature, verifying_key, .. }))) =>
            if response_verifies(signature@, verifying_key@, nonce, fingerprint) {
                ClientPhase::AwaitSyncData
            } else {
                ClientPhase::Finished
            },
        _ => ClientPhase::Finished,
    }
}

/// The phase of a pull under a nonce, from the peer known by a
/// fingerprint, before the event at index `k`.
pub open spec fn client_phase_before(nonce: Seq<char>, fingerprint: Seq<char>, events: Seq<ClientEvent>, k: nat) -> ClientPhase
    decreases k,
{
    if k == 0 {
        ClientPhase::AwaitChallengeResponse
    } else {
        client_next(client_phase_before(nonce, fingerprint, events, (k - 1) as nat), nonce, fingerprint, events[k - 1])
    }
}

/// One step of the pulling side. It asks for rows only after the peer has
/// signed this session's nonce with the key whose fingerprint the session
/// expects, and merges only rows that follow; a peer answering with the
/// signature of that key always gets past the check.
pub fn client_step(session: &mut PullSession, event: ClientEvent) -> (action: ClientAction)
    ensures
        final(session).nonce == old(session).nonce,
        final(session).user_hash == old(session).user_hash,
        final(session).peer_fingerprint == old(session).peer_fingerprint,
        final(session).phase == client_next(
            old(session).phase,
            old(session).nonce@,
            old(session).peer_fingerprint@,
            event,
        ),
        action is Merge ==> old(session).phase is AwaitSyncData,
        match (old(session).phase, event) {
            (ClientPhase::AwaitChallengeResponse, ClientEvent::Received(Some(ReplicationMsg::ChallengeResponse { signature, verifying_key, .. }))) =>
                if response_verifies(signature@, verifying_key@, old(session).nonce@, old(session).peer_fingerprint@) {
                    &&& final(session).phase is AwaitSyncData
                    &&& action matches ClientAction::Send(ReplicationMsg::SyncRequest { user_hash })
                    &&& user_hash@ == old(session).user_hash@
                } else {
                    &&& final(session).phase is Finished
                    &&& (action is RejectPeer || action is Close)
                },
            (ClientPhase::AwaitSyncData, ClientEvent::Received(Some(ReplicationMsg::SyncData { todos }))) => {
                &&& final(session).phase is Finished
                &&& action matches ClientAction::Merge(t)
                &&& records(t@) == records(todos@)
            },
            _ => final(session).phase is Finished && action is Close,
        },
        forall|secret: Seq<u8>|
            #![trigger signed_nonce_hex(secret, old(session).nonce@)]
            (event matches ClientEvent::Received(Some(ReplicationMsg::ChallengeResponse { signature, verifying_key, .. }))
                && old(session).phase is AwaitChallengeResponse && secret.len() == 32
                && old(session).peer_fingerprint@ == key_fingerprint(ed25519_public_key(secret))
                && signature@ == signed_nonce_hex(secret, old(session).nonce@)
                && verifying_key@ == public_key_hex(secret))
                ==> (action matches ClientAction::Send(ReplicationMsg::SyncRequest { .. })),
{
    let mut phase = ClientPhase::Finished;
    std::mem::swap(&mut phase, &mut session.phase);
    match (phase, event) {
        (ClientPhase::AwaitChallengeResponse, ClientEvent::Received(Some(ReplicationMsg::ChallengeResponse { signature, verifying_key, .. }))) => {
            let vk = match hex_decode(verifying_key.as_str().as_bytes()) {
                Some(v) => v,
                None => {
                    proof {
                        assert forall|secret: Seq<u8>|
                            secret.len() == 32 && signature@ == #[trigger] signed_nonce_hex(secret, session.nonce@)
                                && verifying_key@ == public_key_hex(secret) implies false by {
                            lemma_honest_response(secret, session.nonce@);
                        }
                    }
                    return ClientAction::Close;
                },
            };
            let sig = match hex_decode(signature.as_str().as_bytes()) {
                Some(s) => s,
                None => {
                    proof {
                        assert forall|secret: Seq<u8>|
                            secret.len() == 32 && signature@ == #[trigger] signed_nonce_hex(secret, session.nonce@)
                                && verifying_key@ == public_key_hex(secret) implies false by {
                            lemma_honest_response(secret, session.nonce@);
                        }
                    }
                    return ClientAction::Close;
                },
            };
            let digest = sha256_digest(vk.as_slice());
            let fingerprint = hex_encode(digest.as_slice());
            if fingerprint != session.peer_fingerprint {
                proof {
                    assert forall|secret: Seq<u8>|
                        secret.len() == 32 && session.peer_fingerprint@ == key_fingerprint(ed25519_public_key(secret))
                            && signature@ == #[trigger] signed_nonce_hex(secret, session.nonce@)
                            && verifying_key@ == public_key_hex(secret) implies false by {
                        lemma_honest_response(secret, session.nonce@);
                        assert(vk@ == ed25519_public_key(secret));
                    }
                }
                return ClientAction::RejectPeer;
            }
            if !ed25519_verify(vk.as_slice(), session.nonce.as_str().as_bytes(), sig.as_slice()) {
                proof {
                    assert forall|secret: Seq<u8>|
                        secret.len() == 32 && signature@ == #[trigger] signed_nonce_hex(secret, session.nonce@)
                            && verifying_key@ == public_key_hex(secret) implies false by {
                        lemma_honest_response(secret, session.nonce@);
                        assert(vk@ == ed25519_public_key(secret));
                        assert(sig@ == ed25519_signature(secret, encode_utf8(session.nonce@)));
                    }
                }
                return ClientAction::RejectPeer;
            }
            session.phase = ClientPhase::AwaitSyncData;
            ClientAction::Send(ReplicationMsg::SyncRequest { user_hash: session.user_hash.clone() })
        },
        (ClientPhase::AwaitSyncData, ClientEvent::Received(Some(ReplicationMsg::SyncData { todos }))) => {
            ClientAction::Merge(todos)
        },
        _ => ClientAction::Close,
    }
}

/// The address of a peer's replication server: `addr:port`.
pub fn peer_socket_addr(addr: &String, port: u16) -> (res: String)
    ensures
        res@ == addr@ + ":"@ + ascii_chars(decimal(port as int)),
{
    let digits = decimal_bytes(port as i64);
    proof {
        crate::identity::lemma_decimal_ascii(port as int);
    }
    let text = ascii_string(digits);
    let mut out = addr.clone();
    out.append(":");
    out.append(text.as_str());
    out
}

/// Whether text starts with `http`.
pub open spec fn starts_with_http(s: Seq<char>) -> bool {
    s.len() >= 4 && s.take(4) == "http"@
}

/// Where the mesh worker fetches one user's rows from a manual peer: the
/// peer's URL, with `http://` in front unless it starts with `http`, then
/// `/api/replication?user_hash=` and the user hash, URL encoded.
pub open spec fn replication_url_of(raw: Seq<char>, user_hash: Seq<char>) -> Seq<char> {
    (if starts_with_http(raw) { raw } else { "http://"@ + raw }) + "/api/replication?user_hash="@
        + ascii_chars(url_encoded(encode_utf8(user_hash)))
}

/// The URL one user's rows are fetched from at a manual peer, as
/// `replication_url_of` states it.
pub fn replication_url(raw: &str, user_hash: &str) -> (res: String)
    ensures
        res@ == replication_url_of(raw@, user_hash@),
{
    proof {
        reveal_strlit("http");
    }
    let n = raw.unicode_len();
    let http = n >= 4 && raw.get_char(0) == 'h' && raw.get_char(1) == 't' && raw.get_char(2) == 't'
        && raw.get_char(3) == 'p';
    proof {
        let h = "http"@;
        assert(h.len() == 4 && h[0] == 'h' && h[1] == 't' && h[2] == 't' && h[3] == 'p');
        if http {
            assert(raw@.take(4) =~= h);
        } else if n >= 4 && raw@.take(4) == h {
            assert(raw@.take(4)[0] == raw@[0]);
            assert(raw@.take(4)[1] == raw@[1]);
            assert(raw@.take(4)[2] == raw@[2]);
            assert(raw@.take(4)[3] == raw@[3]);
        }
    }
    let mut url = if http {
        raw.to_owned()
    } else {
        let mut u = "http://".to_owned();
        u.append(raw);
        u
    };
    url.append("/api/replication?user_hash=");
    let encoded = urlencoding_encode(user_hash);
    url.append(encoded.as_str());
    url
}

/// One pull of a mesh round.
pub enum MeshPull {
    /// A user's rows from a peer heard by beacon, over the authenticated
    /// exchange.
    Peer { user_hash: String, peer: DiscoveredPeer },
    /// A user's rows from a manually added peer, fetched from this URL,
    /// which names the user.
    Manual { user_hash: String, url: String },
}

/// The mathematical value of a pull.
pub enum MeshPullView {
    Peer(Seq<char>, PeerRecord),
    Manual(Seq<char>, Seq<char>),
}

impl View for MeshPull {
    type V = MeshPullView;

    open spec fn view(&self) -> MeshPullView {
        match self {
            MeshPull::Peer { user_hash, peer } => MeshPullView::Peer(user_hash@, peer@),
            MeshPull::Manual { user_hash, url } => MeshPullView::Manual(user_hash@, url@),
        }
    }
}

/// The views of a list of pulls.
pub open spec fn pull_views(v: Seq<MeshPull>) -> Seq<MeshPullView> {
    v.map_values(|p: MeshPull| p@)
}

/// The views of a list of strings.
pub open spec fn string_views(v: Seq<String>) -> Seq<Seq<char>> {
    v.map_values(|s: String| s@)
}

/// A user's pulls in a round: from each peer heard by beacon in turn, then
/// from each manual peer in turn.
pub open spec fn user_pulls(user: Seq<char>, peers: Seq<PeerRecord>, manual: Seq<Seq<char>>) -> Seq<MeshPullView> {
    peers.map_values(|p: PeerRecord| MeshPullView::Peer(user, p)) + manual.map_values(
        |m: Seq<char>| MeshPullView::Manual(user, replication_url_of(m, user)),
    )
}

/// The pulls of a round: each local user's pulls, user after user.
pub open spec fn mesh_plan(users: Seq<Seq<char>>, peers: Seq<PeerRecord>, manual: Seq<Seq<char>>) -> Seq<MeshPullView>
    decreases users.len(),
{
    if users.len() == 0 {
        seq![]
    } else {
        mesh_plan(users.drop_last(), peers, manual) + user_pulls(users.last(), peers, manual)
    }
}

/// The pulls of one round of the mesh worker, in order: for each local user,
/// one from each recently heard peer, then one from each manual peer.
pub fn mesh_round(user_hashes: &Vec<String>, peers: &Vec<DiscoveredPeer>, manual: &Vec<String>) -> (res: Vec<MeshPull>)
    ensures
        pull_views(res@) == mesh_plan(string_views(user_hashes@), peer_records(peers@), string_views(manual@)),
        res@.len() == user_hashes@.len() * (peers@.len() + manual@.len()),
        forall|i: int, p: int|
            0 <= i < user_hashes@.len() && 0 <= p < peers@.len() ==> pull_views(res@).contains(
                MeshPullView::Peer(#[trigger] user_hashes@[i]@, #[trigger] peers@[p]@),
            ),
        forall|i: int, k: int|
            0 <= i < user_hashes@.len() && 0 <= k < manual@.len() ==> pull_views(res@).contains(
                MeshPullView::Manual(
                    #[trigger] user_hashes@[i]@,
                    replication_url_of(#[trigger] manual@[k]@, user_hashes@[i]@),
                ),
            ),
{
    let ghost us = string_views(user_hashes@);
    let ghost ps = peer_records(peers@);
    let ghost ms = string_views(manual@);
    let mut out: Vec<MeshPull> = Vec::new();
    let mut i: usize = 0;
    assert(us.take(0) =~= Seq::<Seq<char>>::empty());
    while i < user_hashes.len()
        invariant
            i <= user_hashes@.len(),
            us == string_views(user_hashes@),
            ps == peer_records(peers@),
            ms == string_views(manual@),
            pull_views(out@) == mesh_plan(us.take(i as int), ps, ms),
        decreases user_hashes@.len() - i,
    {
        let ghost before = pull_views(out@);
        let ghost u = us[i as int];
        let mut j: usize = 0;
        assert(before =~= before + ps.take(0).map_values(|p: PeerRecord| MeshPullView::Peer(u, p)));
        while j < peers.len()
            invariant
                i < user_hashes@.len(),
                j <= peers@.len(),
                us == string_views(user_hashes@),
                ps == peer_records(peers@),
                u == us[i as int],
                pull_views(out@) == before + ps.take(j as int).map_values(|p: PeerRecord| MeshPullView::Peer(u, p)),
            decreases peers@.len() - j,
        {
            let ghost prev = pull_views(out@);
            let pull = MeshPull::Peer { user_hash: user_hashes[i].clone(), peer: peers[j].duplicate() };
            assert(pull@ == MeshPullView::Peer(u, ps[j as int]));
            out.push(pull);
            assert(pull_views(out@) =~= prev.push(MeshPullView::Peer(u, ps[j as int])));
            assert(ps.take(j + 1).map_values(|p: PeerRecord| MeshPullView::Peer(u, p)) =~= ps.take(
                j as int,
            ).map_values(|p: PeerRecord| MeshPullView::Peer(u, p)).push(MeshPullView::Peer(u, ps[j as int])));
            j = j + 1;
        }
        assert(ps.take(ps.len() as int) =~= ps);
        let ghost mid = pull_views(out@);
        let mut k: usize = 0;
        assert(mid =~= mid + ms.take(0).map_values(|m: Seq<char>| MeshPullView::Manual(u, replication_url_of(m, u))));
        while k < manual.len()
            invariant
                i < user_hashes@.len(),
                k <= manual@.len(),
                us == string_views(user_hashes@),
                ms == string_views(manual@),
                u == us[i as int],
                pull_views(out@) == mid + ms.take(k as int).map_values(
                    |m: Seq<char>| MeshPullView::Manual(u, replication_url_of(m, u)),
                ),
            decreases manual@.len() - k,
        {
            let ghost prev = pull_views(out@);
            let pull = MeshPull::Manual { user_hash: user_hashes[i].clone(), url: replication_url(manual[k].as_str(), user_hashes[i].as_str()) };
            assert(pull@ == MeshPullView::Manual(u, replication_url_of(ms[k as int], u)));
            out.push(pull);
            assert(pull_views(out@) =~= prev.push(MeshPullView::Manual(u, replication_url_of(ms[k as int], u))));
            assert(ms.take(k + 1).map_values(|m: Seq<char>| MeshPullView::Manual(u, replication_url_of(m, u))) =~= ms.take(
                k as int,
            ).map_values(|m: Seq<char>| MeshPullView::Manual(u, replication_url_of(m, u))).push(
                MeshPullView::Manual(u, replication_url_of(ms[k as int], u)),
            ));
            k = k + 1;
        }
        assert(ms.take(ms.len() as int) =~= ms);
        assert(us.take(i + 1).drop_last() =~= us.take(i as int));
        assert(us.take(i + 1).last() == u);
        assert(pull_views(out@) =~= mesh_plan(us.take(i + 1), ps, ms));
        i = i + 1;
    }
    assert(us.take(us.len() as int) =~= us);
    proof {
        law_mesh_plan_complete(us, ps, ms);
        assert forall|i: int, p: int|
            0 <= i < user_hashes@.len() && 0 <= p < peers@.len() implies pull_views(out@).contains(
                MeshPullView::Peer(#[trigger] user_hashes@[i]@, #[trigger] peers@[p]@),
            ) by {
            assert(us[i] == user_hashes@[i]@);
            assert(ps[p] == peers@[p]@);
        }
        assert forall|i: int, k: int|
            0 <= i < user_hashes@.len() && 0 <= k < manual@.len() implies pull_views(out@).contains(
                MeshPullView::Manual(
                    #[trigger] user_hashes@[i]@,
                    replication_url_of(#[trigger] manual@[k]@, user_hashes@[i]@),
                ),
            ) by {
            assert(us[i] == user_hashes@[i]@);
            assert(ms[k] == manual@[k]@);
        }
    }
    out
}

/// Two users' pulls from one manual peer are two different requests: the
/// URL names the user whose rows it asks for.
pub proof fn law_manual_urls_name_their_user(raw: Seq<char>, u1: Seq<char>, u2: Seq<char>)
    requires
        u1 != u2,
    ensures
        replication_url_of(raw, u1) != replication_url_of(raw, u2),
{
    let base = (if starts_with_http(raw) { raw } else { "http://"@ + raw }) + "/api/replication?user_hash="@;
    let e1 = url_encoded(encode_utf8(u1));
    let e2 = url_encoded(encode_utf8(u2));
    if replication_url_of(raw, u1) == replication_url_of(raw, u2) {
        assert(replication_url_of(raw, u1).skip(base.len() as int) =~= ascii_chars(e1));
        assert(replication_url_of(raw, u2).skip(base.len() as int) =~= ascii_chars(e2));
        lemma_ascii_chars_injective(e1, e2);
        law_url_decode_round_trip(encode_utf8(u1));
        law_url_decode_round_trip(encode_utf8(u2));
        vstd::utf8::encode_utf8_decode_utf8(u1);
        vstd::utf8::encode_utf8_decode_utf8(u2);
    }
}

proof fn lemma_mesh_plan_len(users: Seq<Seq<char>>, peers: Seq<PeerRecord>, manual: Seq<Seq<char>>)
    ensures
        mesh_plan(users, peers, manual).len() == users.len() * (peers.len() + manual.len()),
    decreases users.len(),
{
    if users.len() > 0 {
        let init = users.drop_last();
        lemma_mesh_plan_len(init, peers, manual);
        let w = peers.len() + manual.len();
        let rest = mesh_plan(init, peers, manual);
        assert(user_pulls(users.last(), peers, manual).len() == w);
        assert(rest.len() + w == users.len() * w) by (nonlinear_arith)
            requires
                rest.len() == init.len() * w,
                init.len() + 1 == users.len(),
        ;
    }
}

proof fn lemma_mesh_plan_pulls(
    users: Seq<Seq<char>>,
    peers: Seq<PeerRecord>,
    manual: Seq<Seq<char>>,
    i: int,
    x: int,
) -> (j: int)
    requires
        0 <= i < users.len(),
        0 <= x < peers.len() + manual.len(),
    ensures
        0 <= j < mesh_plan(users, peers, manual).len(),
        x < peers.len() ==> mesh_plan(users, peers, manual)[j] == MeshPullView::Peer(users[i], peers[x]),
        x >= peers.len() ==> mesh_plan(users, peers, manual)[j] == MeshPullView::Manual(
            users[i],
            replication_url_of(manual[x - peers.len()], users[i]),
        ),
    decreases users.len(),
{
    let init = users.drop_last();
    let plan = mesh_plan(users, peers, manual);
    let rest = mesh_plan(init, peers, manual);
    let up = user_pulls(users.last(), peers, manual);
    assert(plan == rest + up);
    if i < users.len() - 1 {
        let j = lemma_mesh_plan_pulls(init, peers, manual, i, x);
        assert(init[i] == users[i]);
        assert(plan[j] == rest[j]);
        j
    } else {
        let j = rest.len() + x;
        assert(plan[j] == up[x]);
        j
    }
}

/// A round holds one pull per local user and recently heard peer and one
/// per local user and manual peer: for every user, a pull from every heard
/// peer, and a pull from every manual peer at the URL that names the user.
pub proof fn law_mesh_plan_complete(users: Seq<Seq<char>>, peers: Seq<PeerRecord>, manual: Seq<Seq<char>>)
    ensures
        mesh_plan(users, peers, manual).len() == users.len() * (peers.len() + manual.len()),
        forall|i: int, p: int|
            0 <= i < users.len() && 0 <= p < peers.len() ==> #[trigger] mesh_plan(users, peers, manual).contains(
                MeshPullView::Peer(#[trigger] users[i], #[trigger] peers[p]),
            ),
        forall|i: int, k: int|
            0 <= i < users.len() && 0 <= k < manual.len() ==> mesh_plan(users, peers, manual).contains(
                MeshPullView::Manual(#[trigger] users[i], replication_url_of(#[trigger] manual[k], users[i])),
            ),
{
    lemma_mesh_plan_len(users, peers, manual);
    let plan = mesh_plan(users, peers, manual);
    assert forall|i: int, p: int|
        0 <= i < users.len() && 0 <= p < peers.len() implies #[trigger] plan.contains(
            MeshPullView::Peer(#[trigger] users[i], #[trigger] peers[p]),
        ) by {
        let j = lemma_mesh_plan_pulls(users, peers, manual, i, p);
        assert(plan[j] == MeshPullView::Peer(users[i], peers[p]));
    }
    assert forall|i: int, k: int|
        0 <= i < users.len() && 0 <= k < manual.len() implies plan.contains(
            MeshPullView::Manual(#[trigger] users[i], replication_url_of(#[trigger] manual[k], users[i])),
        ) by {
        let j = lemma_mesh_plan_pulls(users, peers, manual, i, peers.len() + k);
        assert(plan[j] == MeshPullView::Manual(users[i], replication_url_of(manual[k], users[i])));
    }
}

/// Every manual pull of a round asks one manual peer for the rows of the
/// user it is for.
pub proof fn law_manual_pulls_ask_for_their_user(
    users: Seq<Seq<char>>,
    peers: Seq<PeerRecord>,
    manual: Seq<Seq<char>>,
    i: int,
)
    requires
        0 <= i < mesh_plan(users, peers, manual).len(),
        mesh_plan(users, peers, manual)[i] is Manual,
    ensures
        exists|k: int|
            0 <= k < manual.len() && #[trigger] replication_url_of(manual[k], mesh_plan(users, peers, manual)[i]->Manual_0)
                == mesh_plan(users, peers, manual)[i]->Manual_1,
    decreases users.len(),
{
    let plan = mesh_plan(users, peers, manual);
    if users.len() > 0 {
        let rest = mesh_plan(users.drop_last(), peers, manual);
        let up = user_pulls(users.last(), peers, manual);
        assert(plan == rest + up);
        if i < rest.len() {
            assert(plan[i] == rest[i]);
            law_manual_pulls_ask_for_their_user(users.drop_last(), peers, manual, i);
            let k = choose|k: int|
                0 <= k < manual.len() && #[trigger] replication_url_of(manual[k], rest[i]->Manual_0)
                    == rest[i]->Manual_1;
            assert(replication_url_of(manual[k], plan[i]->Manual_0) == plan[i]->Manual_1);
        } else {
            let j = i - rest.len();
            assert(plan[i] == up[j]);
            if j < peers.len() {
                assert(up[j] == MeshPullView::Peer(users.last(), peers[j]));
            } else {
                let k = j - peers.len();
                assert(up[j] == MeshPullView::Manual(users.last(), replication_url_of(manual[k], users.last())));
                assert(replication_url_of(manual[k], plan[i]->Manual_0) == plan[i]->Manual_1);
            }
        }
    }
}

/// The serving side reaches the step that hands out rows only as the third
/// step of a connection, after a challenge (which it answers by signing the
/// nonce) and then a sync request.
pub proof fn law_server_rows_only_after_challenge(events: Seq<ServerEvent>, k: nat)
    requires
        k <= events.len(),
        server_phase_before(events, k) is AwaitUserRows,
    ensures
        k == 2,
        events[0] matches ServerEvent::Received(Some(ReplicationMsg::Challenge { .. })),
        events[1] matches ServerEvent::Received(Some(ReplicationMsg::SyncRequest { .. })),
{
    lemma_server_phase_before(events, k);
}

proof fn lemma_server_phase_before(events: Seq<ServerEvent>, k: nat)
    requires
        k <= events.len(),
    ensures
        server_phase_before(events, k) is AwaitChallenge ==> k == 0,
        server_phase_before(events, k) is AwaitSyncRequest ==> (k == 1
            && (events[0] matches ServerEvent::Received(Some(ReplicationMsg::Challenge { .. })))),
        server_phase_before(events, k) is AwaitUserRows ==> (k == 2
            && (events[0] matches ServerEvent::Received(Some(ReplicationMsg::Challenge { .. })))
            && (events[1] matches ServerEvent::Received(Some(ReplicationMsg::SyncRequest { .. })))),
    decreases k,
{
    if k > 0 {
        lemma_server_phase_before(events, (k - 1) as nat);
    }
}

/// A pull reaches the step that merges rows only as its second step, after
/// a challenge response whose key is the one the peer is known by and
/// whose signature over this pull's nonce verifies under that key.
pub proof fn law_client_merges_only_after_proof(
    nonce: Seq<char>,
    fingerprint: Seq<char>,
    events: Seq<ClientEvent>,
    k: nat,
)
    requires
        k <= events.len(),
        client_phase_before(nonce, fingerprint, events, k) is AwaitSyncData,
    ensures
        k == 1,
        events[0] matches ClientEvent::Received(Some(ReplicationMsg::ChallengeResponse { signature, verifying_key, .. }))
            && response_verifies(signature@, verifying_key@, nonce, fingerprint),
{
    lemma_client_phase_before(nonce, fingerprint, events, k);
}

proof fn lemma_client_phase_before(nonce: Seq<char>, fingerprint: Seq<char>, events: Seq<ClientEvent>, k: nat)
    requires
        k <= events.len(),
    ensures
        client_phase_before(nonce, fingerprint, events, k) is AwaitChallengeResponse ==> k == 0,
        client_phase_before(nonce, fingerprint, events, k) is AwaitSyncData ==> (k == 1 && (events[0] matches ClientEvent::Received(
            Some(ReplicationMsg::ChallengeResponse { signature, verifying_key, .. }),
        ) && response_verifies(signature@, verifying_key@, nonce, fingerprint))),
    decreases k,
{
    if k > 0 {
        lemma_client_phase_before(nonce, fingerprint, events, (k - 1) as nat);
    }
}

} // verus!
