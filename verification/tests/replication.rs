use mesh_todo::identity::{pubkey_fingerprint, NodeKey};
use mesh_todo::models::Todo;
use mesh_todo::state::DiscoveredPeer;
use mesh_todo::replication::{
    client_step, mesh_round, peer_socket_addr, MeshPull, replication_url, server_step, start_pull, open_pull, ClientAction,
    ClientEvent, ClientPhase, ReplicationMsg, ServerAction, ServerEvent, ServerPhase,
};

fn row(id: &str) -> Todo {
    Todo {
        id: id.into(),
        title: "t".into(),
        completed: false,
        deleted: false,
        updated_at: 1,
        node_id: "n".into(),
    }
}

#[test]
fn honest_exchange_delivers_rows() {
    let server_key = NodeKey::from_secret_bytes(&[9u8; 32]).unwrap();
    let known = pubkey_fingerprint(&server_key.public_key());
    let (mut session, challenge) = start_pull("nonce-1".into(), "user-h".into(), known);
    let (phase, action) = server_step(ServerPhase::AwaitChallenge, ServerEvent::Received(Some(challenge)), &server_key);
    assert!(matches!(phase, ServerPhase::AwaitSyncRequest));
    let response = match action {
        ServerAction::Send(m) => m,
        _ => panic!("expected a challenge response"),
    };
    if let ReplicationMsg::ChallengeResponse { nonce, verifying_key, .. } = &response {
        assert_eq!(nonce, "nonce-1");
        assert_eq!(verifying_key, &hex::encode(server_key.public_key()));
    } else {
        panic!("wrong message");
    }
    let request = match client_step(&mut session, ClientEvent::Received(Some(response))) {
        ClientAction::Send(m) => m,
        _ => panic!("client should accept an honest signature"),
    };
    assert!(matches!(session.phase, ClientPhase::AwaitSyncData));
    let (phase, action) = server_step(phase, ServerEvent::Received(Some(request)), &server_key);
    assert!(matches!(phase, ServerPhase::AwaitUserRows));
    match action {
        ServerAction::LookUpUser(h) => assert_eq!(h, "user-h"),
        _ => panic!("expected a lookup"),
    }
    let (phase, action) = server_step(phase, ServerEvent::UserRows(Some(vec![row("a"), row("b")])), &server_key);
    assert!(matches!(phase, ServerPhase::Finished));
    let data = match action {
        ServerAction::SendAndClose(m) => m,
        _ => panic!("expected data"),
    };
    match client_step(&mut session, ClientEvent::Received(Some(data))) {
        ClientAction::Merge(rows) => assert_eq!(rows.len(), 2),
        _ => panic!("expected rows to merge"),
    }
}

#[test]
fn forged_signature_is_rejected() {
    let real = NodeKey::from_secret_bytes(&[1u8; 32]).unwrap();
    let (mut session, _) = start_pull("nonce-2".into(), "u".into(), pubkey_fingerprint(&real.public_key()));
    let liar = NodeKey::from_secret_bytes(&[2u8; 32]).unwrap();
    let msg = ReplicationMsg::ChallengeResponse {
        nonce: "nonce-2".into(),
        signature: hex::encode(liar.sign(b"nonce-2")),
        verifying_key: hex::encode(real.public_key()),
    };
    assert!(matches!(client_step(&mut session, ClientEvent::Received(Some(msg))), ClientAction::RejectPeer));
    assert!(matches!(session.phase, ClientPhase::Finished));
}

#[test]
fn signature_over_other_nonce_is_rejected() {
    let k = NodeKey::from_secret_bytes(&[1u8; 32]).unwrap();
    let (mut session, _) = start_pull("mine".into(), "u".into(), pubkey_fingerprint(&k.public_key()));
    let msg = ReplicationMsg::ChallengeResponse {
        nonce: "mine".into(),
        signature: hex::encode(k.sign(b"theirs")),
        verifying_key: hex::encode(k.public_key()),
    };
    assert!(matches!(client_step(&mut session, ClientEvent::Received(Some(msg))), ClientAction::RejectPeer));
}

#[test]
fn garbled_response_closes() {
    let (mut session, _) = start_pull("n".into(), "u".into(), "fp".into());
    let msg = ReplicationMsg::ChallengeResponse {
        nonce: "n".into(),
        signature: "zz".into(),
        verifying_key: "zz".into(),
    };
    assert!(matches!(client_step(&mut session, ClientEvent::Received(Some(msg))), ClientAction::Close));
    let (mut session, _) = start_pull("n".into(), "u".into(), "fp".into());
    assert!(matches!(client_step(&mut session, ClientEvent::Received(None)), ClientAction::Close));
    let (mut session, _) = start_pull("n".into(), "u".into(), "fp".into());
    assert!(matches!(client_step(&mut session, ClientEvent::Closed), ClientAction::Close));
}

#[test]
fn data_before_handshake_is_ignored() {
    let (mut session, _) = start_pull("n".into(), "u".into(), "fp".into());
    let data = ReplicationMsg::SyncData { todos: vec![row("a")] };
    assert!(matches!(client_step(&mut session, ClientEvent::Received(Some(data))), ClientAction::Close));
}

#[test]
fn server_refuses_anything_but_a_challenge_first() {
    let k = NodeKey::from_secret_bytes(&[4u8; 32]).unwrap();
    let req = ReplicationMsg::SyncRequest { user_hash: "u".into() };
    let (phase, action) = server_step(ServerPhase::AwaitChallenge, ServerEvent::Received(Some(req)), &k);
    assert!(matches!(phase, ServerPhase::Finished));
    match action {
        ServerAction::SendAndClose(ReplicationMsg::Error { message }) => assert_eq!(message, "expected Challenge"),
        _ => panic!("expected an error reply"),
    }
    let (_, action) = server_step(ServerPhase::AwaitChallenge, ServerEvent::Received(None), &k);
    assert!(matches!(action, ServerAction::SendAndClose(ReplicationMsg::Error { .. })));
    let (_, action) = server_step(ServerPhase::AwaitChallenge, ServerEvent::Closed, &k);
    assert!(matches!(action, ServerAction::Close));
}

#[test]
fn server_unknown_user() {
    let k = NodeKey::from_secret_bytes(&[4u8; 32]).unwrap();
    let (_, action) = server_step(ServerPhase::AwaitUserRows, ServerEvent::UserRows(None), &k);
    match action {
        ServerAction::SendAndClose(ReplicationMsg::Error { message }) => assert_eq!(message, "no data for that user_hash"),
        _ => panic!("expected an error reply"),
    }
    let wrong = ReplicationMsg::Challenge { nonce: "x".into(), user_hash: "u".into() };
    let (_, action) = server_step(ServerPhase::AwaitSyncRequest, ServerEvent::Received(Some(wrong)), &k);
    assert!(matches!(action, ServerAction::Close));
}

#[test]
fn manual_peer_urls() {
    assert_eq!(
        replication_url("192.168.1.5:8080", "u1"),
        "http://192.168.1.5:8080/api/replication?user_hash=u1"
    );
    assert_eq!(replication_url("https://peer.lan", "ab"), "https://peer.lan/api/replication?user_hash=ab");
    assert_eq!(replication_url("htt", "a b"), "http://htt/api/replication?user_hash=a%20b");
    assert_eq!(peer_socket_addr(&"10.0.0.2".to_string(), 11204), "10.0.0.2:11204");
}

#[test]
fn pulls_challenge_with_fresh_nonces() {
    let (a, ca) = open_pull("user-h".into(), "fp".into());
    let (b, _) = open_pull("user-h".into(), "fp".into());
    assert_eq!(a.nonce.len(), 36);
    assert_ne!(a.nonce, b.nonce);
    assert!(matches!(a.phase, ClientPhase::AwaitChallengeResponse));
    match ca {
        ReplicationMsg::Challenge { nonce, user_hash } => {
            assert_eq!(nonce, a.nonce);
            assert_eq!(user_hash, "user-h");
        }
        _ => panic!("expected a challenge"),
    }
}

#[test]
fn key_other_than_the_known_one_is_rejected() {
    let known = NodeKey::from_secret_bytes(&[1u8; 32]).unwrap();
    let stranger = NodeKey::from_secret_bytes(&[2u8; 32]).unwrap();
    let (mut session, _) =
        start_pull("n".into(), "u".into(), pubkey_fingerprint(&known.public_key()));
    // a correct signature, but under a key that is not the peer's announced one
    let msg = ReplicationMsg::ChallengeResponse {
        nonce: "n".into(),
        signature: hex::encode(stranger.sign(b"n")),
        verifying_key: hex::encode(stranger.public_key()),
    };
    assert!(matches!(client_step(&mut session, ClientEvent::Received(Some(msg))), ClientAction::RejectPeer));
    assert!(matches!(session.phase, ClientPhase::Finished));
}

fn peer(addr: &str, fp: &str) -> DiscoveredPeer {
    DiscoveredPeer {
        addr: addr.into(),
        user_hash: "anonymous".into(),
        pubkey_fingerprint: fp.into(),
        replication_port: 11204,
        last_seen: 0,
    }
}

#[test]
fn mesh_round_visits_each_user_then_each_peer() {
    let users = vec!["u1".to_string(), "u2".to_string()];
    let peers = vec![peer("10.0.0.1", "A"), peer("10.0.0.2", "B")];
    let manual = vec!["10.0.0.9:8080".to_string()];
    let plan: Vec<String> = mesh_round(&users, &peers, &manual)
        .into_iter()
        .map(|p| match p {
            MeshPull::Peer { user_hash, peer } => format!("{user_hash}@{}", peer.pubkey_fingerprint),
            MeshPull::Manual { user_hash, url } => format!("{user_hash}->{url}"),
        })
        .collect();
    assert_eq!(
        plan,
        vec![
            "u1@A",
            "u1@B",
            "u1->http://10.0.0.9:8080/api/replication?user_hash=u1",
            "u2@A",
            "u2@B",
            "u2->http://10.0.0.9:8080/api/replication?user_hash=u2",
        ]
    );
    assert!(mesh_round(&vec![], &peers, &manual).is_empty());
}
