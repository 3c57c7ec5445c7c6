use mesh_todo::auth::user_hash_from_sub;
use mesh_todo::replication::{client_step, start_pull, ClientAction, ClientEvent, ReplicationMsg};
use mesh_todo::identity::{
    issue_session, load_or_generate_signing_key, pubkey_fingerprint, urlencoding_encode,
    verify_session, NodeKey,
};
use sha2::Digest;

const RFC8032_SECRET: &str = "9d61b19deffd5a60ba844af492ec2cc44449c5697b326919703bac031cae7f60";
const RFC8032_PUBLIC: &str = "d75a980182b10ab7d54bfed3c964073a0ee172f3daa62325af021a68f707511a";
const RFC8032_EMPTY_SIG: &str = "e5564300c360ac729086e2cc806e828a84877f1eb8e5d974d873e065224901555fb8821590a33bacc61e39701cf9b46bd25bf5f0595bbe24655141438e7a100b";

fn rfc_key() -> NodeKey {
    NodeKey::from_secret_bytes(&hex::decode(RFC8032_SECRET).unwrap()).unwrap()
}

#[test]
fn key_matches_rfc8032_vector() {
    let key = rfc_key();
    assert_eq!(hex::encode(key.public_key()), RFC8032_PUBLIC);
    assert_eq!(hex::encode(key.sign(b"")), RFC8032_EMPTY_SIG);
    assert_eq!(key.to_secret_bytes(), hex::decode(RFC8032_SECRET).unwrap());
}

#[test]
fn key_bytes_must_be_32() {
    assert!(NodeKey::from_secret_bytes(&[1u8; 31]).is_none());
    assert!(NodeKey::from_secret_bytes(&[1u8; 33]).is_none());
}

#[test]
fn stored_key_is_reused_else_generated() {
    let stored = hex::decode(RFC8032_SECRET).unwrap();
    let (key, fresh) = load_or_generate_signing_key(Some(stored.clone()));
    assert!(!fresh);
    assert_eq!(key.to_secret_bytes(), stored);
    let (_, fresh) = load_or_generate_signing_key(Some(vec![0u8; 10]));
    assert!(fresh);
    let (k1, fresh) = load_or_generate_signing_key(None);
    assert!(fresh);
    let (k2, _) = load_or_generate_signing_key(None);
    assert_ne!(k1.to_secret_bytes(), k2.to_secret_bytes());
}

#[test]
fn fingerprint_is_hex_sha256_of_public_key() {
    let key = rfc_key();
    let pk = key.public_key();
    let expected = hex::encode(sha2::Sha256::digest(pk));
    assert_eq!(pubkey_fingerprint(&pk), expected);
    assert_eq!(pubkey_fingerprint(&pk).len(), 64);
}

#[test]
fn user_hash_is_sha256_hex() {
    assert_eq!(
        user_hash_from_sub("abc"),
        "ba7816bf8f01cfea414140de5dae2223b00361a396177a9cb410ff61f20015ad"
    );
}

#[test]
fn session_round_trip() {
    let key = rfc_key();
    let user = user_hash_from_sub("google-sub-123");
    let token = issue_session(&key, &user, 1_700_000_000_000);
    assert_eq!(verify_session(Some(token.as_str()), &key), Some(user));
    let parts: Vec<&str> = token.split('.').collect();
    assert_eq!(parts.len(), 2);
    assert_eq!(
        base64::Engine::decode(&base64::engine::general_purpose::URL_SAFE_NO_PAD, parts[0]).unwrap(),
        format!("{}:1700000000000", user_hash_from_sub("google-sub-123")).into_bytes()
    );
}

#[test]
fn session_refused_when_tampered_or_foreign() {
    let key = rfc_key();
    let other = NodeKey::from_secret_bytes(&[7u8; 32]).unwrap();
    let token = issue_session(&key, &"alice".to_string(), 5);
    assert_eq!(verify_session(Some(token.as_str()), &other), None);
    let forged = issue_session(&other, &"mallory".to_string(), 5);
    let (_, sig) = token.split_once('.').unwrap();
    let (payload, _) = forged.split_once('.').unwrap();
    let spliced = format!("{}.{}", payload, sig);
    assert_eq!(verify_session(Some(spliced.as_str()), &key), None);
    assert_eq!(verify_session(Some("no-dot-here"), &key), None);
    assert_eq!(verify_session(Some("***.***"), &key), None);
    assert_eq!(verify_session(None, &key), None);
}

#[test]
fn session_user_is_text_before_colon() {
    let key = rfc_key();
    let token = issue_session(&key, &"bob".to_string(), -3);
    assert_eq!(verify_session(Some(token.as_str()), &key), Some("bob".to_string()));
}

fn answer(nonce: &str, signature: Vec<u8>, public: Vec<u8>) -> ClientAction {
    let known = pubkey_fingerprint(&rfc_key().public_key());
    let (mut session, _) = start_pull(nonce.into(), "u".into(), known);
    let msg = ReplicationMsg::ChallengeResponse {
        nonce: nonce.into(),
        signature: hex::encode(signature),
        verifying_key: hex::encode(public),
    };
    client_step(&mut session, ClientEvent::Received(Some(msg)))
}

#[test]
fn signatures_verify_only_for_their_key_and_message() {
    let key = rfc_key();
    let sig = key.sign(b"nonce").to_vec();
    let pk = key.public_key().to_vec();
    assert!(matches!(answer("nonce", sig.clone(), pk.clone()), ClientAction::Send(_)));
    assert!(matches!(answer("nonce2", sig.clone(), pk.clone()), ClientAction::RejectPeer));
    assert!(matches!(answer("nonce", sig.clone(), pk[..31].to_vec()), ClientAction::RejectPeer));
    assert!(matches!(answer("nonce", sig[..63].to_vec(), pk), ClientAction::RejectPeer));
}

#[test]
fn url_encoding() {
    assert_eq!(
        urlencoding_encode("http://localhost:8080/auth/callback"),
        "http%3A%2F%2Flocalhost%3A8080%2Fauth%2Fcallback"
    );
    assert_eq!(urlencoding_encode("a-b_c.d~e"), "a-b_c.d~e");
    assert_eq!(urlencoding_encode("é "), "%C3%A9%20");
}
