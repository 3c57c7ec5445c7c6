use mesh_todo::auth::{code_challenge, id_token_payload, ClaimsError};
use mesh_todo::identity::pubkey_fingerprint;
use mesh_todo::replication::{client_step, start_pull, ClientAction, ClientEvent, ReplicationMsg};
use mesh_todo::text::{bytes_lt, decimal_bytes};

#[test]
fn decimal_rendering() {
    assert_eq!(decimal_bytes(0), b"0".to_vec());
    assert_eq!(decimal_bytes(1234567890123), b"1234567890123".to_vec());
    assert_eq!(decimal_bytes(-42), b"-42".to_vec());
    assert_eq!(decimal_bytes(i64::MIN), i64::MIN.to_string().into_bytes());
    assert_eq!(decimal_bytes(i64::MAX), i64::MAX.to_string().into_bytes());
}

#[test]
fn byte_order_like_text() {
    assert!(bytes_lt(b"abc", b"abd"));
    assert!(bytes_lt(b"ab", b"abc"));
    assert!(!bytes_lt(b"abc", b"abc"));
    assert!(!bytes_lt(b"b", b"abc"));
    assert!(bytes_lt(b"n1", b"n2"));
}

#[test]
fn hex_text_of_a_fingerprint() {
    // SHA-256 of 32 zero bytes, in lowercase hex
    assert_eq!(
        pubkey_fingerprint(&[0u8; 32]),
        "66687aadf862bd776c8fc18b8e9f8e20089714856ee233b3902a591d0d5f2925"
    );
}

fn response_with(signature: &str, verifying_key: &str) -> ClientAction {
    let (mut session, _) = start_pull("n".into(), "u".into(), "fp".into());
    let msg = ReplicationMsg::ChallengeResponse {
        nonce: "n".into(),
        signature: signature.into(),
        verifying_key: verifying_key.into(),
    };
    client_step(&mut session, ClientEvent::Received(Some(msg)))
}

#[test]
fn hex_fields_of_a_response_are_decoded() {
    // valid hex of the wrong lengths reaches the signature check and fails it
    assert!(matches!(response_with("00AB10ff", "00ab"), ClientAction::RejectPeer));
    // odd length, or a character that is no hex digit, is no response at all
    assert!(matches!(response_with("abc", "00ab"), ClientAction::Close));
    assert!(matches!(response_with("00ab", "zz"), ClientAction::Close));
}

#[test]
fn base64url_both_ways() {
    // a 32-byte digest is 43 characters, without padding, with `-` and `_`
    assert_eq!(code_challenge("abc"), "ungWv48Bz-pBQUDeXa4iI7ADYaOWF3qctBD_YfIAFa0");
    assert_eq!(id_token_payload("h.aGVsbG8.s").unwrap(), b"hello".to_vec());
    assert_eq!(id_token_payload("h.-_8").unwrap(), vec![0xfb, 0xff]);
    assert!(matches!(id_token_payload("h.aGVsbG8="), Err(ClaimsError::Decode(_))));
    assert!(matches!(id_token_payload("h.a"), Err(ClaimsError::Decode(_))));
    assert!(matches!(id_token_payload("h.aGVsbG9"), Err(ClaimsError::Decode(_))));
}
