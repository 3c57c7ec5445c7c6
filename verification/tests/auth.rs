use mesh_todo::auth::{
    authorization_url, check_callback_state, code_challenge, finish_sign_in, finish_sign_in_at,
    handle_login,
    handle_logout, handle_me, id_token_payload, new_code_verifier, CallbackError, ClaimsError,
};
use mesh_todo::identity::{verify_session, NodeKey};

#[test]
fn pkce_challenge_is_base64url_sha256() {
    assert_eq!(
        code_challenge("dBjftJeZ4CVP-mJ92K9ZirUMWt5gOsw4N59ncmB_yPk"),
        "q8dtGwbegJW16BL29CJSLp52rerStLL1qsDLBjfQbDI"
    );
    assert_eq!(code_challenge(""), "47DEQpj8HBSa-_TImW-5JCeuQeRkm5NMpJWZG3hSuFU");
}

#[test]
fn code_verifier_is_43_chars() {
    let v = new_code_verifier();
    assert_eq!(v.len(), 43);
    assert_ne!(v, new_code_verifier());
}

#[test]
fn uuid_text_form() {
    let r = handle_login("cid", "http://h/cb");
    let u = r.location.rsplit_once("&state=").unwrap().1;
    assert_eq!(u.len(), 36);
    assert_eq!(u.as_bytes()[14], b'4');
    assert!(uuid_is_hyphenated(u));
}

fn uuid_is_hyphenated(u: &str) -> bool {
    u.char_indices().all(|(i, c)| {
        if [8, 13, 18, 23].contains(&i) { c == '-' } else { c.is_ascii_hexdigit() && !c.is_ascii_uppercase() }
    })
}

#[test]
fn authorization_url_text() {
    assert_eq!(
        authorization_url("cid", "http://h/cb", "CH", "st"),
        "https://accounts.google.com/o/oauth2/v2/auth?client_id=cid&redirect_uri=http%3A%2F%2Fh%2Fcb&response_type=code&scope=openid%20email%20profile&code_challenge=CH&code_challenge_method=S256&state=st"
    );
}

#[test]
fn login_redirect_and_cookie_agree() {
    let r = handle_login("cid", "http://localhost:8080/auth/callback");
    assert_eq!(r.set_cookies.len(), 1);
    let cookie = &r.set_cookies[0];
    let value = cookie
        .strip_prefix("pkce_state=")
        .unwrap()
        .strip_suffix("; HttpOnly; Path=/; Max-Age=600")
        .unwrap();
    let (csrf, verifier) = value.split_once(':').unwrap();
    assert!(r.location.ends_with(&format!("&state={}", csrf)));
    assert!(r.location.contains(&format!("&code_challenge={}&", code_challenge(verifier))));
    assert_eq!(check_callback_state(Some(value), csrf).ok(), Some(verifier.to_string()));
}

#[test]
fn callback_state_checks() {
    assert!(matches!(check_callback_state(None, "s"), Err(CallbackError::MissingPkceCookie)));
    assert!(matches!(check_callback_state(Some("nocolon"), "nocolon"), Err(CallbackError::CsrfMismatch)));
    assert!(matches!(check_callback_state(Some("a:v"), "b"), Err(CallbackError::CsrfMismatch)));
    assert_eq!(check_callback_state(Some("s:v:w"), "s").ok(), Some("v:w".to_string()));
    assert_eq!(check_callback_state(Some("s:"), "s").ok(), Some(String::new()));
}

#[test]
fn id_token_payload_segment() {
    // header.payload.signature; the payload is {"sub":"1"}
    let p = id_token_payload("eyJhbGciOiJSUzI1NiJ9.eyJzdWIiOiIxIn0.c2ln").unwrap();
    assert_eq!(p, b"{\"sub\":\"1\"}".to_vec());
    assert_eq!(id_token_payload("x.eyJzdWIiOiIxIn0").unwrap(), b"{\"sub\":\"1\"}".to_vec());
    assert!(matches!(id_token_payload("no-dots"), Err(ClaimsError::Malformed)));
    assert!(matches!(id_token_payload("a.!!!.c"), Err(ClaimsError::Decode(_))));
}

#[test]
fn sign_in_sets_a_verifiable_session() {
    let key = NodeKey::from_secret_bytes(&[3u8; 32]).unwrap();
    let (user, redirect) = finish_sign_in_at(&key, "abc", 1234);
    assert_eq!(user, "ba7816bf8f01cfea414140de5dae2223b00361a396177a9cb410ff61f20015ad");
    assert_eq!(redirect.location, "/");
    let token = redirect.set_cookies[0]
        .strip_prefix("session=")
        .unwrap()
        .strip_suffix("; HttpOnly; Path=/; Max-Age=86400")
        .unwrap();
    assert_eq!(verify_session(Some(token), &key), Some(user));
    assert_eq!(redirect.set_cookies[1], "pkce_state=; HttpOnly; Path=/; Max-Age=0");
}

#[test]
fn logout_drops_session() {
    let r = handle_logout();
    assert_eq!(r.location, "/");
    assert_eq!(r.set_cookies, vec!["session=; HttpOnly; Path=/; Max-Age=0".to_string()]);
}

#[test]
fn me_response() {
    let node = "n".to_string();
    let me = handle_me(Some("u".to_string()), &node);
    assert!(me.logged_in);
    assert_eq!(me.user_hash, "u");
    let anon = handle_me(None, &node);
    assert!(!anon.logged_in);
    assert_eq!(anon.user_hash, "");
    assert_eq!(anon.node_id, "n");
}

#[test]
fn sign_in_now_is_verifiable() {
    let key = NodeKey::from_secret_bytes(&[8u8; 32]).unwrap();
    let (user, redirect) = finish_sign_in(&key, "google-sub").unwrap();
    let token = redirect.set_cookies[0]
        .strip_prefix("session=")
        .unwrap()
        .strip_suffix("; HttpOnly; Path=/; Max-Age=86400")
        .unwrap();
    assert_eq!(verify_session(Some(token), &key), Some(user));
}
