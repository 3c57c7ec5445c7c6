//! Google sign-in with PKCE: the login redirect, the callback's checks,
//! the user hash, and the cookies that carry the flow and the session.

use vstd::prelude::*;
use vstd::utf8::encode_utf8;
use vstd::string::{StrSliceExecFns, StringExecFns, StringSliceAdditionalSpecFns};
use crate::codec::{b64url, b64url_decode, b64url_encode, hex_encode, hex_lower, lemma_b64url_shape, lemma_hex_lower_ascii};
use crate::crypto::{new_uuid_v4, random_byte, sha256, sha256_digest, uuid_text};
use crate::db::{all_tombstoned, next_stamp, now, supersedes, ClockBeforeEpoch, TodoStore};
use crate::identity::{issue_session, session_token, url_encoded, urlencoding_encode, NodeKey};
use crate::text::{ascii_chars, ascii_string, find_byte, find_char, lemma_index_of, split_once};

verus! {

/// The query of Google's redirect back to the node.
pub struct OAuthCallback {
    pub code: String,
    pub state: String,
}

/// Who the caller is, as `/auth/me` reports it.
pub struct MeResponse {
    pub user_hash: String,
    pub node_id: String,
    pub logged_in: bool,
}

/// The claims of a Google id token that a sign-in reads: the user's
/// stable id and, when granted, the e-mail address.
pub struct GoogleClaims {
    pub sub: String,
    pub email: Option<String>,
}

/// Why the callback refuses a sign-in before contacting Google.
pub enum CallbackError {
    MissingPkceCookie,
    CsrfMismatch,
}

/// Why the claims of an id token cannot be read.
#[derive(Debug)]
pub enum ClaimsError {
    Malformed,
    Decode(base64::DecodeError),
}

/// The user hash: lowercase hex of the SHA-256 digest of Google's `sub`.
pub fn user_hash_from_sub(sub: &str) -> (res: String)
    ensures
        res@ == ascii_chars(hex_lower(sha256(sub.spec_bytes()))),
        res@.len() == 64,
{
    let digest = sha256_digest(sub.as_bytes());
    hex_encode(digest.as_slice())
}

/// A user hash holds no `:`.
pub proof fn lemma_user_hash_has_no_colon(data: Seq<u8>)
    ensures
        !ascii_chars(hex_lower(data)).contains(':'),
{
    let h = hex_lower(data);
    lemma_hex_lower_ascii(data);
    if ascii_chars(h).contains(':') {
        let i = choose|i: int| 0 <= i < h.len() && ascii_chars(h)[i] == ':';
        assert(h[i] as char == ':');
    }
}

/// A fresh PKCE code verifier: 32 random bytes in URL-safe base64.
pub fn new_code_verifier() -> (res: String)
    ensures
        exists|b: Seq<u8>| b.len() == 32 && res@ == ascii_chars(#[trigger] b64url(b)),
{
    let mut bytes: Vec<u8> = Vec::new();
    let mut i: usize = 0;
    while i < 32
        invariant
            i <= 32,
            bytes@.len() == i,
        decreases 32 - i,
    {
        bytes.push(random_byte());
        i = i + 1;
    }
    let text = b64url_encode(bytes.as_slice());
    proof {
        lemma_b64url_shape(bytes@);
    }
    let res = ascii_string(text);
    assert(res@ == ascii_chars(b64url(bytes@)));
    res
}

/// The PKCE code challenge: URL-safe base64 of the SHA-256 of the verifier.
pub fn code_challenge(verifier: &str) -> (res: String)
    ensures
        res@ == ascii_chars(b64url(sha256(verifier.spec_bytes()))),
{
    let digest = sha256_digest(verifier.as_bytes());
    let text = b64url_encode(digest.as_slice());
    proof {
        lemma_b64url_shape(digest@);
    }
    ascii_string(text)
}

/// Google's authorization URL for a PKCE sign-in.
pub fn authorization_url(client_id: &str, redirect_uri: &str, challenge: &str, csrf: &str) -> (res: String)
    ensures
        res@ == "https://accounts.google.com/o/oauth2/v2/auth?client_id="@ + client_id@
            + "&redirect_uri="@ + ascii_chars(url_encoded(redirect_uri.spec_bytes()))
            + "&response_type=code&scope=openid%20email%20profile&code_challenge="@ + challenge@
            + "&code_challenge_method=S256&state="@ + csrf@,
{
    let mut url = "https://accounts.google.com/o/oauth2/v2/auth?client_id=".to_owned();
    url.append(client_id);
    url.append("&redirect_uri=");
    let encoded = urlencoding_encode(redirect_uri);
    url.append(encoded.as_str());
    url.append("&response_type=code&scope=openid%20email%20profile&code_challenge=");
    url.append(challenge);
    url.append("&code_challenge_method=S256&state=");
    url.append(csrf);
    url
}

/// The value of the `pkce_state` cookie: the CSRF state, `:`, the verifier.
pub fn pkce_cookie_value(csrf: &str, verifier: &str) -> (res: String)
    ensures
        res@ == csrf@ + ":"@ + verifier@,
{
    let mut v = csrf.to_owned();
    v.append(":");
    v.append(verifier);
    v
}

/// A temporary redirect and the cookies it sets.
pub struct Redirect {
    pub location: String,
    pub set_cookies: Vec<String>,
}

/// Starts a sign-in: a fresh code verifier and CSRF state, the redirect to
/// Google's consent page with the verifier's challenge, and the cookie that
/// keeps state and verifier for the callback.
pub fn handle_login(client_id: &str, redirect_uri: &str) -> (res: Redirect)
    ensures
        exists|csrf: Seq<char>, verifier_bytes: Seq<u8>|
            #![trigger uuid_text(csrf), b64url(verifier_bytes)]
            {
                let verifier = ascii_chars(b64url(verifier_bytes));
                let challenge = ascii_chars(b64url(sha256(encode_utf8(verifier))));
                &&& uuid_text(csrf)
                &&& verifier_bytes.len() == 32
                &&& res.location@ == "https://accounts.google.com/o/oauth2/v2/auth?client_id="@
                    + client_id@ + "&redirect_uri="@ + ascii_chars(url_encoded(redirect_uri.spec_bytes()))
                    + "&response_type=code&scope=openid%20email%20profile&code_challenge="@
                    + challenge + "&code_challenge_method=S256&state="@ + csrf
                &&& res.set_cookies@.len() == 1
                &&& res.set_cookies@[0]@ == "pkce_state="@ + csrf + ":"@ + verifier
                    + "; HttpOnly; Path=/; Max-Age=600"@
            },
{
    let verifier = new_code_verifier();
    let challenge = code_challenge(verifier.as_str());
    let csrf = new_uuid_v4();
    let location = authorization_url(client_id, redirect_uri, challenge.as_str(), csrf.as_str());
    let value = pkce_cookie_value(csrf.as_str(), verifier.as_str());
    let cookie = pkce_set_cookie(value.as_str());
    let mut set_cookies: Vec<String> = Vec::new();
    set_cookies.push(cookie);
    let res = Redirect { location, set_cookies };
    proof {
        let vb = choose|b: Seq<u8>| b.len() == 32 && verifier@ == ascii_chars(#[trigger] b64url(b));
        assert(res.set_cookies@[0]@ =~= "pkce_state="@ + csrf@ + ":"@ + verifier@
            + "; HttpOnly; Path=/; Max-Age=600"@);
    }
    res
}

/// Signs out: back to `/`, dropping the session cookie.
pub fn handle_logout() -> (res: Redirect)
    ensures
        res.location@ == "/"@,
        res.set_cookies@.len() == 1,
        res.set_cookies@[0]@ == "session=; HttpOnly; Path=/; Max-Age=0"@,
{
    let mut set_cookies: Vec<String> = Vec::new();
    set_cookies.push(session_clear_cookie());
    Redirect { location: "/".to_owned(), set_cookies }
}

/// Ends a sign-in once Google has named the user: the user hash, and the
/// redirect to `/` that stores a session signed at `now` and drops the
/// PKCE cookie.
pub fn finish_sign_in_at(key: &NodeKey, sub: &str, now: i64) -> (res: (String, Redirect))
    ensures
        res.0@ == ascii_chars(hex_lower(sha256(sub.spec_bytes()))),
        res.1.location@ == "/"@,
        res.1.set_cookies@.len() == 2,
        res.1.set_cookies@[0]@ == "session="@ + ascii_chars(session_token(key.secret(), res.0@, now as int))
            + "; HttpOnly; Path=/; Max-Age=86400"@,
        res.1.set_cookies@[1]@ == "pkce_state=; HttpOnly; Path=/; Max-Age=0"@,
{
    let user_hash = user_hash_from_sub(sub);
    let token = issue_session(key, &user_hash, now);
    let mut set_cookies: Vec<String> = Vec::new();
    set_cookies.push(session_set_cookie(token.as_str()));
    set_cookies.push(pkce_clear_cookie());
    (user_hash, Redirect { location: "/".to_owned(), set_cookies })
}

/// Ends a sign-in as `finish_sign_in_at` does, with the session signed at
/// the current time; a clock set before the epoch gives no session.
pub fn finish_sign_in(key: &NodeKey, sub: &str) -> (res: Result<(String, Redirect), ClockBeforeEpoch>)
    ensures
        res matches Ok(r) ==> {
            &&& r.0@ == ascii_chars(hex_lower(sha256(sub.spec_bytes())))
            &&& r.1.location@ == "/"@
            &&& r.1.set_cookies@.len() == 2
            &&& exists|at: i64|
                r.1.set_cookies@[0]@ == "session="@ + ascii_chars(
                    #[trigger] session_token(key.secret(), r.0@, at as int),
                ) + "; HttpOnly; Path=/; Max-Age=86400"@
            &&& r.1.set_cookies@[1]@ == "pkce_state=; HttpOnly; Path=/; Max-Age=0"@
        },
{
    let at = match now() {
        Some(t) => t,
        None => {
            return Err(ClockBeforeEpoch);
        },
    };
    let res = finish_sign_in_at(key, sub, at);
    assert(res.1.set_cookies@[0]@ == "session="@ + ascii_chars(session_token(key.secret(), res.0@, at as int))
        + "; HttpOnly; Path=/; Max-Age=86400"@);
    Ok(res)
}

/// The `Set-Cookie` header that starts a sign-in.
pub fn pkce_set_cookie(value: &str) -> (res: String)
    ensures
        res@ == "pkce_state="@ + value@ + "; HttpOnly; Path=/; Max-Age=600"@,
{
    let mut v = "pkce_state=".to_owned();
    v.append(value);
    v.append("; HttpOnly; Path=/; Max-Age=600");
    v
}

/// The `Set-Cookie` header that ends a sign-in.
pub fn pkce_clear_cookie() -> (res: String)
    ensures
        res@ == "pkce_state=; HttpOnly; Path=/; Max-Age=0"@,
{
    "pkce_state=; HttpOnly; Path=/; Max-Age=0".to_owned()
}

/// The `Set-Cookie` header that stores a session for 24 hours.
pub fn session_set_cookie(token: &str) -> (res: String)
    ensures
        res@ == "session="@ + token@ + "; HttpOnly; Path=/; Max-Age=86400"@,
{
    let mut v = "session=".to_owned();
    v.append(token);
    v.append("; HttpOnly; Path=/; Max-Age=86400");
    v
}

/// The `Set-Cookie` header that drops the session.
pub fn session_clear_cookie() -> (res: String)
    ensures
        res@ == "session=; HttpOnly; Path=/; Max-Age=0"@,
{
    "session=; HttpOnly; Path=/; Max-Age=0".to_owned()
}

/// Checks Google's redirect against the `pkce_state` cookie: the cookie
/// must be there, and the part before its first `:` must equal the state
/// Google returns; the code verifier is what follows the `:`.
pub fn check_callback_state(pkce_cookie: Option<&str>, state: &str) -> (res: Result<String, CallbackError>)
    ensures
        match pkce_cookie {
            None => res matches Err(CallbackError::MissingPkceCookie),
            Some(c) => match split_once(c@, ':') {
                (head, Some(tail)) => if head == state@ {
                    res matches Ok(v) && v@ == tail
                } else {
                    res matches Err(CallbackError::CsrfMismatch)
                },
                (_, None) => res matches Err(CallbackError::CsrfMismatch),
            },
        },
{
    let c = match pkce_cookie {
        Some(c) => c,
        None => {
            return Err(CallbackError::MissingPkceCookie);
        },
    };
    let cut = find_char(c, ':');
    let n = c.unicode_len();
    if cut >= n {
        return Err(CallbackError::CsrfMismatch);
    }
    let head = c.substring_char(0, cut).to_owned();
    let expected = state.to_owned();
    proof {
        assert(c@.take(cut as int) =~= c@.subrange(0, cut as int));
    }
    if head != expected {
        return Err(CallbackError::CsrfMismatch);
    }
    let tail = c.substring_char(cut + 1, n).to_owned();
    proof {
        assert(c@.skip(cut + 1) =~= c@.subrange(cut + 1, n as int));
    }
    Ok(tail)
}

/// The bytes of an id token's payload: the base64 segment between its
/// first and second `.` (or its end).
pub open spec fn id_token_payload_text(token: Seq<u8>) -> Option<Seq<u8>> {
    match split_once(token, 46u8).1 {
        None => None,
        Some(rest) => Some(split_once(rest, 46u8).0),
    }
}

/// Decodes an id token's payload without checking its signature: a token
/// without a `.` is malformed, and the payload segment must be base64.
pub fn id_token_payload(id_token: &str) -> (res: Result<Vec<u8>, ClaimsError>)
    ensures
        match id_token_payload_text(id_token.spec_bytes()) {
            None => res matches Err(ClaimsError::Malformed),
            Some(seg) => match res {
                Ok(p) => b64url(p@) == seg,
                Err(ClaimsError::Decode(_)) => forall|p: Seq<u8>| b64url(p) != seg,
                Err(ClaimsError::Malformed) => false,
            },
        },
{
    let bytes = id_token.as_bytes();
    let first = find_byte(bytes, 46u8);
    proof {
        lemma_index_of(bytes@, 46u8);
    }
    if first >= bytes.len() {
        return Err(ClaimsError::Malformed);
    }
    let rest = vstd::slice::slice_subrange(bytes, first + 1, bytes.len());
    let second = find_byte(rest, 46u8);
    proof {
        lemma_index_of(rest@, 46u8);
        assert(rest@ =~= bytes@.skip(first + 1));
    }
    let seg = vstd::slice::slice_subrange(rest, 0, second);
    proof {
        if second < rest@.len() {
            assert(seg@ =~= rest@.take(second as int));
        } else {
            assert(seg@ =~= rest@);
        }
    }
    match b64url_decode(seg) {
        Ok(p) => Ok(p),
        Err(e) => Err(ClaimsError::Decode(e)),
    }
}

/// What `/auth/me` answers for a verified session user, or for none.
pub fn handle_me(session_user: Option<String>, node_id: &String) -> (res: MeResponse)
    ensures
        res.node_id@ == node_id@,
        res.logged_in == session_user is Some,
        match session_user {
            Some(u) => res.user_hash@ == u@,
            None => res.user_hash@ == Seq::<char>::empty(),
        },
{
    match session_user {
        Some(user_hash) => MeResponse { user_hash, node_id: node_id.clone(), logged_in: true },
        None => MeResponse { user_hash: String::new(), node_id: node_id.clone(), logged_in: false },
    }
}

/// Deletes all of a user's data by tombstoning every row at `now` on
/// `node`, so that the deletion replicates to the user's other devices.
pub fn delete_my_data_at(store: &mut TodoStore, now: i64, node_id: &String)
    ensures
        final(store)@ == all_tombstoned(old(store)@, now as int, node_id@),
{
    store.tombstone_all(now, node_id);
}

/// Deletes all of a user's data by tombstoning every row, stamped with the
/// current time (or, when the clock is not ahead of every row, one
/// millisecond after the latest row) and this node, so that each tombstone
/// supersedes the row it replaces wherever it is merged; a clock set before
/// the epoch refuses the write and changes nothing.
pub fn delete_my_data(store: &mut TodoStore, node_id: &String) -> (res: Result<(), ClockBeforeEpoch>)
    ensures
        match res {
            Ok(()) => exists|at: i64|
                final(store)@ == #[trigger] all_tombstoned(old(store)@, at as int, node_id@),
            Err(_) => final(store)@ == old(store)@,
        },
        res is Ok ==> forall|k: Seq<char>|
            #[trigger] old(store)@.contains_key(k) && old(store)@[k].updated_at < i64::MAX ==> supersedes(
                final(store)@[k],
                old(store)@[k],
            ),
{
    let clock = match now() {
        Some(t) => t,
        None => {
            return Err(ClockBeforeEpoch);
        },
    };
    let at = next_stamp(clock, store.latest_update());
    delete_my_data_at(store, at, node_id);
    assert(store@ == all_tombstoned(old(store)@, at as int, node_id@));
    Ok(())
}

} // verus!
