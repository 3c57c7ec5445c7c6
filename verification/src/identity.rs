//! The node's identity: its Ed25519 key, the fingerprint that names it,
//! the session tokens it signs, and URL encoding of query values.

use vstd::prelude::*;
use vstd::utf8::*;
use vstd::string::{StrSliceExecFns, StringSliceAdditionalSpecFns};
use crate::codec::{
    b64_alphabet, b64url, b64url_decode, b64url_encode, hex_encode, hex_lower, hex_value,
    lemma_b64url_injective, lemma_b64url_shape,
};
use crate::crypto::{
    ed25519_accepts, ed25519_generate_secret, ed25519_public_key, ed25519_public_of,
    ed25519_sign, ed25519_signature, ed25519_verify, sha256, sha256_digest,
};
use crate::text::{
    ascii_bytes, ascii_chars, ascii_string, decimal, decimal_bytes, extend_bytes, find_byte,
    find_char, index_of, lemma_ascii_utf8, lemma_index_of, split_once,
};

verus! {

broadcast use vstd::utf8::group_utf8_lib;

/// The node's Ed25519 secret key.
pub struct NodeKey {
    secret: [u8; 32],
}

impl NodeKey {
    /// The 32 bytes of the secret key.
    pub closed spec fn secret(&self) -> Seq<u8> {
        self.secret@
    }

    pub proof fn lemma_secret_len(&self)
        ensures
            self.secret().len() == 32,
    {
    }

    /// A key from its 32 stored bytes; other lengths give none.
    pub fn from_secret_bytes(bytes: &[u8]) -> (res: Option<NodeKey>)
        ensures
            res is Some <==> bytes@.len() == 32,
            res matches Some(k) ==> k.secret() == bytes@,
    {
        if bytes.len() != 32 {
            return None;
        }
        let mut secret = [0u8; 32];
        let mut i: usize = 0;
        while i < 32
            invariant
                bytes@.len() == 32,
                i <= 32,
                secret@.len() == 32,
                forall|j: int| 0 <= j < i ==> secret@[j] == bytes@[j],
            decreases 32 - i,
        {
            secret[i] = bytes[i];
            i = i + 1;
        }
        assert(secret@ =~= bytes@);
        Some(NodeKey { secret })
    }

    /// A fresh key from the operating system's generator.
    pub fn generate() -> (res: NodeKey) {
        NodeKey { secret: ed25519_generate_secret() }
    }

    /// The bytes to store the key with.
    pub fn to_secret_bytes(&self) -> (res: Vec<u8>)
        ensures
            res@ == self.secret(),
    {
        let mut out: Vec<u8> = Vec::new();
        extend_bytes(&mut out, self.secret.as_slice());
        out
    }

    /// The 32-byte public key.
    pub fn public_key(&self) -> (res: [u8; 32])
        ensures
            res@ == ed25519_public_key(self.secret()),
    {
        ed25519_public_of(&self.secret)
    }

    /// The 64-byte signature of a message.
    pub fn sign(&self, msg: &[u8]) -> (res: [u8; 64])
        ensures
            res@ == ed25519_signature(self.secret(), msg@),
    {
        ed25519_sign(&self.secret, msg)
    }
}

/// The key read back from storage when it holds exactly 32 bytes, or else
/// a fresh key; the flag tells that the fresh key must be stored.
pub fn load_or_generate_signing_key(stored: Option<Vec<u8>>) -> (res: (NodeKey, bool))
    ensures
        match stored {
            Some(b) => b@.len() == 32 ==> res.0.secret() == b@ && !res.1,
            None => true,
        },
        res.1 <==> !(stored matches Some(b) && b@.len() == 32),
{
    if let Some(bytes) = stored {
        if let Some(key) = NodeKey::from_secret_bytes(bytes.as_slice()) {
            return (key, false);
        }
    }
    (NodeKey::generate(), true)
}

/// Lowercase hex of the SHA-256 digest of a public key: the node's id.
pub fn pubkey_fingerprint(vk: &[u8; 32]) -> (res: String)
    ensures
        res@ == ascii_chars(hex_lower(sha256(vk@))),
        res@.len() == 64,
{
    let digest = sha256_digest(vk.as_slice());
    hex_encode(digest.as_slice())
}

/// Bytes that URL encoding leaves as they are.
pub open spec fn unreserved(b: u8) -> bool {
    (65 <= b <= 90) || (97 <= b <= 122) || (48 <= b <= 57) || b == 45 || b == 95 || b == 46
        || b == 126
}

/// The uppercase hex digit for a value below 16.
pub open spec fn hex_upper_digit(v: int) -> u8 {
    if v < 10 {
        (48 + v) as u8
    } else {
        (55 + v) as u8
    }
}

/// One byte, URL encoded: itself when unreserved, else `%XX`.
pub open spec fn percent_encoded(b: u8) -> Seq<u8> {
    if unreserved(b) {
        seq![b]
    } else {
        seq![37u8, hex_upper_digit(b as int / 16), hex_upper_digit(b as int % 16)]
    }
}

/// Bytes URL encoded one by one.
pub open spec fn url_encoded(bs: Seq<u8>) -> Seq<u8>
    decreases bs.len(),
{
    if bs.len() == 0 {
        seq![]
    } else {
        url_encoded(bs.drop_last()) + percent_encoded(bs.last())
    }
}

/// Percent-encodes the UTF-8 bytes of a string for use in a query.
pub fn urlencoding_encode(s: &str) -> (res: String)
    ensures
        res@ == ascii_chars(url_encoded(s.spec_bytes())),
{
    let bytes = s.as_bytes();
    let mut out: Vec<u8> = Vec::new();
    let mut i: usize = 0;
    while i < bytes.len()
        invariant
            i <= bytes@.len(),
            out@ == url_encoded(bytes@.take(i as int)),
            ascii_bytes(out@),
        decreases bytes@.len() - i,
    {
        let b = bytes[i];
        let ghost prev = out@;
        if (b >= 65 && b <= 90) || (b >= 97 && b <= 122) || (b >= 48 && b <= 57) || b == 45 || b
            == 95 || b == 46 || b == 126 {
            out.push(b);
        } else {
            let hi = b / 16;
            let lo = b % 16;
            out.push(37u8);
            out.push(if hi < 10 { 48u8 + hi } else { 55u8 + hi });
            out.push(if lo < 10 { 48u8 + lo } else { 55u8 + lo });
        }
        assert(bytes@.take(i + 1).drop_last() =~= bytes@.take(i as int));
        assert(out@ =~= prev + percent_encoded(b));
        i = i + 1;
    }
    assert(bytes@.take(bytes@.len() as int) =~= bytes@);
    ascii_string(out)
}

/// How many bytes URL encoding turns into `%XX`.
pub open spec fn reserved_count(bs: Seq<u8>) -> nat
    decreases bs.len(),
{
    if bs.len() == 0 {
        0
    } else {
        reserved_count(bs.drop_last()) + if unreserved(bs.last()) {
            0nat
        } else {
            1nat
        }
    }
}

/// Percent-decoding: `%` and two hex digits give the byte they spell; any
/// other byte stands for itself.
pub open spec fn url_decoded(s: Seq<u8>) -> Seq<u8>
    decreases s.len(),
{
    if s.len() == 0 {
        seq![]
    } else if s[0] == 37u8 && s.len() >= 3 && hex_value(s[1]) is Some && hex_value(s[2]) is Some {
        seq![(hex_value(s[1])->0 * 16 + hex_value(s[2])->0) as u8] + url_decoded(s.skip(3))
    } else {
        seq![s[0]] + url_decoded(s.skip(1))
    }
}

/// URL encoding grows the text by two bytes for each byte it escapes.
pub proof fn law_url_encoded_len(bs: Seq<u8>)
    ensures
        url_encoded(bs).len() == bs.len() + 2 * reserved_count(bs),
    decreases bs.len(),
{
    if bs.len() > 0 {
        law_url_encoded_len(bs.drop_last());
    }
}

proof fn lemma_url_encoded_concat(a: Seq<u8>, b: Seq<u8>)
    ensures
        url_encoded(a + b) == url_encoded(a) + url_encoded(b),
    decreases b.len(),
{
    if b.len() == 0 {
        assert(a + b =~= a);
        assert(url_encoded(a) + url_encoded(b) =~= url_encoded(a));
    } else {
        assert((a + b).drop_last() =~= a + b.drop_last());
        assert((a + b).last() == b.last());
        lemma_url_encoded_concat(a, b.drop_last());
        assert(url_encoded(a + b) =~= url_encoded(a) + url_encoded(b));
    }
}

/// Percent-decoding undoes URL encoding.
pub proof fn law_url_decode_round_trip(bs: Seq<u8>)
    ensures
        url_decoded(url_encoded(bs)) == bs,
    decreases bs.len(),
{
    if bs.len() > 0 {
        let x = bs[0];
        let rest = bs.skip(1);
        assert(bs =~= seq![x] + rest);
        lemma_url_encoded_concat(seq![x], rest);
        assert(seq![x].drop_last() =~= Seq::<u8>::empty());
        assert(url_encoded(Seq::<u8>::empty()) == Seq::<u8>::empty());
        assert(seq![x].last() == x);
        assert(url_encoded(seq![x]) =~= url_encoded(seq![x].drop_last()) + percent_encoded(x));
        assert(url_encoded(seq![x]) =~= percent_encoded(x));
        let e = url_encoded(bs);
        law_url_decode_round_trip(rest);
        if unreserved(x) {
            assert(e.skip(1) =~= url_encoded(rest));
            assert(url_decoded(e) =~= seq![x] + rest);
        } else {
            let hi = x as int / 16;
            let lo = x as int % 16;
            assert(hex_value(hex_upper_digit(hi)) == Some(hi));
            assert(hex_value(hex_upper_digit(lo)) == Some(lo));
            assert(e.skip(3) =~= url_encoded(rest));
            assert((hi * 16 + lo) as u8 == x);
            assert(url_decoded(e) =~= seq![x] + rest);
        }
    }
}

pub proof fn lemma_encode_utf8_concat(a: Seq<char>, b: Seq<char>)
    ensures
        encode_utf8(a + b) == encode_utf8(a) + encode_utf8(b),
    decreases a.len(),
{
    if a.len() > 0 {
        assert((a + b).drop_first() =~= a.drop_first() + b);
        lemma_encode_utf8_concat(a.drop_first(), b);
    } else {
        assert(a + b =~= b);
    }
}

/// What a session token signs: the user hash, `:`, and the time it was issued.
pub open spec fn session_payload(user_hash: Seq<char>, at: int) -> Seq<u8> {
    encode_utf8(user_hash + seq![':'] + ascii_chars(decimal(at)))
}

/// A session token: the payload and its signature, each in URL-safe base64,
/// joined by `.`.
pub open spec fn session_token(secret: Seq<u8>, user_hash: Seq<char>, at: int) -> Seq<u8> {
    let p = session_payload(user_hash, at);
    b64url(p) + seq![46u8] + b64url(ed25519_signature(secret, p))
}

/// The user a session cookie vouches for: the payload and signature must
/// decode, the signature must verify under the public key, and the payload
/// must be UTF-8 text; the user is the text before its first `:`.
pub open spec fn session_user(cookie: Seq<u8>, public: Seq<u8>) -> Option<Seq<char>> {
    let (p64, rest) = split_once(cookie, 46u8);
    match rest {
        None => None,
        Some(s64) => if (exists|p: Seq<u8>| b64url(p) == p64) && (exists|s: Seq<u8>| b64url(s) == s64) {
            let p = choose|p: Seq<u8>| b64url(p) == p64;
            let s = choose|s: Seq<u8>| b64url(s) == s64;
            if public.len() == 32 && s.len() == 64 && ed25519_accepts(public, p, s) && valid_utf8(p) {
                let text = decode_utf8(p);
                Some(text.take(index_of(text, ':')))
            } else {
                None
            }
        } else {
            None
        },
    }
}

proof fn lemma_session_token_ascii(secret: Seq<u8>, user_hash: Seq<char>, at: int)
    ensures
        ascii_bytes(session_token(secret, user_hash, at)),
        index_of(session_token(secret, user_hash, at), 46u8) == b64url(session_payload(user_hash, at)).len(),
{
    let p = session_payload(user_hash, at);
    let a = b64url(p);
    let c = b64url(ed25519_signature(secret, p));
    let t = session_token(secret, user_hash, at);
    lemma_b64url_shape(p);
    lemma_b64url_shape(ed25519_signature(secret, p));
    assert forall|i: int| 0 <= i < t.len() implies #[trigger] t[i] < 128 by {
        if i < a.len() {
            assert(t[i] == a[i]);
        } else if i > a.len() {
            assert(t[i] == c[i - a.len() - 1]);
        }
    }
    lemma_index_of(t, 46u8);
    assert(t[a.len() as int] == 46u8);
    if index_of(t, 46u8) < a.len() {
        let i = index_of(t, 46u8);
        assert(t[i] == a[i]);
        assert(b64_alphabet(a[i]));
    }
}

/// Signs a session for a user at a time, as a cookie value.
pub fn issue_session(key: &NodeKey, user_hash: &String, at: i64) -> (res: String)
    ensures
        res@ == ascii_chars(session_token(key.secret(), user_hash@, at as int)),
{
    let digits = decimal_bytes(at);
    let mut payload: Vec<u8> = Vec::new();
    extend_bytes(&mut payload, user_hash.as_str().as_bytes());
    payload.push(58u8);
    extend_bytes(&mut payload, digits.as_slice());
    proof {
        let d = decimal(at as int);
        lemma_decimal_ascii(at as int);
        lemma_ascii_utf8(d);
        lemma_encode_utf8_concat(user_hash@, seq![':']);
        lemma_encode_utf8_concat(user_hash@ + seq![':'], ascii_chars(d));
        lemma_ascii_utf8(seq![58u8]);
        assert(ascii_chars(seq![58u8]) =~= seq![':']);
        assert(encode_utf8(seq![':']) =~= seq![58u8]);
        assert(payload@ =~= session_payload(user_hash@, at as int));
    }
    let sig = key.sign(payload.as_slice());
    let mut token = b64url_encode(payload.as_slice());
    token.push(46u8);
    let sig_text = b64url_encode(sig.as_slice());
    extend_bytes(&mut token, sig_text.as_slice());
    proof {
        lemma_session_token_ascii(key.secret(), user_hash@, at as int);
        assert(token@ =~= session_token(key.secret(), user_hash@, at as int));
    }
    ascii_string(token)
}

pub proof fn lemma_decimal_ascii(i: int)
    ensures
        ascii_bytes(decimal(i)),
        forall|j: int| 0 <= j < decimal(i).len() ==> #[trigger] decimal(i)[j] != 58u8,
{
    lemma_decimal_nat_digits(if i < 0 { -i } else { i });
}

proof fn lemma_decimal_nat_digits(n: int)
    requires
        n >= 0,
    ensures
        forall|j: int| 0 <= j < crate::text::decimal_nat(n as nat).len() ==> 48 <= #[trigger] crate::text::decimal_nat(n as nat)[j] <= 57,
    decreases n,
{
    if n >= 10 {
        lemma_decimal_nat_digits(n / 10);
        let d = crate::text::decimal_nat(n as nat);
        let h = crate::text::decimal_nat((n / 10) as nat);
        assert forall|j: int| 0 <= j < d.len() implies 48 <= #[trigger] d[j] <= 57 by {
            if j < h.len() {
                assert(d[j] == h[j]);
            }
        }
    }
}

/// Facts about a cookie whose text is a session token.
proof fn lemma_cookie_is_token(bytes: Seq<u8>, chars: Seq<char>, secret: Seq<u8>, user_hash: Seq<char>, at: int)
    requires
        bytes == encode_utf8(chars),
        chars == ascii_chars(session_token(secret, user_hash, at)),
    ensures
        ({
            let t = session_token(secret, user_hash, at);
            let p = session_payload(user_hash, at);
            let i = index_of(t, 46u8);
            &&& bytes == t
            &&& 0 <= i < t.len()
            &&& t.take(i) == b64url(p)
            &&& t.skip(i + 1) == b64url(ed25519_signature(secret, p))
        }),
{
    let t = session_token(secret, user_hash, at);
    let p = session_payload(user_hash, at);
    lemma_session_token_ascii(secret, user_hash, at);
    lemma_ascii_utf8(t);
    let a = b64url(p);
    assert(t.take(a.len() as int) =~= a);
    assert(t.skip((a.len() + 1) as int) =~= b64url(ed25519_signature(secret, p)));
}

/// The payload of a session token decodes to the user it names.
proof fn lemma_payload_user(user_hash: Seq<char>, at: int)
    requires
        !user_hash.contains(':'),
    ensures
        valid_utf8(session_payload(user_hash, at)),
        ({
            let text = decode_utf8(session_payload(user_hash, at));
            text.take(index_of(text, ':')) == user_hash
        }),
{
    let text = user_hash + seq![':'] + ascii_chars(decimal(at));
    assert(decode_utf8(session_payload(user_hash, at)) == text);
    lemma_index_of(text, ':');
    let i = index_of(text, ':');
    let n = user_hash.len() as int;
    assert(text[n] == ':');
    if i < n {
        assert(text[i] == user_hash[i]);
        assert(user_hash.contains(text[i]));
    }
    assert(i == n);
    assert(text.take(i) =~= user_hash);
}

/// The user hash a session cookie carries, when the cookie's signature
/// verifies under this node's key; a cookie this node issued gives back the
/// user it was issued for.
pub fn verify_session(cookie: Option<&str>, key: &NodeKey) -> (res: Option<String>)
    ensures
        match cookie {
            None => res is None,
            Some(c) => match session_user(c.spec_bytes(), ed25519_public_key(key.secret())) {
                None => res is None,
                Some(u) => res matches Some(r) && r@ == u,
            },
        },
        forall|user_hash: Seq<char>, at: int|
            (cookie matches Some(c) && c@ == ascii_chars(#[trigger] session_token(key.secret(), user_hash, at))
                && !user_hash.contains(':')) ==> (res matches Some(r) && r@ == user_hash),
{
    proof {
        key.lemma_secret_len();
    }
    let c = match cookie {
        Some(c) => c,
        None => {
            return None;
        },
    };
    let secret = Ghost(key.secret());
    let bytes = c.as_bytes();
    let dot = find_byte(bytes, 46u8);
    proof {
        lemma_index_of(bytes@, 46u8);
    }
    if dot >= bytes.len() {
        proof {
            assert forall|user_hash: Seq<char>, at: int|
                c@ == ascii_chars(#[trigger] session_token(secret@, user_hash, at)) && !user_hash.contains(':')
                implies false by {
                lemma_cookie_is_token(bytes@, c@, secret@, user_hash, at);
            }
        }
        return None;
    }
    let public = key.public_key();
    let payload = match b64url_decode(vstd::slice::slice_subrange(bytes, 0, dot)) {
        Ok(p) => p,
        Err(_) => {
            proof {
                assert forall|user_hash: Seq<char>, at: int|
                    c@ == ascii_chars(#[trigger] session_token(secret@, user_hash, at)) && !user_hash.contains(':')
                    implies false by {
                    lemma_cookie_is_token(bytes@, c@, secret@, user_hash, at);
                    assert(bytes@.subrange(0, dot as int) =~= bytes@.take(dot as int));
                    assert(b64url(session_payload(user_hash, at)) == bytes@.take(dot as int));
                }
            }
            return None;
        },
    };
    let sig = match b64url_decode(vstd::slice::slice_subrange(bytes, dot + 1, bytes.len())) {
        Ok(s) => s,
        Err(_) => {
            proof {
                assert forall|user_hash: Seq<char>, at: int|
                    c@ == ascii_chars(#[trigger] session_token(secret@, user_hash, at)) && !user_hash.contains(':')
                    implies false by {
                    lemma_cookie_is_token(bytes@, c@, secret@, user_hash, at);
                    assert(bytes@.subrange(dot + 1, bytes@.len() as int) =~= bytes@.skip(dot + 1));
                    let p = session_payload(user_hash, at);
                    assert(b64url(ed25519_signature(secret@, p)) == bytes@.skip(dot + 1));
                }
            }
            return None;
        },
    };
    proof {
        assert(bytes@.subrange(0, dot as int) =~= bytes@.take(dot as int));
        assert(bytes@.subrange(dot + 1, bytes@.len() as int) =~= bytes@.skip(dot + 1));
        let p64 = bytes@.take(dot as int);
        let s64 = bytes@.skip(dot + 1);
        let p = choose|p: Seq<u8>| b64url(p) == p64;
        let s = choose|s: Seq<u8>| b64url(s) == s64;
        lemma_b64url_injective(p, payload@);
        lemma_b64url_injective(s, sig@);
    }
    let ok = ed25519_verify(public.as_slice(), payload.as_slice(), sig.as_slice());
    proof {
        assert forall|user_hash: Seq<char>, at: int|
            c@ == ascii_chars(#[trigger] session_token(secret@, user_hash, at)) && !user_hash.contains(':')
            implies ok && payload@ == session_payload(user_hash, at) by {
            lemma_cookie_is_token(bytes@, c@, secret@, user_hash, at);
            let p = session_payload(user_hash, at);
            lemma_b64url_injective(p, payload@);
            lemma_b64url_injective(ed25519_signature(secret@, p), sig@);
            assert(sig@ == ed25519_signature(secret@, payload@));
        }
    }
    if !ok {
        return None;
    }
    let ghost pv = payload@;
    let text = match crate::text::string_from_utf8(payload) {
        Some(t) => t,
        None => {
            proof {
                assert forall|user_hash: Seq<char>, at: int|
                    c@ == ascii_chars(#[trigger] session_token(secret@, user_hash, at)) && !user_hash.contains(':')
                    implies false by {
                    lemma_payload_user(user_hash, at);
                }
            }
            return None;
        },
    };
    let cut = find_char(text.as_str(), ':');
    let user = text.as_str().substring_char(0, cut).to_owned();
    proof {
        assert(text@.take(cut as int) =~= text@.subrange(0, cut as int));
        assert forall|user_hash: Seq<char>, at: int|
            c@ == ascii_chars(#[trigger] session_token(secret@, user_hash, at)) && !user_hash.contains(':')
            implies user@ == user_hash by {
            lemma_payload_user(user_hash, at);
        }
    }
    Some(user)
}

} // verus!
