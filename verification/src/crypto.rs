//! The cryptographic and random primitives the node relies on, each computed
//! by its crate: SHA-256, Ed25519 and fresh randomness.

use vstd::prelude::*;
use ed25519_dalek::{Signer, Verifier};
use sha2::Digest;

verus! {

/// The SHA-256 digest of some bytes.
pub uninterp spec fn sha256(data: Seq<u8>) -> Seq<u8>;

/// The Ed25519 public key that belongs to a 32-byte secret key.
pub uninterp spec fn ed25519_public_key(secret: Seq<u8>) -> Seq<u8>;

/// The Ed25519 signature of a message under a 32-byte secret key
/// (Ed25519 signing is deterministic, RFC 8032).
pub uninterp spec fn ed25519_signature(secret: Seq<u8>, msg: Seq<u8>) -> Seq<u8>;

/// Whether a signature over a message verifies under a public key.
pub uninterp spec fn ed25519_accepts(public: Seq<u8>, msg: Seq<u8>, sig: Seq<u8>) -> bool;

/// `Sha256` (new, update, finalize): the 32-byte digest of the data.
#[verifier::external_body]
pub(crate) fn sha256_digest(data: &[u8]) -> (res: Vec<u8>)
    ensures
        res@ == sha256(data@),
        res@.len() == 32,
{
    let mut h = sha2::Sha256::new();
    h.update(data);
    h.finalize().to_vec()
}

/// `SigningKey::verifying_key`: the 32-byte public key of a secret key.
#[verifier::external_body]
pub(crate) fn ed25519_public_of(secret: &[u8; 32]) -> (res: [u8; 32])
    ensures
        res@ == ed25519_public_key(secret@),
{
    ed25519_dalek::SigningKey::from_bytes(secret).verifying_key().to_bytes()
}

/// `SigningKey::sign`: the 64-byte signature of a message.
#[verifier::external_body]
pub(crate) fn ed25519_sign(secret: &[u8; 32], msg: &[u8]) -> (res: [u8; 64])
    ensures
        res@ == ed25519_signature(secret@, msg@),
{
    ed25519_dalek::SigningKey::from_bytes(secret).sign(msg).to_bytes()
}

/// `VerifyingKey::try_from(&[u8])`, `Signature::from_slice` and `verify`:
/// whether the signature verifies. A public key that is not 32 bytes (or no
/// valid key) and a signature that is not 64 bytes verify nothing. A
/// signature made with the secret key that the public key belongs to
/// always verifies.
#[verifier::external_body]
pub(crate) fn ed25519_verify(public: &[u8], msg: &[u8], sig: &[u8]) -> (ok: bool)
    ensures
        ok == (public@.len() == 32 && sig@.len() == 64 && ed25519_accepts(public@, msg@, sig@)),
        forall|secret: Seq<u8>|
            secret.len() == 32 && public@ == ed25519_public_key(secret) && sig@
                == #[trigger] ed25519_signature(secret, msg@) ==> ok,
{
    match (ed25519_dalek::VerifyingKey::try_from(public), ed25519_dalek::Signature::from_slice(sig)) {
        (Ok(vk), Ok(s)) => vk.verify(msg, &s).is_ok(),
        _ => false,
    }
}

/// `SigningKey::generate` with the operating system's generator: a fresh
/// 32-byte secret key. Nothing is stated of its value.
#[verifier::external_body]
pub(crate) fn ed25519_generate_secret() -> (res: [u8; 32]) {
    ed25519_dalek::SigningKey::generate(&mut rand::rngs::OsRng).to_bytes()
}

/// `rand::random::<u8>()`: a random byte. Nothing is stated of its value.
#[verifier::external_body]
pub(crate) fn random_byte() -> (res: u8) {
    rand::random::<u8>()
}

/// The text form of a UUID: 36 characters, hyphens at positions 8, 13, 18
/// and 23, lowercase hex digits elsewhere.
pub open spec fn uuid_text(s: Seq<char>) -> bool {
    &&& s.len() == 36
    &&& forall|i: int|
        0 <= i < 36 ==> if i == 8 || i == 13 || i == 18 || i == 23 {
            #[trigger] s[i] == '-'
        } else {
            ('0' <= s[i] <= '9') || ('a' <= s[i] <= 'f')
        }
}

/// `Uuid::new_v4().to_string()`: a random UUID in its hyphenated lowercase
/// text form. Nothing more is stated of its value.
#[verifier::external_body]
pub(crate) fn new_uuid_v4() -> (res: String)
    ensures
        uuid_text(res@),
{
    uuid::Uuid::new_v4().to_string()
}

} // verus!
