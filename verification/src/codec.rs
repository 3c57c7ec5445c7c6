//! Hex and URL-safe base64 text, each stated exactly and computed by its crate.

use vstd::prelude::*;
use crate::text::{ascii_bytes, ascii_chars};
use base64::Engine;

verus! {

/// The lowercase hex digit for a value below 16.
pub open spec fn hex_digit(v: int) -> u8 {
    if v < 10 {
        (48 + v) as u8
    } else {
        (87 + v) as u8
    }
}

/// Lowercase hex text of bytes, high nibble first.
pub open spec fn hex_lower(b: Seq<u8>) -> Seq<u8> {
    Seq::new(
        2 * b.len(),
        |i: int|
            if i % 2 == 0 {
                hex_digit(b[i / 2] as int / 16)
            } else {
                hex_digit(b[i / 2] as int % 16)
            },
    )
}

/// The value of a hex digit of either case.
pub open spec fn hex_value(c: u8) -> Option<int> {
    if 48 <= c <= 57 {
        Some(c - 48)
    } else if 65 <= c <= 70 {
        Some(c - 55)
    } else if 97 <= c <= 102 {
        Some(c - 87)
    } else {
        None
    }
}

/// What `hex::decode` gives for some text: the bytes when the length is even
/// and every character is a hex digit.
pub open spec fn hex_decoded(s: Seq<u8>) -> Option<Seq<u8>> {
    if s.len() % 2 == 0 && forall|i: int| 0 <= i < s.len() ==> #[trigger] hex_value(s[i]) is Some {
        Some(
            Seq::new(
                (s.len() / 2) as nat,
                |i: int| (hex_value(s[2 * i])->0 * 16 + hex_value(s[2 * i + 1])->0) as u8,
            ),
        )
    } else {
        None
    }
}

/// `hex::encode`: lowercase hex text, two digits per byte.
#[verifier::external_body]
pub(crate) fn hex_encode(data: &[u8]) -> (res: String)
    ensures
        res@ == ascii_chars(hex_lower(data@)),
{
    hex::encode(data)
}

/// `hex::decode`: the bytes of even-length hex text of either case; any
/// other text is refused.
#[verifier::external_body]
pub(crate) fn hex_decode(text: &[u8]) -> (res: Option<Vec<u8>>)
    ensures
        match res {
            Some(v) => hex_decoded(text@) == Some(v@),
            None => hex_decoded(text@) is None,
        },
{
    hex::decode(text).ok()
}

pub proof fn lemma_hex_lower_ascii(b: Seq<u8>)
    ensures
        ascii_bytes(hex_lower(b)),
        hex_lower(b).len() == 2 * b.len(),
        forall|i: int| 0 <= i < hex_lower(b).len() ==> hex_value(#[trigger] hex_lower(b)[i]) is Some,
{
}

/// Hex decoding undoes hex encoding.
pub proof fn lemma_hex_round_trip(b: Seq<u8>)
    ensures
        hex_decoded(hex_lower(b)) == Some(b),
{
    let s = hex_lower(b);
    lemma_hex_lower_ascii(b);
    assert(s.len() % 2 == 0);
    let d = Seq::new(
        (s.len() / 2) as nat,
        |i: int| (hex_value(s[2 * i])->0 * 16 + hex_value(s[2 * i + 1])->0) as u8,
    );
    assert forall|i: int| 0 <= i < b.len() implies d[i] == b[i] by {
        assert(s[2 * i] == hex_digit(b[i] as int / 16));
        assert(s[2 * i + 1] == hex_digit(b[i] as int % 16));
        assert(hex_value(s[2 * i])->0 == b[i] as int / 16);
        assert(hex_value(s[2 * i + 1])->0 == b[i] as int % 16);
    }
    assert(d =~= b);
}

/// The URL-safe base64 character for a value below 64.
pub open spec fn b64_char(v: int) -> u8 {
    if v < 26 {
        (65 + v) as u8
    } else if v < 52 {
        (71 + v) as u8
    } else if v < 62 {
        (v - 4) as u8
    } else if v == 62 {
        45u8
    } else {
        95u8
    }
}

/// URL-safe base64 text of bytes without padding (RFC 4648, section 5).
pub open spec fn b64url(b: Seq<u8>) -> Seq<u8>
    decreases b.len(),
{
    if b.len() == 0 {
        seq![]
    } else if b.len() == 1 {
        let x = b[0] as int;
        seq![b64_char(x / 4), b64_char((x % 4) * 16)]
    } else if b.len() == 2 {
        let (x, y) = (b[0] as int, b[1] as int);
        seq![b64_char(x / 4), b64_char((x % 4) * 16 + y / 16), b64_char((y % 16) * 4)]
    } else {
        let (x, y, z) = (b[0] as int, b[1] as int, b[2] as int);
        seq![
            b64_char(x / 4),
            b64_char((x % 4) * 16 + y / 16),
            b64_char((y % 16) * 4 + z / 64),
            b64_char(z % 64),
        ] + b64url(b.skip(3))
    }
}

/// Bytes of the URL-safe base64 alphabet: letters, digits, `-` and `_`.
pub open spec fn b64_alphabet(c: u8) -> bool {
    (65 <= c <= 90) || (97 <= c <= 122) || (48 <= c <= 57) || c == 45 || c == 95
}

pub proof fn lemma_b64_char(v: int, w: int)
    requires
        0 <= v < 64,
        0 <= w < 64,
    ensures
        b64_alphabet(b64_char(v)),
        b64_char(v) == b64_char(w) ==> v == w,
{
}

/// The unpadded encoding has 4 characters per 3 bytes, plus 2 or 3 for a
/// partial group.
pub open spec fn b64url_len(n: nat) -> nat {
    4 * (n / 3) + if n % 3 == 0 {
        0nat
    } else if n % 3 == 1 {
        2nat
    } else {
        3nat
    }
}

pub proof fn lemma_b64url_shape(b: Seq<u8>)
    ensures
        b64url(b).len() == b64url_len(b.len()),
        forall|i: int| 0 <= i < b64url(b).len() ==> b64_alphabet(#[trigger] b64url(b)[i]),
    decreases b.len(),
{
    if b.len() >= 3 {
        let (x, y, z) = (b[0] as int, b[1] as int, b[2] as int);
        lemma_b64_char(x / 4, 0);
        lemma_b64_char((x % 4) * 16 + y / 16, 0);
        lemma_b64_char((y % 16) * 4 + z / 64, 0);
        lemma_b64_char(z % 64, 0);
        lemma_b64url_shape(b.skip(3));
        let head = seq![
            b64_char(x / 4),
            b64_char((x % 4) * 16 + y / 16),
            b64_char((y % 16) * 4 + z / 64),
            b64_char(z % 64),
        ];
        assert(b64url(b) == head + b64url(b.skip(3)));
        assert forall|i: int| 0 <= i < b64url(b).len() implies b64_alphabet(#[trigger] b64url(b)[i]) by {
            if i >= 4 {
                assert(b64url(b)[i] == b64url(b.skip(3))[i - 4]);
            }
        }
    } else if b.len() == 2 {
        let (x, y) = (b[0] as int, b[1] as int);
        lemma_b64_char(x / 4, 0);
        lemma_b64_char((x % 4) * 16 + y / 16, 0);
        lemma_b64_char((y % 16) * 4, 0);
    } else if b.len() == 1 {
        let x = b[0] as int;
        lemma_b64_char(x / 4, 0);
        lemma_b64_char((x % 4) * 16, 0);
    }
}

proof fn lemma_b64_group3(x: int, y: int, z: int, x2: int, y2: int, z2: int)
    requires
        0 <= x < 256, 0 <= y < 256, 0 <= z < 256,
        0 <= x2 < 256, 0 <= y2 < 256, 0 <= z2 < 256,
        x / 4 == x2 / 4,
        (x % 4) * 16 + y / 16 == (x2 % 4) * 16 + y2 / 16,
        (y % 16) * 4 + z / 64 == (y2 % 16) * 4 + z2 / 64,
        z % 64 == z2 % 64,
    ensures
        x == x2 && y == y2 && z == z2,
{
    assert(x == x2 && y == y2 && z == z2) by (nonlinear_arith)
        requires
            0 <= x < 256, 0 <= y < 256, 0 <= z < 256,
            0 <= x2 < 256, 0 <= y2 < 256, 0 <= z2 < 256,
            x / 4 == x2 / 4,
            (x % 4) * 16 + y / 16 == (x2 % 4) * 16 + y2 / 16,
            (y % 16) * 4 + z / 64 == (y2 % 16) * 4 + z2 / 64,
            z % 64 == z2 % 64;
}

/// Distinct byte strings have distinct encodings.
pub proof fn lemma_b64url_injective(a: Seq<u8>, b: Seq<u8>)
    requires
        b64url(a) == b64url(b),
    ensures
        a == b,
    decreases a.len(),
{
    lemma_b64url_shape(a);
    lemma_b64url_shape(b);
    assert(a.len() == b.len()) by {
        assert(b64url_len(a.len()) == b64url_len(b.len()));
        assert(a.len() == b.len()) by (nonlinear_arith)
            requires
                b64url_len(a.len()) == b64url_len(b.len()),
                b64url_len(a.len()) == 4 * (a.len() / 3) + (if a.len() % 3 == 0 { 0nat } else if a.len() % 3 == 1 { 2nat } else { 3nat }),
                b64url_len(b.len()) == 4 * (b.len() / 3) + (if b.len() % 3 == 0 { 0nat } else if b.len() % 3 == 1 { 2nat } else { 3nat });
    }
    let ea = b64url(a);
    if a.len() >= 3 {
        let (x, y, z) = (a[0] as int, a[1] as int, a[2] as int);
        let (x2, y2, z2) = (b[0] as int, b[1] as int, b[2] as int);
        lemma_b64_char(x / 4, x2 / 4);
        lemma_b64_char((x % 4) * 16 + y / 16, (x2 % 4) * 16 + y2 / 16);
        lemma_b64_char((y % 16) * 4 + z / 64, (y2 % 16) * 4 + z2 / 64);
        lemma_b64_char(z % 64, z2 % 64);
        assert(ea[0] == b64_char(x / 4));
        assert(ea[1] == b64_char((x % 4) * 16 + y / 16));
        assert(ea[2] == b64_char((y % 16) * 4 + z / 64));
        assert(ea[3] == b64_char(z % 64));
        assert(b64url(b)[0] == b64_char(x2 / 4));
        assert(b64url(b)[1] == b64_char((x2 % 4) * 16 + y2 / 16));
        assert(b64url(b)[2] == b64_char((y2 % 16) * 4 + z2 / 64));
        assert(b64url(b)[3] == b64_char(z2 % 64));
        lemma_b64_group3(x, y, z, x2, y2, z2);
        assert(b64url(a.skip(3)) =~= ea.skip(4));
        assert(b64url(b.skip(3)) =~= b64url(b).skip(4));
        lemma_b64url_injective(a.skip(3), b.skip(3));
        assert(a =~= b) by {
            assert forall|i: int| 0 <= i < a.len() implies a[i] == b[i] by {
                if i >= 3 {
                    assert(a[i] == a.skip(3)[i - 3]);
                    assert(b[i] == b.skip(3)[i - 3]);
                }
            }
        }
    } else if a.len() == 2 {
        let (x, y) = (a[0] as int, a[1] as int);
        let (x2, y2) = (b[0] as int, b[1] as int);
        lemma_b64_char(x / 4, x2 / 4);
        lemma_b64_char((x % 4) * 16 + y / 16, (x2 % 4) * 16 + y2 / 16);
        lemma_b64_char((y % 16) * 4, (y2 % 16) * 4);
        assert(ea[0] == b64url(b)[0] && ea[1] == b64url(b)[1] && ea[2] == b64url(b)[2]);
        lemma_b64_group3(x, y, 0, x2, y2, 0);
        assert(a =~= b);
    } else if a.len() == 1 {
        let x = a[0] as int;
        let x2 = b[0] as int;
        lemma_b64_char(x / 4, x2 / 4);
        lemma_b64_char((x % 4) * 16, (x2 % 4) * 16);
        assert(ea[0] == b64url(b)[0] && ea[1] == b64url(b)[1]);
        lemma_b64_group3(x, 0, 0, x2, 0, 0);
        assert(a =~= b);
    } else {
        assert(a =~= b);
    }
}

/// `URL_SAFE_NO_PAD.encode`: base64 text of the bytes, without padding.
#[verifier::external_body]
pub(crate) fn b64url_encode(data: &[u8]) -> (res: Vec<u8>)
    ensures
        res@ == b64url(data@),
{
    base64::engine::general_purpose::URL_SAFE_NO_PAD.encode(data).into_bytes()
}

#[verifier::external_type_specification]
#[verifier::external_body]
pub struct ExDecodeError(base64::DecodeError);

/// `URL_SAFE_NO_PAD.decode`: the bytes whose unpadded encoding is the text;
/// text that is no such encoding (a padding character, a character outside
/// the alphabet, a length of the form 4k+1, nonzero trailing bits) is refused.
#[verifier::external_body]
pub(crate) fn b64url_decode(text: &[u8]) -> (res: Result<Vec<u8>, base64::DecodeError>)
    ensures
        res matches Ok(v) ==> b64url(v@) == text@,
        res is Err ==> forall|v: Seq<u8>| b64url(v) != text@,
{
    base64::engine::general_purpose::URL_SAFE_NO_PAD.decode(text)
}

} // verus!
