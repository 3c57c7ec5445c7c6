//! Byte-level text helpers: decimal rendering of integers, the byte-wise
//! lexicographic order that SQLite's BINARY collation uses, and ASCII strings.

use vstd::prelude::*;
use vstd::utf8::*;
use vstd::string::StrSliceExecFns;

verus! {

broadcast use vstd::utf8::group_utf8_lib;

/// Decimal digits of a natural number, most significant first.
pub open spec fn decimal_nat(n: nat) -> Seq<u8>
    decreases n,
{
    if n < 10 {
        seq![(48 + n) as u8]
    } else {
        decimal_nat(n / 10).push((48 + n % 10) as u8)
    }
}

/// The decimal text of an integer, with a leading `-` when negative.
pub open spec fn decimal(i: int) -> Seq<u8> {
    if i < 0 {
        seq![45u8] + decimal_nat((-i) as nat)
    } else {
        decimal_nat(i as nat)
    }
}

/// Strict byte-wise lexicographic order: a proper prefix is smaller.
pub open spec fn lex_lt(a: Seq<u8>, b: Seq<u8>) -> bool
    decreases a.len(),
{
    if b.len() == 0 {
        false
    } else if a.len() == 0 {
        true
    } else if a[0] != b[0] {
        a[0] < b[0]
    } else {
        lex_lt(a.drop_first(), b.drop_first())
    }
}

/// Every byte is below 128.
pub open spec fn ascii_bytes(b: Seq<u8>) -> bool {
    forall|i: int| 0 <= i < b.len() ==> #[trigger] b[i] < 128
}

/// The characters that ASCII bytes stand for.
pub open spec fn ascii_chars(b: Seq<u8>) -> Seq<char> {
    b.map_values(|x: u8| x as char)
}

fn push_decimal(m: u64, out: &mut Vec<u8>)
    ensures
        final(out)@ == old(out)@ + decimal_nat(m as nat),
    decreases m,
{
    if m < 10 {
        out.push(48u8 + m as u8);
    } else {
        push_decimal(m / 10, out);
        out.push(48u8 + (m % 10) as u8);
    }
}

/// Renders an `i64` in decimal, as SQLite and `Display` do.
pub fn decimal_bytes(x: i64) -> (res: Vec<u8>)
    ensures
        res@ == decimal(x as int),
{
    let mut out: Vec<u8> = Vec::new();
    if x < 0 {
        out.push(45u8);
        let wide: i128 = x as i128;
        let m: u64 = (0i128 - wide) as u64;
        push_decimal(m, &mut out);
    } else {
        push_decimal(x as u64, &mut out);
    }
    out
}

/// Appends bytes to a buffer.
pub fn extend_bytes(v: &mut Vec<u8>, s: &[u8])
    ensures
        final(v)@ == old(v)@ + s@,
{
    let mut i: usize = 0;
    while i < s.len()
        invariant
            i <= s@.len(),
            v@ == old(v)@ + s@.take(i as int),
        decreases s@.len() - i,
    {
        v.push(s[i]);
        assert(s@.take(i + 1) =~= s@.take(i as int).push(s@[i as int]));
        i = i + 1;
    }
    assert(s@.take(s@.len() as int) =~= s@);
}

/// Compares two byte strings in the order that SQLite uses for text.
pub fn bytes_lt(a: &[u8], b: &[u8]) -> (r: bool)
    ensures
        r == lex_lt(a@, b@),
{
    let mut i: usize = 0;
    assert(a@.skip(0) =~= a@);
    assert(b@.skip(0) =~= b@);
    while i < a.len() && i < b.len()
        invariant
            i <= a@.len(),
            i <= b@.len(),
            lex_lt(a@, b@) == lex_lt(a@.skip(i as int), b@.skip(i as int)),
        decreases a@.len() - i,
    {
        if a[i] != b[i] {
            return a[i] < b[i];
        }
        assert(a@.skip(i as int).drop_first() =~= a@.skip(i + 1));
        assert(b@.skip(i as int).drop_first() =~= b@.skip(i + 1));
        i = i + 1;
    }
    i < b.len()
}

pub proof fn lemma_lex_lt_irreflexive(a: Seq<u8>)
    ensures
        !lex_lt(a, a),
    decreases a.len(),
{
    if a.len() > 0 {
        lemma_lex_lt_irreflexive(a.drop_first());
    }
}

pub proof fn lemma_lex_lt_asymmetric(a: Seq<u8>, b: Seq<u8>)
    ensures
        lex_lt(a, b) ==> !lex_lt(b, a),
    decreases a.len(),
{
    if a.len() > 0 && b.len() > 0 && a[0] == b[0] {
        lemma_lex_lt_asymmetric(a.drop_first(), b.drop_first());
    }
}

pub proof fn lemma_lex_lt_transitive(a: Seq<u8>, b: Seq<u8>, c: Seq<u8>)
    requires
        lex_lt(a, b),
        lex_lt(b, c),
    ensures
        lex_lt(a, c),
    decreases a.len(),
{
    if a.len() > 0 && a[0] == b[0] && b[0] == c[0] {
        lemma_lex_lt_transitive(a.drop_first(), b.drop_first(), c.drop_first());
    }
}

pub proof fn lemma_lex_lt_total(a: Seq<u8>, b: Seq<u8>)
    requires
        a != b,
    ensures
        lex_lt(a, b) || lex_lt(b, a),
    decreases a.len(),
{
    if a.len() > 0 && b.len() > 0 && a[0] == b[0] {
        if a.drop_first() == b.drop_first() {
            assert(a =~= seq![a[0]] + a.drop_first());
            assert(b =~= seq![b[0]] + b.drop_first());
        }
        lemma_lex_lt_total(a.drop_first(), b.drop_first());
    } else if a.len() == 0 && b.len() == 0 {
        assert(a =~= b);
    }
}

/// Turns bytes into a `String`, as `String::from_utf8` documents.
#[verifier::external_body]
pub(crate) fn string_from_utf8(bytes: Vec<u8>) -> (res: Option<String>)
    ensures
        res is Some <==> valid_utf8(bytes@),
        res matches Some(s) ==> s@ == decode_utf8(bytes@),
{
    String::from_utf8(bytes).ok()
}

pub proof fn lemma_ascii_utf8(b: Seq<u8>)
    requires
        ascii_bytes(b),
    ensures
        encode_utf8(ascii_chars(b)) == b,
        valid_utf8(b),
        decode_utf8(b) == ascii_chars(b),
{
    let c = ascii_chars(b);
    assert(is_ascii_chars(c)) by {
        assert forall|i| 0 <= i < c.len() implies '\0' <= #[trigger] c[i] <= '\u{7f}' by {
            assert(b[i] < 128);
        }
    }
    is_ascii_chars_encode_utf8(c);
    assert forall|i| 0 <= i < b.len() implies encode_utf8(c)[i] == b[i] by {
        assert(c[i] as u8 == encode_utf8(c)[i]);
        assert(c[i] == b[i] as char);
    }
    assert(encode_utf8(c) =~= b);
}

/// Builds a `String` from ASCII bytes.
pub fn ascii_string(bytes: Vec<u8>) -> (res: String)
    requires
        ascii_bytes(bytes@),
    ensures
        res@ == ascii_chars(bytes@),
{
    proof {
        lemma_ascii_utf8(bytes@);
    }
    match string_from_utf8(bytes) {
        Some(s) => s,
        None => String::new(),
    }
}

/// Position of the first occurrence of `sep`, or the length when absent.
pub open spec fn index_of<A>(b: Seq<A>, sep: A) -> int
    decreases b.len(),
{
    if b.len() == 0 {
        0
    } else if b[0] == sep {
        0
    } else {
        1 + index_of(b.drop_first(), sep)
    }
}

pub proof fn lemma_index_of<A>(b: Seq<A>, sep: A)
    ensures
        0 <= index_of(b, sep) <= b.len(),
        index_of(b, sep) < b.len() ==> b[index_of(b, sep)] == sep,
        forall|j: int| 0 <= j < index_of(b, sep) ==> b[j] != sep,
    decreases b.len(),
{
    if b.len() > 0 && b[0] != sep {
        lemma_index_of(b.drop_first(), sep);
        let r = b.drop_first();
        assert forall|j: int| 0 <= j < index_of(b, sep) implies b[j] != sep by {
            if j > 0 {
                assert(b[j] == r[j - 1]);
            }
        }
    }
}

/// Splits at the first occurrence of `sep`: the part before it and, when
/// `sep` occurs, the part after it.
pub open spec fn split_once<A>(b: Seq<A>, sep: A) -> (Seq<A>, Option<Seq<A>>) {
    let i = index_of(b, sep);
    if i < b.len() {
        (b.take(i), Some(b.skip(i + 1)))
    } else {
        (b, None)
    }
}

/// Finds the first occurrence of `sep`.
pub fn find_byte(b: &[u8], sep: u8) -> (r: usize)
    ensures
        r == index_of(b@, sep),
{
    let mut i: usize = 0;
    assert(b@.skip(0) =~= b@);
    while i < b.len()
        invariant
            i <= b@.len(),
            index_of(b@, sep) == i + index_of(b@.skip(i as int), sep),
        decreases b@.len() - i,
    {
        if b[i] == sep {
            return i;
        }
        assert(b@.skip(i as int).drop_first() =~= b@.skip(i + 1));
        i = i + 1;
    }
    i
}

/// Finds the first occurrence of a character in a string.
pub fn find_char(s: &str, sep: char) -> (r: usize)
    ensures
        r == index_of(s@, sep),
        r <= s@.len(),
{
    let n = s.unicode_len();
    let mut i: usize = 0;
    assert(s@.skip(0) =~= s@);
    while i < n
        invariant
            n == s@.len(),
            i <= n,
            index_of(s@, sep) == i + index_of(s@.skip(i as int), sep),
        decreases n - i,
    {
        if s.get_char(i) == sep {
            return i;
        }
        assert(s@.skip(i as int).drop_first() =~= s@.skip(i + 1));
        i = i + 1;
    }
    i
}

/// Distinct bytes stand for distinct characters.
pub proof fn lemma_ascii_chars_injective(a: Seq<u8>, b: Seq<u8>)
    requires
        ascii_chars(a) == ascii_chars(b),
    ensures
        a == b,
{
    assert(a.len() == ascii_chars(a).len());
    assert(b.len() == ascii_chars(b).len());
    assert forall|i: int| 0 <= i < a.len() implies a[i] == b[i] by {
        assert(ascii_chars(a)[i] == ascii_chars(b)[i]);
        assert(ascii_chars(a)[i] == a[i] as char);
        assert(ascii_chars(b)[i] == b[i] as char);
        assert(a[i] as char == b[i] as char);
        assert((a[i] as char) as int == a[i] as int);
        assert((b[i] as char) as int == b[i] as int);
    }
    assert(a =~= b);
}

} // verus!
