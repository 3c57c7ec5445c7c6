//! Ids for new todos: a random UUID, or, when that one is taken, the first
//! free id of a counted series of UUIDs, so that creating a todo never
//! reuses an id.

use vstd::prelude::*;
use vstd::relations::injective_on;
use vstd::set_lib::{lemma_int_range, lemma_len_subset, lemma_map_size, set_int_range};
use vstd::string::StringExecFns;
use crate::codec::{hex_decoded, hex_digit, hex_encode, hex_lower, lemma_hex_round_trip};
use crate::crypto::uuid_text;
use crate::db::TodoStore;
use crate::text::{ascii_chars, lemma_ascii_chars_injective};

verus! {

/// `256` to the power `n`.
pub open spec fn pow256(n: nat) -> nat
    decreases n,
{
    if n == 0 {
        1
    } else {
        256 * pow256((n - 1) as nat)
    }
}

/// The `n` low bytes of `k`, most significant first.
pub open spec fn counter_bytes(k: nat, n: nat) -> Seq<u8>
    decreases n,
{
    if n == 0 {
        seq![]
    } else {
        counter_bytes(k / 256, (n - 1) as nat).push((k % 256) as u8)
    }
}

proof fn lemma_counter_bytes_len(k: nat, n: nat)
    ensures
        counter_bytes(k, n).len() == n,
    decreases n,
{
    if n > 0 {
        lemma_counter_bytes_len(k / 256, (n - 1) as nat);
    }
}

proof fn lemma_counter_bytes_injective(k1: nat, k2: nat, n: nat)
    requires
        counter_bytes(k1, n) == counter_bytes(k2, n),
        k1 < pow256(n),
        k2 < pow256(n),
    ensures
        k1 == k2,
    decreases n,
{
    if n > 0 {
        let m = (n - 1) as nat;
        let a = counter_bytes(k1, n);
        let b = counter_bytes(k2, n);
        assert(a.drop_last() =~= counter_bytes(k1 / 256, m));
        assert(b.drop_last() =~= counter_bytes(k2 / 256, m));
        assert(a.last() == (k1 % 256) as u8);
        assert(b.last() == (k2 % 256) as u8);
        assert(k1 % 256 == k2 % 256);
        let p = pow256(m);
        assert(k1 / 256 < p && k2 / 256 < p) by (nonlinear_arith)
            requires
                k1 < 256 * p,
                k2 < 256 * p,
        ;
        lemma_counter_bytes_injective(k1 / 256, k2 / 256, m);
    }
}

fn counter_bytes_of(k: u64, n: usize) -> (res: Vec<u8>)
    ensures
        res@ == counter_bytes(k as nat, n as nat),
    decreases n,
{
    if n == 0 {
        Vec::new()
    } else {
        let mut v = counter_bytes_of(k / 256, n - 1);
        v.push((k % 256) as u8);
        v
    }
}

/// The prefix of the counted series of ids.
pub open spec fn series_prefix() -> Seq<char> {
    "00000000-0000-4000-8000-"@
}

/// The `k`-th id of the counted series: a version-4 UUID whose last twelve
/// hex digits count.
pub open spec fn series_id(k: nat) -> Seq<char> {
    series_prefix() + ascii_chars(hex_lower(counter_bytes(k, 6)))
}

/// How many ids the series holds.
pub open spec fn series_len() -> nat {
    pow256(6)
}

proof fn lemma_series_id(k: nat)
    ensures
        uuid_text(series_id(k)),
{
    reveal_strlit("00000000-0000-4000-8000-");
    let p = series_prefix();
    lemma_counter_bytes_len(k, 6);
    let h = hex_lower(counter_bytes(k, 6));
    let s = series_id(k);
    assert(p.len() == 24);
    assert(h.len() == 12);
    assert forall|i: int| 0 <= i < 36 implies if i == 8 || i == 13 || i == 18 || i == 23 {
        #[trigger] s[i] == '-'
    } else {
        ('0' <= s[i] <= '9') || ('a' <= s[i] <= 'f')
    } by {
        if i < 24 {
            assert(s[i] == p[i]);
        } else {
            let c = counter_bytes(k, 6);
            let j = i - 24;
            assert(s[i] == h[j] as char);
            let v: int = if j % 2 == 0 { c[j / 2] as int / 16 } else { c[j / 2] as int % 16 };
            assert(h[j] == hex_digit(v));
            assert(0 <= v < 16);
        }
    }
}

proof fn lemma_series_injective(k1: nat, k2: nat)
    requires
        k1 < series_len(),
        k2 < series_len(),
        series_id(k1) == series_id(k2),
    ensures
        k1 == k2,
{
    let p = series_prefix();
    let a = ascii_chars(hex_lower(counter_bytes(k1, 6)));
    let b = ascii_chars(hex_lower(counter_bytes(k2, 6)));
    assert(series_id(k1).skip(p.len() as int) =~= a);
    assert(series_id(k2).skip(p.len() as int) =~= b);
    lemma_ascii_chars_injective(hex_lower(counter_bytes(k1, 6)), hex_lower(counter_bytes(k2, 6)));
    lemma_hex_round_trip(counter_bytes(k1, 6));
    lemma_hex_round_trip(counter_bytes(k2, 6));
    assert(hex_decoded(hex_lower(counter_bytes(k1, 6))) == hex_decoded(hex_lower(counter_bytes(k2, 6))));
    lemma_counter_bytes_injective(k1, k2, 6);
}

/// A set of `n` ids misses one of the first `n + 1` ids of the series.
proof fn lemma_series_not_all_taken(taken: Set<Seq<char>>, n: nat)
    requires
        taken.finite(),
        taken.len() == n,
        n < series_len(),
    ensures
        exists|j: nat| j <= n && !taken.contains(#[trigger] series_id(j)),
{
    if forall|j: nat| j <= n ==> taken.contains(#[trigger] series_id(j)) {
        let x = set_int_range(0, (n + 1) as int);
        lemma_int_range(0, (n + 1) as int);
        let f = |k: int| series_id(k as nat);
        let y = x.map(f);
        assert(injective_on(f, x)) by {
            assert forall|a: int, b: int| x.contains(a) && x.contains(b) && #[trigger] f(a) == #[trigger] f(b) implies a
                == b by {
                lemma_series_injective(a as nat, b as nat);
            }
        }
        lemma_map_size(x, y, f);
        assert(y.subset_of(taken)) by {
            assert forall|s: Seq<char>| y.contains(s) implies taken.contains(s) by {
                let k = choose|k: int| x.contains(k) && s == f(k);
                assert(taken.contains(series_id(k as nat)));
            }
        }
        lemma_len_subset(y, taken);
    }
}

/// The `k`-th id of the counted series.
fn series_id_of(k: u64) -> (res: String)
    ensures
        res@ == series_id(k as nat),
{
    let bytes = counter_bytes_of(k, 6);
    let mut s = "00000000-0000-4000-8000-".to_owned();
    let digits = hex_encode(bytes.as_slice());
    s.append(digits.as_str());
    s
}

/// A UUID that is no id of the store: the first free id of the counted
/// series. There is none only for a store of at least `series_len()` rows.
pub fn free_series_id(store: &TodoStore) -> (res: Option<String>)
    ensures
        res matches Some(id) ==> uuid_text(id@) && !store@.contains_key(id@),
        res is None ==> store@.dom().len() >= series_len(),
{
    let n = store.row_count();
    if n as u64 >= 0x1000000000000u64 {
        proof {
            reveal_with_fuel(pow256, 7);
        }
        return None;
    }
    proof {
        reveal_with_fuel(pow256, 7);
    }
    let mut k: u64 = 0;
    while k <= n as u64
        invariant
            n as nat == store@.dom().len(),
            store@.dom().finite(),
            n < 0x1000000000000,
            series_len() == 0x1000000000000,
            forall|j: nat| j < k ==> store@.contains_key(#[trigger] series_id(j)),
        decreases n as u64 + 1 - k,
    {
        let candidate = series_id_of(k);
        if store.updated_at_of(&candidate).is_none() {
            proof {
                lemma_series_id(k as nat);
            }
            return Some(candidate);
        }
        k = k + 1;
    }
    proof {
        lemma_series_not_all_taken(store@.dom(), n as nat);
        let j = choose|j: nat| j <= n && !store@.contains_key(#[trigger] series_id(j));
        assert(store@.contains_key(series_id(j)));
    }
    None
}

} // verus!
