//! Words and their big-endian byte encoding.
use vstd::prelude::*;
use vstd::arithmetic::div_mod::{lemma_div_denominator, lemma_mod_breakdown};

verus! {

/// Width in bytes of one addressable cell, which is also the width of a word.
pub const CELL_SIZE: u64 = 8;

/// `256` raised to the power `n`.
pub open spec fn pow256(n: nat) -> nat
    decreases n,
{
    if n == 0 {
        1
    } else {
        256 * pow256((n - 1) as nat)
    }
}

/// The number that `s` spells in base 256, most significant byte first.
pub open spec fn be_value(s: Seq<u8>) -> nat
    decreases s.len(),
{
    if s.len() == 0 {
        0
    } else {
        be_value(s.drop_last()) * 256 + s.last() as nat
    }
}

/// The `n` low-order base-256 digits of `v`, most significant first.
pub open spec fn be_bytes(v: nat, n: nat) -> Seq<u8>
    decreases n,
{
    if n == 0 {
        Seq::empty()
    } else {
        be_bytes(v / 256, (n - 1) as nat).push((v % 256) as u8)
    }
}

/// The number of words that fit in `u64`: `256` to the width of a word.
pub proof fn lemma_pow256_cell()
    ensures
        pow256(CELL_SIZE as nat) == 0x1_0000_0000_0000_0000,
{
    reveal_with_fuel(pow256, 9);
}

/// Every power of `256` is positive.
pub proof fn lemma_pow256_pos(n: nat)
    ensures
        pow256(n) > 0,
    decreases n,
{
    if n > 0 {
        lemma_pow256_pos((n - 1) as nat);
    }
}

/// Powers of `256` grow with the exponent.
pub proof fn lemma_pow256_monotonic(a: nat, b: nat)
    requires
        a <= b,
    ensures
        pow256(a) <= pow256(b),
    decreases b,
{
    if a < b {
        lemma_pow256_monotonic(a, (b - 1) as nat);
    }
}

/// A sequence of `n` bytes spells a number below `256^n`.
pub proof fn lemma_be_value_bound(s: Seq<u8>)
    ensures
        be_value(s) < pow256(s.len()),
    decreases s.len(),
{
    if s.len() > 0 {
        lemma_be_value_bound(s.drop_last());
        let p = pow256((s.len() - 1) as nat);
        let h = be_value(s.drop_last());
        assert(h * 256 + (s.last() as nat) < 256 * p) by (nonlinear_arith)
            requires
                h < p,
                s.last() < 256,
        ;
    }
}

/// `be_bytes(v, n)` has `n` entries.
pub proof fn lemma_be_bytes_len(v: nat, n: nat)
    ensures
        be_bytes(v, n).len() == n,
    decreases n,
{
    if n > 0 {
        lemma_be_bytes_len(v / 256, (n - 1) as nat);
    }
}

/// The digit at position `k` of `be_bytes(v, n)`.
pub proof fn lemma_be_bytes_index(v: nat, n: nat, k: nat)
    requires
        k < n,
    ensures
        be_bytes(v, n).len() == n,
        be_bytes(v, n)[k as int] == ((v / pow256((n - 1 - k) as nat)) % 256) as u8,
    decreases n,
{
    lemma_be_bytes_len(v, n);
    lemma_be_bytes_len(v / 256, (n - 1) as nat);
    if k + 1 < n {
        lemma_be_bytes_index(v / 256, (n - 1) as nat, k);
        let e = (n - 2 - k) as nat;
        lemma_pow256_pos(e);
        lemma_div_denominator(v as int, 256, pow256(e) as int);
        assert(pow256((n - 1 - k) as nat) == 256 * pow256(e));
        assert(be_bytes(v, n)[k as int] == be_bytes(v / 256, (n - 1) as nat)[k as int]);
    } else {
        assert(pow256(0) == 1);
        assert(v / 1 == v);
    }
}

/// Decoding the `n`-byte big-endian encoding of `v` gives `v` modulo `256^n`.
pub proof fn lemma_be_value_of_bytes(v: nat, n: nat)
    ensures
        be_value(be_bytes(v, n)) == v % pow256(n),
    decreases n,
{
    if n == 0 {
        assert(v % 1 == 0);
    } else {
        let m = (n - 1) as nat;
        lemma_be_value_of_bytes(v / 256, m);
        lemma_be_bytes_len(v / 256, m);
        let s = be_bytes(v, n);
        assert(s.drop_last() =~= be_bytes(v / 256, m));
        lemma_pow256_pos(m);
        lemma_mod_breakdown(v as int, 256, pow256(m) as int);
        assert((256 * ((v / 256) % pow256(m))) == ((v / 256) % pow256(m)) * 256) by (nonlinear_arith);
    }
}

/// A word survives a big-endian encode and decode unchanged.
pub proof fn lemma_word_round_trip(v: u64)
    ensures
        be_bytes(v as nat, CELL_SIZE as nat).len() == CELL_SIZE,
        be_value(be_bytes(v as nat, CELL_SIZE as nat)) == v,
{
    lemma_be_bytes_len(v as nat, CELL_SIZE as nat);
    lemma_be_value_of_bytes(v as nat, CELL_SIZE as nat);
    lemma_pow256_cell();
}

/// The big-endian encoding of `v` in `CELL_SIZE` bytes.
pub fn encode_word(v: u64) -> (r: Vec<u8>)
    ensures
        r@ == be_bytes(v as nat, CELL_SIZE as nat),
{
    let mut r: Vec<u8> = Vec::new();
    let mut n: usize = 0;
    while n < 8
        invariant
            n <= 8,
            r@.len() == n,
        decreases 8 - n,
    {
        r.push(0u8);
        n = n + 1;
    }
    let ghost w = v as nat;
    let mut temp: u64 = v;
    let mut i: usize = 8;
    proof {
        lemma_be_bytes_len(w, 8);
        assert(pow256(0) == 1);
        assert(w / 1 == w);
    }
    while i > 0
        invariant
            i <= 8,
            r@.len() == 8,
            be_bytes(w, 8).len() == 8,
            temp as nat == w / pow256((8 - i) as nat),
            forall|k: int| i <= k < 8 ==> r@[k] == be_bytes(w, 8)[k],
        decreases i,
    {
        i = i - 1;
        proof {
            let e = (7 - i) as nat;
            lemma_be_bytes_index(w, 8, i as nat);
            lemma_pow256_pos(e);
            lemma_div_denominator(w as int, pow256(e) as int, 256);
            assert(pow256((8 - i) as nat) == 256 * pow256(e));
            assert(pow256(e) * 256 == 256 * pow256(e));
        }
        r.set(i, (temp % 256) as u8);
        temp = temp / 256;
    }
    assert(r@ =~= be_bytes(w, 8));
    r
}

/// The word spelled big-endian by the `CELL_SIZE` bytes of `bytes` from `start` on.
pub fn decode_word(bytes: &Vec<u8>, start: usize) -> (r: u64)
    requires
        start + CELL_SIZE <= bytes@.len(),
    ensures
        r == be_value(bytes@.subrange(start as int, start + CELL_SIZE)),
{
    let len: usize = bytes.len();
    let end: usize = start + 8;
    let mut data: u64 = 0;
    let mut i: usize = start;
    while i < end
        invariant
            start <= i <= end,
            end == start + 8,
            end <= len,
            len == bytes@.len(),
            data == be_value(bytes@.subrange(start as int, i as int)),
        decreases end - i,
    {
        let ghost next = bytes@.subrange(start as int, i + 1);
        proof {
            assert(next.drop_last() =~= bytes@.subrange(start as int, i as int));
            lemma_be_value_bound(next);
            lemma_pow256_monotonic(next.len(), 8);
            lemma_pow256_cell();
        }
        data = data * 256 + bytes[i] as u64;
        i = i + 1;
    }
    data
}

} // verus!
