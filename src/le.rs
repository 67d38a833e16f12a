//! Little-endian encoding of unsigned integers as byte sequences.
use vstd::arithmetic::div_mod::lemma_mod_breakdown;
use vstd::arithmetic::power::{lemma_pow_positive, pow};
use vstd::prelude::*;

verus! {

/// The `n` least significant bytes of `x`, least significant first.
pub open spec fn le_bytes(x: nat, n: nat) -> Seq<u8>
    decreases n,
{
    if n == 0 {
        Seq::empty()
    } else {
        seq![(x % 256) as u8] + le_bytes(x / 256, (n - 1) as nat)
    }
}

/// The number whose little-endian digits in base 256 are `s`.
pub open spec fn le_value(s: Seq<u8>) -> nat
    decreases s.len(),
{
    if s.len() == 0 {
        0
    } else {
        s[0] as nat + 256 * le_value(s.drop_first())
    }
}

/// `le_bytes(x, n)` has `n` bytes.
pub proof fn lemma_le_bytes_len(x: nat, n: nat)
    ensures
        le_bytes(x, n).len() == n,
    decreases n,
{
    if n > 0 {
        lemma_le_bytes_len(x / 256, (n - 1) as nat);
    }
}

/// Decoding the `n` low bytes of `x` gives `x` modulo `256^n`.
pub proof fn lemma_le_value_of_bytes(x: nat, n: nat)
    ensures
        le_value(le_bytes(x, n)) == x % (pow(256, n) as nat),
    decreases n,
{
    lemma_pow_positive(256, n);
    if n == 0 {
        reveal(pow);
    } else {
        let m = (n - 1) as nat;
        lemma_le_value_of_bytes(x / 256, m);
        lemma_pow_positive(256, m);
        let s = le_bytes(x, n);
        assert(s.drop_first() =~= le_bytes(x / 256, m));
        assert(pow(256, n) == 256 * pow(256, m)) by {
            reveal(pow);
        }
        lemma_mod_breakdown(x as int, 256, pow(256, m));
    }
}

/// A sequence of `n` bytes encodes a number below `256^n`.
pub proof fn lemma_le_value_bound(s: Seq<u8>)
    ensures
        le_value(s) < pow(256, s.len()),
    decreases s.len(),
{
    if s.len() == 0 {
        reveal(pow);
    } else {
        lemma_le_value_bound(s.drop_first());
        assert(pow(256, s.len()) == 256 * pow(256, (s.len() - 1) as nat)) by {
            reveal(pow);
        }
    }
}

/// `256^16` is one more than the largest `u128`.
pub proof fn lemma_pow256_16()
    ensures
        pow(256, 16) == u128::MAX + 1,
{
    reveal_with_fuel(pow, 17);
}

/// The sixteen little-endian bytes of `x`.
pub fn u128_to_le(x: u128) -> (r: [u8; 16])
    ensures
        r@ == le_bytes(x as nat, 16),
{
    let mut r: [u8; 16] = [0u8; 16];
    let mut v: u128 = x;
    let mut i: usize = 0;
    proof {
        lemma_le_bytes_len(x as nat, 16);
    }
    while i < 16
        invariant
            0 <= i <= 16,
            r@.len() == 16,
            r@.subrange(0, i as int) + le_bytes(v as nat, (16 - i) as nat) == le_bytes(x as nat, 16),
        decreases 16 - i,
    {
        let ghost old_r = r@;
        let ghost n = (16 - i) as nat;
        r[i] = (v % 256) as u8;
        proof {
            assert(le_bytes(v as nat, n) == seq![(v as nat % 256) as u8] + le_bytes(v as nat / 256, (n - 1) as nat));
            assert(r@.subrange(0, i + 1) =~= old_r.subrange(0, i as int) + seq![(v as nat % 256) as u8]);
            assert(r@.subrange(0, i + 1) + le_bytes(v as nat / 256, (n - 1) as nat)
                =~= old_r.subrange(0, i as int) + le_bytes(v as nat, n));
        }
        v = v / 256;
        i = i + 1;
    }
    assert(le_bytes(v as nat, 0) =~= Seq::<u8>::empty());
    assert(r@.subrange(0, 16) =~= r@);
    r
}

/// The number whose sixteen little-endian bytes are `b[start..start + 16]`.
pub fn u128_from_le(b: &[u8], start: usize) -> (r: u128)
    requires
        start + 16 <= b@.len() <= usize::MAX,
    ensures
        r as nat == le_value(b@.subrange(start as int, start + 16)),
{
    let mut acc: u128 = 0;
    let mut i: usize = 16;
    while i > 0
        invariant
            0 <= i <= 16,
            start + 16 <= b@.len() <= usize::MAX,
            acc as nat == le_value(b@.subrange(start + i, start + 16)),
        decreases i,
    {
        let ghost tail = b@.subrange(start + i, start + 16);
        let ghost next = b@.subrange(start + i - 1, start + 16);
        proof {
            assert(next.drop_first() =~= tail);
            lemma_le_value_bound(tail);
            lemma_pow256_16();
            lemma_le_value_bound(next);
            assert(next.len() <= 16);
            vstd::arithmetic::power::lemma_pow_increases(256, next.len(), 16);
        }
        acc = b[start + (i - 1)] as u128 + 256 * acc;
        i = i - 1;
    }
    assert(b@.subrange(start as int, start + 16) =~= b@.subrange(start + i, start + 16));
    acc
}

} // verus!
