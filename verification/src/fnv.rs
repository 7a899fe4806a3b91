//! The 64-bit FNV-1a hash of bytes, texts and numbers.

use vstd::arithmetic::div_mod::{
    lemma_mul_mod_noop_left, lemma_mul_mod_noop_right, lemma_small_mod,
};
use vstd::arithmetic::mul::lemma_mul_is_associative;
use vstd::prelude::*;
use vstd::utf8::encode_utf8;

verus! {

pub const FNV_OFFSET_BASIS: u64 = 0xcbf2_9ce4_8422_2325;

pub const FNV_PRIME: u64 = 0x0000_0100_0000_01b3;

/// FNV-1a: each byte is mixed in by exclusive or, and the hash multiplied by
/// the prime.
pub open spec fn fnv(hash: u64, bytes: Seq<u8>) -> u64
    decreases bytes.len(),
{
    if bytes.len() == 0 {
        hash
    } else {
        (fnv(hash, bytes.drop_last()) ^ (bytes.last() as u64)).wrapping_mul(FNV_PRIME)
    }
}

/// The hash of a text: its UTF-8 bytes, then a byte that no text holds.
pub open spec fn fnv_text(hash: u64, s: Seq<char>) -> u64 {
    fnv(hash, encode_utf8(s).push(0xff))
}

/// The eight bytes of a number, lowest first.
pub open spec fn le_bytes(n: u64) -> Seq<u8> {
    seq![
        (n & 0xff) as u8,
        ((n >> 8) & 0xff) as u8,
        ((n >> 16) & 0xff) as u8,
        ((n >> 24) & 0xff) as u8,
        ((n >> 32) & 0xff) as u8,
        ((n >> 40) & 0xff) as u8,
        ((n >> 48) & 0xff) as u8,
        ((n >> 56) & 0xff) as u8,
    ]
}

/// Hashing one run of bytes and then another is hashing both.
pub proof fn fnv_of_two_runs(hash: u64, a: Seq<u8>, b: Seq<u8>)
    ensures
        fnv(hash, a + b) == fnv(fnv(hash, a), b),
    decreases b.len(),
{
    if b.len() == 0 {
        assert(a + b =~= a);
    } else {
        assert((a + b).drop_last() =~= a + b.drop_last());
        fnv_of_two_runs(hash, a, b.drop_last());
    }
}

/// Multiplying by a number that can be undone keeps different numbers apart.
pub proof fn products_stay_apart(x: u64, y: u64, factor: u64, inverse: u64)
    requires
        (factor as int * inverse as int) % 0x1_0000_0000_0000_0000 == 1,
        x.wrapping_mul(factor) == y.wrapping_mul(factor),
    ensures
        x == y,
{
    undone(x, factor, inverse);
    undone(y, factor, inverse);
}

proof fn undone(x: u64, factor: u64, inverse: u64)
    requires
        (factor as int * inverse as int) % 0x1_0000_0000_0000_0000 == 1,
    ensures
        (x.wrapping_mul(factor) as int * inverse as int) % 0x1_0000_0000_0000_0000 == x,
{
    let m: int = 0x1_0000_0000_0000_0000;
    let a = x as int;
    let f = factor as int;
    let q = inverse as int;
    assert(x.wrapping_mul(factor) as int == (a * f) % m);
    lemma_mul_mod_noop_left(a * f, q, m);
    lemma_mul_is_associative(a, f, q);
    lemma_mul_mod_noop_right(a, f * q, m);
    lemma_small_mod(a as nat, m as nat);
    assert(a * 1 == a);
}

/// Mixing one run of bytes into two hashes keeps them apart.
pub proof fn hashes_stay_apart(a: u64, b: u64, bytes: Seq<u8>)
    requires
        fnv(a, bytes) == fnv(b, bytes),
    ensures
        a == b,
    decreases bytes.len(),
{
    if bytes.len() > 0 {
        let x = fnv(a, bytes.drop_last());
        let y = fnv(b, bytes.drop_last());
        let last = bytes.last() as u64;
        products_stay_apart(x ^ last, y ^ last, FNV_PRIME, 0xce96_5057_aff6_957b);
        assert(x == y) by (bit_vector)
            requires
                x ^ last == y ^ last,
        ;
        hashes_stay_apart(a, b, bytes.drop_last());
    }
}

/// Runs of bytes that differ in one byte alone have different hashes, wherever
/// that byte stands.
pub proof fn one_byte_is_told_apart(hash: u64, before: Seq<u8>, x: u8, y: u8, behind: Seq<u8>)
    requires
        x != y,
    ensures
        fnv(hash, before.push(x) + behind) != fnv(hash, before.push(y) + behind),
{
    fnv_of_two_runs(hash, before.push(x), behind);
    fnv_of_two_runs(hash, before.push(y), behind);
    if fnv(hash, before.push(x) + behind) == fnv(hash, before.push(y) + behind) {
        hashes_stay_apart(fnv(hash, before.push(x)), fnv(hash, before.push(y)), behind);
        let h = fnv(hash, before);
        assert(before.push(x).drop_last() =~= before);
        assert(before.push(y).drop_last() =~= before);
        let a = x as u64;
        let b = y as u64;
        products_stay_apart(h ^ a, h ^ b, FNV_PRIME, 0xce96_5057_aff6_957b);
        assert(a == b) by (bit_vector)
            requires
                h ^ a == h ^ b,
        ;
    }
}

/// Mixes bytes into a hash.
pub fn fnv1a_bytes(hash: u64, bytes: &[u8]) -> (r: u64)
    ensures
        r == fnv(hash, bytes@),
{
    let mut h: u64 = hash;
    let mut i: usize = 0;
    while i < bytes.len()
        invariant
            0 <= i <= bytes@.len(),
            h == fnv(hash, bytes@.take(i as int)),
        decreases bytes@.len() - i,
    {
        proof {
            assert(bytes@.take(i as int + 1).drop_last() =~= bytes@.take(i as int));
        }
        h = (h ^ (bytes[i] as u64)).wrapping_mul(FNV_PRIME);
        i = i + 1;
    }
    proof {
        assert(bytes@.take(bytes@.len() as int) =~= bytes@);
    }
    h
}

/// Mixes one byte into a hash.
pub fn fnv1a_byte(hash: u64, byte: u8) -> (r: u64)
    ensures
        r == fnv(hash, seq![byte]),
{
    proof {
        reveal_with_fuel(fnv, 2);
        assert(seq![byte].drop_last() =~= Seq::<u8>::empty());
    }
    (hash ^ (byte as u64)).wrapping_mul(FNV_PRIME)
}

/// Mixes a text into a hash, closed by a byte that no text holds.
pub fn fnv1a_str(hash: u64, value: &str) -> (r: u64)
    ensures
        r == fnv_text(hash, value@),
{
    let h: u64 = fnv1a_bytes(hash, value.as_bytes());
    proof {
        let bytes = encode_utf8(value@);
        fnv_of_two_runs(hash, bytes, seq![0xffu8]);
        assert(bytes + seq![0xffu8] =~= bytes.push(0xffu8));
    }
    fnv1a_byte(h, 0xff)
}

/// Mixes the eight bytes of a number into a hash, lowest first.
pub fn fnv1a_u64(hash: u64, value: u64) -> (r: u64)
    ensures
        r == fnv(hash, le_bytes(value)),
{
    let bytes: [u8; 8] = [
        (value & 0xff) as u8,
        ((value >> 8) & 0xff) as u8,
        ((value >> 16) & 0xff) as u8,
        ((value >> 24) & 0xff) as u8,
        ((value >> 32) & 0xff) as u8,
        ((value >> 40) & 0xff) as u8,
        ((value >> 48) & 0xff) as u8,
        ((value >> 56) & 0xff) as u8,
    ];
    proof {
        assert(bytes@ =~= le_bytes(value));
    }
    fnv1a_bytes(hash, bytes.as_slice())
}

/// The hash of a text from the offset basis: the same for the same text in
/// every build.
pub fn stable_callsite_hash(input: &str) -> (r: u64)
    ensures
        r == fnv_text(FNV_OFFSET_BASIS, input@),
{
    fnv1a_str(FNV_OFFSET_BASIS, input)
}

/// Different numbers are mixed in as different bytes.
pub proof fn numbers_are_told_apart(n: u64, m: u64)
    requires
        le_bytes(n) == le_bytes(m),
    ensures
        n == m,
{
    assert(le_bytes(n)[0] == le_bytes(m)[0]);
    assert(le_bytes(n)[1] == le_bytes(m)[1]);
    assert(le_bytes(n)[2] == le_bytes(m)[2]);
    assert(le_bytes(n)[3] == le_bytes(m)[3]);
    assert(le_bytes(n)[4] == le_bytes(m)[4]);
    assert(le_bytes(n)[5] == le_bytes(m)[5]);
    assert(le_bytes(n)[6] == le_bytes(m)[6]);
    assert(le_bytes(n)[7] == le_bytes(m)[7]);
    assert(n == m) by (bit_vector)
        requires
            (n & 0xff) as u8 == (m & 0xff) as u8,
            ((n >> 8) & 0xff) as u8 == ((m >> 8) & 0xff) as u8,
            ((n >> 16) & 0xff) as u8 == ((m >> 16) & 0xff) as u8,
            ((n >> 24) & 0xff) as u8 == ((m >> 24) & 0xff) as u8,
            ((n >> 32) & 0xff) as u8 == ((m >> 32) & 0xff) as u8,
            ((n >> 40) & 0xff) as u8 == ((m >> 40) & 0xff) as u8,
            ((n >> 48) & 0xff) as u8 == ((m >> 48) & 0xff) as u8,
            ((n >> 56) & 0xff) as u8 == ((m >> 56) & 0xff) as u8,
    ;
}

} // verus!
