//! Byte-level encodings shared by the wire formats.
use vstd::prelude::*;

verus! {

/// The eight little-endian bytes of `n`.
pub open spec fn u64_le(n: u64) -> Seq<u8> {
    seq![
        (n & 0xff) as u8,
        ((n >> 8u64) & 0xff) as u8,
        ((n >> 16u64) & 0xff) as u8,
        ((n >> 24u64) & 0xff) as u8,
        ((n >> 32u64) & 0xff) as u8,
        ((n >> 40u64) & 0xff) as u8,
        ((n >> 48u64) & 0xff) as u8,
        ((n >> 56u64) & 0xff) as u8,
    ]
}

/// The little-endian encoding of `n` (as `u64::to_le_bytes`).
pub fn u64_to_le_bytes(n: u64) -> (b: [u8; 8])
    ensures
        b@ == u64_le(n),
{
    let b: [u8; 8] = [
        (n & 0xff) as u8,
        ((n >> 8u64) & 0xff) as u8,
        ((n >> 16u64) & 0xff) as u8,
        ((n >> 24u64) & 0xff) as u8,
        ((n >> 32u64) & 0xff) as u8,
        ((n >> 40u64) & 0xff) as u8,
        ((n >> 48u64) & 0xff) as u8,
        ((n >> 56u64) & 0xff) as u8,
    ];
    assert(b@ =~= u64_le(n));
    b
}

/// Reads a little-endian `u64` from eight bytes (as `u64::from_le_bytes`).
pub fn u64_from_le_slice(s: &[u8], at: usize) -> (n: u64)
    requires
        at + 8 <= s@.len(),
    ensures
        u64_le(n) == s@.subrange(at as int, at + 8),
{
    let b0 = s[at] as u64;
    let b1 = s[at + 1] as u64;
    let b2 = s[at + 2] as u64;
    let b3 = s[at + 3] as u64;
    let b4 = s[at + 4] as u64;
    let b5 = s[at + 5] as u64;
    let b6 = s[at + 6] as u64;
    let b7 = s[at + 7] as u64;
    let n = b0 | (b1 << 8u64) | (b2 << 16u64) | (b3 << 24u64) | (b4 << 32u64) | (b5 << 40u64) | (b6
        << 48u64) | (b7 << 56u64);
    proof {
        assert(b0 < 256 && b1 < 256 && b2 < 256 && b3 < 256 && b4 < 256 && b5 < 256 && b6 < 256
            && b7 < 256);
        assert((n & 0xff) == b0 && ((n >> 8u64) & 0xff) == b1 && ((n >> 16u64) & 0xff) == b2
            && ((n >> 24u64) & 0xff) == b3 && ((n >> 32u64) & 0xff) == b4 && ((n >> 40u64) & 0xff)
            == b5 && ((n >> 48u64) & 0xff) == b6 && ((n >> 56u64) & 0xff) == b7) by (bit_vector)
            requires
                b0 < 256 && b1 < 256 && b2 < 256 && b3 < 256 && b4 < 256 && b5 < 256 && b6 < 256
                    && b7 < 256,
                n == b0 | (b1 << 8u64) | (b2 << 16u64) | (b3 << 24u64) | (b4 << 32u64) | (b5
                    << 40u64) | (b6 << 48u64) | (b7 << 56u64),
        ;
        assert(u64_le(n) =~= s@.subrange(at as int, at + 8));
    }
    n
}

/// The little-endian encoding is injective.
pub proof fn lemma_u64_le_injective(a: u64, b: u64)
    requires
        u64_le(a) == u64_le(b),
    ensures
        a == b,
{
    assert(u64_le(a)[0] == u64_le(b)[0]);
    assert(u64_le(a)[1] == u64_le(b)[1]);
    assert(u64_le(a)[2] == u64_le(b)[2]);
    assert(u64_le(a)[3] == u64_le(b)[3]);
    assert(u64_le(a)[4] == u64_le(b)[4]);
    assert(u64_le(a)[5] == u64_le(b)[5]);
    assert(u64_le(a)[6] == u64_le(b)[6]);
    assert(u64_le(a)[7] == u64_le(b)[7]);
    assert(a == b) by (bit_vector)
        requires
            (a & 0xff) as u8 == (b & 0xff) as u8,
            ((a >> 8u64) & 0xff) as u8 == ((b >> 8u64) & 0xff) as u8,
            ((a >> 16u64) & 0xff) as u8 == ((b >> 16u64) & 0xff) as u8,
            ((a >> 24u64) & 0xff) as u8 == ((b >> 24u64) & 0xff) as u8,
            ((a >> 32u64) & 0xff) as u8 == ((b >> 32u64) & 0xff) as u8,
            ((a >> 40u64) & 0xff) as u8 == ((b >> 40u64) & 0xff) as u8,
            ((a >> 48u64) & 0xff) as u8 == ((b >> 48u64) & 0xff) as u8,
            ((a >> 56u64) & 0xff) as u8 == ((b >> 56u64) & 0xff) as u8,
    ;
}

/// Copies a slice into a fresh vector.
pub fn bytes_to_vec(s: &[u8]) -> (v: Vec<u8>)
    ensures
        v@ == s@,
{
    let mut v: Vec<u8> = Vec::new();
    v.extend_from_slice(s);
    v
}

/// Copies exactly `N` bytes starting at `at` into an array.
pub fn array32_at(s: &[u8], at: usize) -> (a: [u8; 32])
    requires
        at + 32 <= s@.len(),
    ensures
        a@ == s@.subrange(at as int, at + 32),
{
    let mut a = [0u8; 32];
    let mut i: usize = 0;
    while i < 32
        invariant
            i <= 32,
            at + 32 <= s.len(),
            a@.len() == 32,
            forall|j: int| 0 <= j < i ==> a@[j] == s@[at + j],
        decreases 32 - i,
    {
        a[i] = s[at + i];
        i = i + 1;
    }
    assert(a@ =~= s@.subrange(at as int, at + 32));
    a
}

/// Copies exactly 12 bytes starting at `at` into an array.
pub fn array12_at(s: &[u8], at: usize) -> (a: [u8; 12])
    requires
        at + 12 <= s@.len(),
    ensures
        a@ == s@.subrange(at as int, at + 12),
{
    let mut a = [0u8; 12];
    let mut i: usize = 0;
    while i < 12
        invariant
            i <= 12,
            at + 12 <= s.len(),
            a@.len() == 12,
            forall|j: int| 0 <= j < i ==> a@[j] == s@[at + j],
        decreases 12 - i,
    {
        a[i] = s[at + i];
        i = i + 1;
    }
    assert(a@ =~= s@.subrange(at as int, at + 12));
    a
}

} // verus!
