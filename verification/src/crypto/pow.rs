use vstd::prelude::*;
use subtle::ConstantTimeEq;
use crate::bytes::{u64_le, u64_to_le_bytes};
use crate::crypto::error::ZeroError;
use crate::crypto::hash::{blake2s256, blake2s256_digest};

verus! {

/// Bit `i` of `h`, counting from the most significant bit of the first byte.
pub open spec fn hash_bit(h: Seq<u8>, i: int) -> u8 {
    byte_bit(h[i / 8], i % 8)
}

/// Bit `k` of a byte, counting from the most significant bit.
pub open spec fn byte_bit(b: u8, k: int) -> u8 {
    (b >> ((7 - k) as u8)) & 1u8
}

/// `h` starts with at least `bits` zero bits (bits past the end of `h` impose nothing).
pub open spec fn meets_difficulty(h: Seq<u8>, bits: nat) -> bool {
    forall|i: int| 0 <= i < bits && i < h.len() * 8 ==> #[trigger] hash_bit(h, i) == 0
}

/// The proof-of-work hash of a nonce: BLAKE2s-256 over the context followed
/// by the nonce's little-endian bytes.
pub open spec fn pow_hash(context: Seq<u8>, nonce: u64) -> Seq<u8> {
    blake2s256(context + u64_le(nonce))
}

/// A token is valid for a context when it is the hash of the context and the
/// nonce, and the hash meets the difficulty.
pub open spec fn pow_valid(context: Seq<u8>, nonce: u64, hash: Seq<u8>, difficulty_bits: nat) -> bool {
    &&& meets_difficulty(hash, difficulty_bits)
    &&& hash == pow_hash(context, nonce)
}

/// The top `r` bits of a byte are all zero exactly when shifting the byte
/// right by `8 - r` leaves nothing.
proof fn lemma_top_bits(b: u8, r: u8)
    requires
        1 <= r <= 8,
    ensures
        (b >> ((8 - r) as u8)) == 0 <==> (forall|k: int| 0 <= k < r ==> #[trigger] byte_bit(b, k) == 0),
{
    let z = |k: int| byte_bit(b, k) == 0;
    assert(z(0) == ((b >> 7u8) & 1u8 == 0));
    assert(z(1) == ((b >> 6u8) & 1u8 == 0));
    assert(z(2) == ((b >> 5u8) & 1u8 == 0));
    assert(z(3) == ((b >> 4u8) & 1u8 == 0));
    assert(z(4) == ((b >> 3u8) & 1u8 == 0));
    assert(z(5) == ((b >> 2u8) & 1u8 == 0));
    assert(z(6) == ((b >> 1u8) & 1u8 == 0));
    assert(z(7) == ((b >> 0u8) & 1u8 == 0));
    if r == 1 {
        assert((b >> 7u8) == 0 <==> (b >> 7u8) & 1u8 == 0) by (bit_vector);
    } else if r == 2 {
        assert((b >> 6u8) == 0 <==> ((b >> 7u8) & 1u8 == 0 && (b >> 6u8) & 1u8 == 0)) by (bit_vector);
    } else if r == 3 {
        assert((b >> 5u8) == 0 <==> ((b >> 7u8) & 1u8 == 0 && (b >> 6u8) & 1u8 == 0 && (b >> 5u8) & 1u8 == 0)) by (bit_vector);
    } else if r == 4 {
        assert((b >> 4u8) == 0 <==> ((b >> 7u8) & 1u8 == 0 && (b >> 6u8) & 1u8 == 0 && (b >> 5u8) & 1u8 == 0
            && (b >> 4u8) & 1u8 == 0)) by (bit_vector);
    } else if r == 5 {
        assert((b >> 3u8) == 0 <==> ((b >> 7u8) & 1u8 == 0 && (b >> 6u8) & 1u8 == 0 && (b >> 5u8) & 1u8 == 0
            && (b >> 4u8) & 1u8 == 0 && (b >> 3u8) & 1u8 == 0)) by (bit_vector);
    } else if r == 6 {
        assert((b >> 2u8) == 0 <==> ((b >> 7u8) & 1u8 == 0 && (b >> 6u8) & 1u8 == 0 && (b >> 5u8) & 1u8 == 0
            && (b >> 4u8) & 1u8 == 0 && (b >> 3u8) & 1u8 == 0 && (b >> 2u8) & 1u8 == 0)) by (bit_vector);
    } else if r == 7 {
        assert((b >> 1u8) == 0 <==> ((b >> 7u8) & 1u8 == 0 && (b >> 6u8) & 1u8 == 0 && (b >> 5u8) & 1u8 == 0
            && (b >> 4u8) & 1u8 == 0 && (b >> 3u8) & 1u8 == 0 && (b >> 2u8) & 1u8 == 0 && (b >> 1u8) & 1u8 == 0))
            by (bit_vector);
    } else {
        assert((b >> 0u8) == 0 <==> ((b >> 7u8) & 1u8 == 0 && (b >> 6u8) & 1u8 == 0 && (b >> 5u8) & 1u8 == 0
            && (b >> 4u8) & 1u8 == 0 && (b >> 3u8) & 1u8 == 0 && (b >> 2u8) & 1u8 == 0 && (b >> 1u8) & 1u8 == 0
            && (b >> 0u8) & 1u8 == 0)) by (bit_vector);
    }
    if (b >> ((8 - r) as u8)) == 0 {
        assert forall|k: int| 0 <= k < r implies #[trigger] byte_bit(b, k) == 0 by {
            assert(z(k));
        }
    }
}

/// Bit `8 * j + k` of a hash is bit `7 - k` (from the right) of byte `j`.
pub proof fn lemma_hash_bit_index(h: Seq<u8>, j: int, k: int)
    requires
        0 <= j,
        0 <= k < 8,
    ensures
        hash_bit(h, 8 * j + k) == byte_bit(h[j], k),
{
    assert((8 * j + k) / 8 == j);
    assert((8 * j + k) % 8 == k);
}

/// Whether `hash` starts with at least `difficulty_bits` zero bits.
pub fn check_difficulty(hash: &[u8; 32], difficulty_bits: u32) -> (ok: bool)
    ensures
        ok == meets_difficulty(hash@, difficulty_bits as nat),
{
    let mut bits_checked: u32 = 0;
    let mut j: usize = 0;
    while j < 32
        invariant
            j <= 32,
            bits_checked == 8 * j,
            bits_checked <= difficulty_bits,
            hash@.len() == 32,
            forall|i: int| 0 <= i < bits_checked ==> #[trigger] hash_bit(hash@, i) == 0,
        decreases 32 - j,
    {
        let byte = hash[j];
        if bits_checked >= difficulty_bits {
            return true;
        }
        let remaining = difficulty_bits - bits_checked;
        if remaining >= 8 {
            if byte != 0 {
                proof {
                    lemma_top_bits(byte, 8);
                    assert((byte >> 0u8) == byte) by (bit_vector);
                    assert(!(forall|k: int| 0 <= k < 8 ==> #[trigger] byte_bit(byte, k) == 0));
                    let k = choose|k: int| 0 <= k < 8 && byte_bit(byte, k) != 0;
                    lemma_hash_bit_index(hash@, j as int, k);
                    assert(hash_bit(hash@, 8 * j + k) != 0);
                }
                return false;
            }
            proof {
                lemma_top_bits(byte, 8);
                assert((byte >> 0u8) == byte) by (bit_vector);
                assert forall|i: int| 0 <= i < bits_checked + 8 implies #[trigger] hash_bit(hash@, i) == 0 by {
                    if i >= bits_checked {
                        lemma_hash_bit_index(hash@, j as int, i - 8 * j);
                    }
                }
            }
            bits_checked = bits_checked + 8;
        } else {
            let shift = 8 - remaining;
            let r = remaining as u8;
            let res = (byte >> (shift as u8)) == 0;
            proof {
                lemma_top_bits(byte, r);
                assert(shift as u8 == ((8 - r) as u8));
                if res {
                    assert forall|i: int| 0 <= i < difficulty_bits && i < 256 implies #[trigger] hash_bit(hash@, i) == 0 by {
                        if i >= bits_checked {
                            lemma_hash_bit_index(hash@, j as int, i - 8 * j);
                        }
                    }
                } else {
                    let k = choose|k: int| 0 <= k < r && byte_bit(byte, k) != 0;
                    lemma_hash_bit_index(hash@, j as int, k);
                    assert(hash_bit(hash@, 8 * j + k) != 0);
                }
            }
            return res;
        }
        j = j + 1;
    }
    true
}

/// Compares two 32-byte strings with `subtle::ConstantTimeEq::ct_eq` on slices
/// (converted to `bool`); the result is whether they are equal.
#[verifier::external_body]
fn ct_eq_32(a: &[u8; 32], b: &[u8; 32]) -> (eq: bool)
    ensures
        eq == (a@ == b@),
{
    a[..].ct_eq(&b[..]).into()
}

/// The proof-of-work hash of `nonce` over `context`.
fn pow_hash_exec(context: &[u8], nonce: u64) -> (h: [u8; 32])
    ensures
        h@ == pow_hash(context@, nonce),
{
    let mut data: Vec<u8> = Vec::new();
    data.extend_from_slice(context);
    let le = u64_to_le_bytes(nonce);
    data.extend_from_slice(&le);
    assert(data@ =~= context@ + u64_le(nonce));
    blake2s256_digest(data.as_slice())
}

/// Generates a Proof-of-Work token matching a difficulty requirement.
/// Difficulty is specified in number of leading zero bits.
///
/// Nonces are tried from zero upwards and the first one whose hash meets the
/// difficulty is returned with its hash; `None` only when no 64-bit nonce does.
pub fn generate_pow(context: &[u8], difficulty_bits: u32) -> (res: Option<([u8; 32], u64)>)
    ensures
        res matches Some((hash, nonce)) ==> pow_valid(context@, nonce, hash@, difficulty_bits as nat)
            && forall|m: u64| m < nonce ==> !meets_difficulty(#[trigger] pow_hash(context@, m), difficulty_bits as nat),
        res is None ==> forall|m: u64| !meets_difficulty(#[trigger] pow_hash(context@, m), difficulty_bits as nat),
{
    let mut nonce: u64 = 0;
    loop
        invariant
            forall|m: u64| m < nonce ==> !meets_difficulty(#[trigger] pow_hash(context@, m), difficulty_bits as nat),
        decreases u64::MAX - nonce,
    {
        let hash = pow_hash_exec(context, nonce);
        if check_difficulty(&hash, difficulty_bits) {
            return Some((hash, nonce));
        }
        if nonce == u64::MAX {
            return None;
        }
        nonce = nonce + 1;
    }
}

/// Verifies a Proof-of-Work token against a difficulty requirement.
pub fn verify_pow(context: &[u8], nonce: u64, expected_hash: &[u8; 32], difficulty_bits: u32) -> (res: Result<(), ZeroError>)
    ensures
        res is Ok <==> pow_valid(context@, nonce, expected_hash@, difficulty_bits as nat),
        res matches Err(e) ==> e is InvalidProofOfWork,
{
    if !check_difficulty(expected_hash, difficulty_bits) {
        return Err(ZeroError::InvalidProofOfWork);
    }
    let hash = pow_hash_exec(context, nonce);
    if ct_eq_32(&hash, expected_hash) {
        Ok(())
    } else {
        Err(ZeroError::InvalidProofOfWork)
    }
}

/// Every token that `generate_pow` finds is accepted by `verify_pow` for the
/// same context and difficulty.
pub proof fn lemma_generated_pow_verifies(context: Seq<u8>, difficulty_bits: nat, hash: Seq<u8>, nonce: u64)
    requires
        meets_difficulty(hash, difficulty_bits),
        hash == pow_hash(context, nonce),
    ensures
        pow_valid(context, nonce, hash, difficulty_bits),
{
}

} // verus!
