//! Zero IDs: a peer's 32-byte public key written as hexadecimal text.
use vstd::prelude::*;
use crate::dht::node::DhtPublicKey;

verus! {

/// The error `hex::decode` reports.
#[verifier::external_type_specification]
#[verifier::external_body]
pub struct ExFromHexError(hex::FromHexError);

/// The value of a hexadecimal digit, in either case.
pub open spec fn hex_digit_value(c: char) -> Option<u8> {
    let v = c as u32;
    if 48 <= v <= 57 {
        Some((v - 48) as u8)
    } else if 97 <= v <= 102 {
        Some((v - 87) as u8)
    } else if 65 <= v <= 70 {
        Some((v - 55) as u8)
    } else {
        None
    }
}

/// The bytes that the hexadecimal text `s` spells, two digits per byte,
/// high digit first; `None` when `s` has an odd length or a non-digit.
pub open spec fn hex_decoded(s: Seq<char>) -> Option<Seq<u8>> {
    if s.len() % 2 == 0 && forall|i: int| 0 <= i < s.len() ==> #[trigger] hex_digit_value(s[i]) is Some {
        Some(Seq::new(s.len() / 2, |i: int| (16 * hex_digit_value(s[2 * i])->0 + hex_digit_value(s[2 * i + 1])->0) as u8))
    } else {
        None
    }
}

/// The lower-case digit of a value below 16.
pub open spec fn lower_hex_digit(v: u8) -> char {
    if v < 10 {
        (48 + v) as char
    } else {
        (87 + v) as char
    }
}

/// `b` in lower-case hexadecimal, two digits per byte, high digit first.
pub open spec fn hex_encoded(b: Seq<u8>) -> Seq<char> {
    Seq::new(2 * b.len(), |i: int| if i % 2 == 0 { lower_hex_digit(b[i / 2] / 16) } else { lower_hex_digit(b[i / 2] % 16) })
}

proof fn lemma_digit_round_trip(v: u8)
    requires
        v < 16,
    ensures
        hex_digit_value(lower_hex_digit(v)) == Some(v),
{
    if v < 10 {
        assert(((48 + v) as char) as u32 == 48 + v);
    } else {
        assert(((87 + v) as char) as u32 == 87 + v);
    }
}

/// Reading back the text of a Zero ID gives the key again: hexadecimal
/// encoding and decoding are inverse.
pub proof fn lemma_peer_id_round_trip(b: Seq<u8>)
    ensures
        hex_decoded(hex_encoded(b)) == Some(b),
{
    let s = hex_encoded(b);
    assert forall|i: int| 0 <= i < s.len() implies #[trigger] hex_digit_value(s[i]) is Some by {
        if i % 2 == 0 {
            lemma_digit_round_trip(b[i / 2] / 16);
        } else {
            lemma_digit_round_trip(b[i / 2] % 16);
        }
    }
    assert(s.len() % 2 == 0);
    let d = Seq::new(s.len() / 2, |i: int| (16 * hex_digit_value(s[2 * i])->0 + hex_digit_value(s[2 * i + 1])->0) as u8);
    assert forall|i: int| 0 <= i < b.len() implies d[i] == b[i] by {
        assert((2 * i) % 2 == 0 && (2 * i) / 2 == i);
        assert((2 * i + 1) % 2 == 1 && (2 * i + 1) / 2 == i);
        lemma_digit_round_trip(b[i] / 16);
        lemma_digit_round_trip(b[i] % 16);
        assert(16 * (b[i] / 16) + b[i] % 16 == b[i]);
    }
    assert(d =~= b);
}

/// `hex::decode`: parses text made of pairs of hexadecimal digits (either
/// case) into the bytes they spell, and fails on an odd length or any
/// other character. Which of its errors comes is not stated.
#[verifier::external_body]
fn hex_decode(s: &str) -> (r: Result<Vec<u8>, hex::FromHexError>)
    ensures
        match hex_decoded(s@) {
            Some(b) => r matches Ok(v) && v@ == b,
            None => r is Err,
        },
{
    hex::decode(s)
}

/// `hex::encode`: writes bytes as lower-case hexadecimal, two digits per
/// byte, high digit first.
#[verifier::external_body]
fn hex_encode(b: &[u8]) -> (r: String)
    ensures
        r@ == hex_encoded(b@),
{
    hex::encode(b)
}

/// Why text is not a Zero ID.
#[derive(Debug)]
pub enum PeerIdError {
    /// The text is not hexadecimal.
    InvalidHex(hex::FromHexError),
    /// The text does not spell 32 bytes.
    WrongLength,
}

/// Reads a Zero ID: 64 hexadecimal digits spelling a 32-byte public key.
pub fn parse_peer_id(id: &str) -> (r: Result<DhtPublicKey, PeerIdError>)
    ensures
        match hex_decoded(id@) {
            None => r matches Err(PeerIdError::InvalidHex(_)),
            Some(b) => if b.len() == 32 {
                r matches Ok(pk) && pk.0@ == b
            } else {
                r matches Err(PeerIdError::WrongLength)
            },
        },
{
    let decoded = match hex_decode(id) {
        Ok(v) => v,
        Err(e) => {
            return Err(PeerIdError::InvalidHex(e));
        },
    };
    if decoded.len() != 32 {
        return Err(PeerIdError::WrongLength);
    }
    let key = crate::bytes::array32_at(decoded.as_slice(), 0);
    assert(key@ =~= decoded@);
    Ok(DhtPublicKey(key))
}

/// The Zero ID of a public key: its bytes in lower-case hexadecimal.
pub fn peer_id_text(pk: &DhtPublicKey) -> (s: String)
    ensures
        s@ == hex_encoded(pk.0@),
{
    hex_encode(&pk.0)
}

} // verus!
