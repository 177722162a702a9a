use vstd::prelude::*;
use crate::random::fill_random;

verus! {

/// Wire identifier of a Zero Protocol packet.
#[derive(Debug, Clone, Copy, PartialEq, Eq, Structural)]
pub enum PacketType {
    /// Standard DHT ping to verify node liveness
    Ping,
    /// Request the closest nodes to a specific DHT key
    FindNode,
    /// Response containing routing table entries
    FindNodeResponse,
    /// 3-hop Onion encrypted discovery request
    OnionRequest,
    /// 3-hop Onion encrypted discovery response
    OnionResponse,
    /// Store an encrypted message for an offline peer
    OffloadStore,
    /// Retrieve stored offline messages
    OffloadRetrieve,
    /// Double-Ratchet encrypted 1-on-1 session message
    SessionMessage,
    /// Invalid packet identifier
    Unknown,
}

/// The byte that identifies each packet type on the wire.
pub open spec fn packet_type_byte(t: PacketType) -> u8 {
    match t {
        PacketType::Ping => 0x01,
        PacketType::FindNode => 0x02,
        PacketType::FindNodeResponse => 0x03,
        PacketType::OnionRequest => 0x04,
        PacketType::OnionResponse => 0x05,
        PacketType::OffloadStore => 0x06,
        PacketType::OffloadRetrieve => 0x07,
        PacketType::SessionMessage => 0x08,
        PacketType::Unknown => 0xFF,
    }
}

/// The packet type that a wire byte stands for; every unassigned byte is `Unknown`.
pub open spec fn packet_type_of_byte(b: u8) -> PacketType {
    if b == 0x01 {
        PacketType::Ping
    } else if b == 0x02 {
        PacketType::FindNode
    } else if b == 0x03 {
        PacketType::FindNodeResponse
    } else if b == 0x04 {
        PacketType::OnionRequest
    } else if b == 0x05 {
        PacketType::OnionResponse
    } else if b == 0x06 {
        PacketType::OffloadStore
    } else if b == 0x07 {
        PacketType::OffloadRetrieve
    } else if b == 0x08 {
        PacketType::SessionMessage
    } else {
        PacketType::Unknown
    }
}

impl PacketType {
    /// The wire byte of this packet type.
    pub fn to_byte(self) -> (b: u8)
        ensures
            b == packet_type_byte(self),
    {
        match self {
            PacketType::Ping => 0x01,
            PacketType::FindNode => 0x02,
            PacketType::FindNodeResponse => 0x03,
            PacketType::OnionRequest => 0x04,
            PacketType::OnionResponse => 0x05,
            PacketType::OffloadStore => 0x06,
            PacketType::OffloadRetrieve => 0x07,
            PacketType::SessionMessage => 0x08,
            PacketType::Unknown => 0xFF,
        }
    }
}

impl From<u8> for PacketType {
    fn from(byte: u8) -> (t: Self) {
        match byte {
            0x01 => PacketType::Ping,
            0x02 => PacketType::FindNode,
            0x03 => PacketType::FindNodeResponse,
            0x04 => PacketType::OnionRequest,
            0x05 => PacketType::OnionResponse,
            0x06 => PacketType::OffloadStore,
            0x07 => PacketType::OffloadRetrieve,
            0x08 => PacketType::SessionMessage,
            _ => PacketType::Unknown,
        }
    }
}

impl vstd::std_specs::convert::FromSpecImpl<u8> for PacketType {
    open spec fn obeys_from_spec() -> bool {
        true
    }

    open spec fn from_spec(byte: u8) -> PacketType {
        packet_type_of_byte(byte)
    }
}

/// Every packet on the wire is a whole number of cells of this many bytes,
/// so that its size says nothing about what it carries.
pub const PACKET_CELL_SIZE: usize = 2048;

/// Bytes of a packet before its padding: the type and the two-byte padding length.
pub const PACKET_HEADER_LEN: usize = 3;

/// The most that framing adds to a payload: the header and up to a cell of padding.
pub const MAX_FRAME_OVERHEAD: usize = 2051;

/// Number of random padding bytes that bring a packet carrying `payload_len`
/// payload bytes up to a whole number of cells.
pub open spec fn packet_padding_len(payload_len: nat) -> nat {
    ((2048 - ((3 + payload_len) % 2048)) % 2048) as nat
}

/// The padding length a packet's header claims (big-endian, bytes 1 and 2).
pub open spec fn claimed_padding(raw: Seq<u8>) -> nat {
    (raw[1] * 256 + raw[2]) as nat
}

/// The outcome of parsing `raw` as a framed packet:
/// `[type byte] [padding length n, 2 bytes big-endian] [n padding bytes] [payload]`.
pub open spec fn decode_spec(raw: Seq<u8>) -> Result<(PacketType, Seq<u8>), ()> {
    if raw.len() < 3 {
        Err(())
    } else if packet_type_of_byte(raw[0]) == PacketType::Unknown {
        Err(())
    } else if raw.len() < 3 + claimed_padding(raw) {
        Err(())
    } else {
        Ok((packet_type_of_byte(raw[0]), raw.subrange((3 + claimed_padding(raw)) as int, raw.len() as int)))
    }
}

/// Format:
/// [Byte 0]      -> PacketType Identifier
/// [Bytes 1-2]   -> Padding Length (n), big-endian
/// [n bytes]     -> Random padding
/// [the rest]    -> Payload
pub fn decode_packet(raw: &[u8]) -> (res: Result<(PacketType, &[u8]), &'static str>)
    ensures
        raw@.len() < 3 ==> res == Err::<(PacketType, &[u8]), &'static str>("Packet too small (no header)"),
        raw@.len() >= 3 && packet_type_of_byte(raw@[0]) == PacketType::Unknown
            ==> res == Err::<(PacketType, &[u8]), &'static str>("Unknown packet type"),
        raw@.len() >= 3 && packet_type_of_byte(raw@[0]) != PacketType::Unknown && raw@.len() < 3 + claimed_padding(raw@)
            ==> res == Err::<(PacketType, &[u8]), &'static str>("Packet too small for claimed padding length"),
        res is Ok <==> decode_spec(raw@) is Ok,
        res matches Ok((t, payload)) ==> decode_spec(raw@) == Ok::<(PacketType, Seq<u8>), ()>((t, payload@)),
{
    if raw.len() < PACKET_HEADER_LEN {
        return Err("Packet too small (no header)");
    }
    let packet_type = PacketType::from(raw[0]);
    if packet_type == PacketType::Unknown {
        return Err("Unknown packet type");
    }
    let padding_len = (raw[1] as usize) * 256 + (raw[2] as usize);
    if raw.len() < PACKET_HEADER_LEN + padding_len {
        return Err("Packet too small for claimed padding length");
    }
    let payload = vstd::slice::slice_subrange(raw, PACKET_HEADER_LEN + padding_len, raw.len());
    Ok((packet_type, payload))
}

/// Frames `payload` as a packet of the given type, padded with random bytes
/// up to a whole number of 2048-byte cells: every payload of up to 2045
/// bytes travels in a packet of exactly 2048 bytes.
pub fn encode_packet(packet_type: PacketType, payload: &[u8]) -> (buffer: Vec<u8>)
    requires
        payload@.len() + MAX_FRAME_OVERHEAD <= usize::MAX,
    ensures
        buffer@.len() == 3 + packet_padding_len(payload@.len()) + payload@.len(),
        buffer@.len() % 2048 == 0,
        payload@.len() <= 2045 ==> buffer@.len() == 2048,
        buffer@[0] == packet_type_byte(packet_type),
        claimed_padding(buffer@) == packet_padding_len(payload@.len()),
        buffer@.subrange((3 + packet_padding_len(payload@.len())) as int, buffer@.len() as int) == payload@,
        packet_type != PacketType::Unknown ==> decode_spec(buffer@) == Ok::<(PacketType, Seq<u8>), ()>((packet_type, payload@)),
{
    let payload_len = payload.len();
    let padding_len = (PACKET_CELL_SIZE - ((PACKET_HEADER_LEN + payload_len) % PACKET_CELL_SIZE)) % PACKET_CELL_SIZE;
    let mut buffer: Vec<u8> = Vec::new();
    buffer.push(packet_type.to_byte());
    buffer.push((padding_len / 256) as u8);
    buffer.push((padding_len % 256) as u8);
    let mut padding: Vec<u8> = Vec::new();
    let mut i: usize = 0;
    while i < padding_len
        invariant
            i <= padding_len,
            padding@.len() == i,
        decreases padding_len - i,
    {
        padding.push(0u8);
        i = i + 1;
    }
    if padding_len > 0 {
        fill_random(padding.as_mut_slice());
    }
    buffer.extend_from_slice(padding.as_slice());
    buffer.extend_from_slice(payload);
    proof {
        let l = payload_len as int;
        assert((3 + (2048 - ((3 + l) % 2048)) % 2048 + l) % 2048 == 0) by (nonlinear_arith)
            requires l >= 0;
        assert(l <= 2045 ==> 3 + (2048 - ((3 + l) % 2048)) % 2048 + l == 2048) by (nonlinear_arith)
            requires l >= 0;
        assert(buffer@[1] * 256 + buffer@[2] == padding_len);
        assert(buffer@.subrange(3 + padding_len as int, buffer@.len() as int) =~= payload@);
        if packet_type != PacketType::Unknown {
            lemma_decode_encode(packet_type, payload@, buffer@);
        }
    }
    buffer
}

/// Framing and parsing are inverse: a packet of any known type decodes to the
/// type and payload it was encoded with, whatever random padding it carries.
pub proof fn lemma_decode_encode(packet_type: PacketType, payload: Seq<u8>, encoded: Seq<u8>)
    requires
        packet_type != PacketType::Unknown,
        encoded.len() == 3 + packet_padding_len(payload.len()) + payload.len(),
        encoded[0] == packet_type_byte(packet_type),
        claimed_padding(encoded) == packet_padding_len(payload.len()),
        encoded.subrange((3 + packet_padding_len(payload.len())) as int, encoded.len() as int) == payload,
    ensures
        decode_spec(encoded) == Ok::<(PacketType, Seq<u8>), ()>((packet_type, payload)),
{
    assert(packet_type_of_byte(packet_type_byte(packet_type)) == packet_type);
}

} // verus!
