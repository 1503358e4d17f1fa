use crate::encoding::{
    encode_remaining_length, lemma_parse_remaining_length, lemma_parse_remaining_length_bounds,
    lemma_parse_u8, parse_remaining_length, parse_u8, push_bytes, push_remaining_length,
    read_remaining_length, read_u8, MAX_REMAINING_LENGTH,
};
use crate::mqtt::messages::packet_type::PacketType;
use crate::mqtt::mqtt_error::MqttError;
use vstd::prelude::*;

verus! {

/// What opens every packet: its kind, four flag bits and the number of bytes
/// that follow the header.
#[derive(Debug, Clone, Copy, PartialEq, Eq, Structural)]
pub struct FixedHeader {
    pub packet_type: PacketType,
    pub flags: u8,
    pub remaining_length: u32,
}

/// The fixed header of a packet of kind `kind` with flag bits `flags` whose
/// body is `len` bytes long.
pub open spec fn encode_header(kind: PacketType, flags: u8, len: nat) -> Seq<u8> {
    seq![(kind.code() * 16 + flags) as u8] + encode_remaining_length(len)
}

/// Reads a fixed header from the front of `b`: kind, flags, announced body
/// length, and what follows the header.
pub open spec fn parse_header(b: Seq<u8>) -> Option<(PacketType, u8, nat, Seq<u8>)> {
    match parse_u8(b) {
        None => None,
        Some((first, rest)) => match PacketType::of_code(first / 16) {
            None => None,
            Some(kind) => match parse_remaining_length(rest) {
                None => None,
                Some((n, body)) => Some((kind, first % 16, n, body)),
            },
        },
    }
}

/// A whole packet: fixed header, then the body.
pub open spec fn frame(kind: PacketType, flags: u8, body: Seq<u8>) -> Seq<u8> {
    encode_header(kind, flags, body.len()) + body
}

/// A body can be framed when its length fits the remaining-length field.
pub open spec fn frameable(body: Seq<u8>) -> bool {
    body.len() <= MAX_REMAINING_LENGTH
}

/// Splits exactly one packet into kind, flags and body. Bytes that stop
/// short of the announced length, or run past it, are no packet.
pub open spec fn parse_frame(b: Seq<u8>) -> Option<(PacketType, u8, Seq<u8>)> {
    match parse_header(b) {
        None => None,
        Some((kind, flags, n, body)) => if body.len() == n {
            Some((kind, flags, body))
        } else {
            None
        },
    }
}

pub proof fn lemma_parse_frame(kind: PacketType, flags: u8, body: Seq<u8>)
    requires
        flags < 16,
        frameable(body),
    ensures
        parse_frame(frame(kind, flags, body)) == Some((kind, flags, body)),
{
    let first = (kind.code() * 16 + flags) as u8;
    let tail = encode_remaining_length(body.len()) + body;
    assert(frame(kind, flags, body) =~= seq![first] + tail);
    lemma_parse_u8(first, tail);
    lemma_parse_remaining_length(body.len(), body);
    assert(first / 16 == kind.code());
    assert(first % 16 == flags);
}

/// Whether `b`, read so far from the front of a packet, stops short of the
/// end of the fixed header: there is no length byte yet, or every length
/// byte so far announces another and there are fewer than four.
pub open spec fn header_unfinished(b: Seq<u8>) -> bool {
    b.len() < 2 || (b.len() < 5 && forall|i: int| 1 <= i < b.len() ==> b[i] >= 128)
}

/// Bytes from which a fixed header can be read do not stop short of its
/// end.
pub proof fn lemma_parsed_header_is_finished(b: Seq<u8>)
    ensures
        parse_header(b) is Some ==> !header_unfinished(b),
{
    if parse_header(b) is Some {
        let rest = b.skip(1);
        assert(rest.len() == b.len() - 1);
        assert(forall|i: int| 0 <= i < rest.len() ==> rest[i] == b[i + 1]);
        if rest[0] < 128 {
            assert(b[1] < 128);
        } else if rest[1] < 128 {
            assert(b[2] < 128);
        } else if rest[2] < 128 {
            assert(b[3] < 128);
        } else {
            assert(b[4] < 128);
        }
    }
}

impl FixedHeader {
    /// Whether more bytes are to be read before the fixed header at the
    /// front of `bytes` can be told.
    pub fn is_unfinished(bytes: &[u8]) -> (unfinished: bool)
        ensures
            unfinished == header_unfinished(bytes@),
    {
        if bytes.len() < 2 {
            return true;
        }
        if bytes.len() >= 5 {
            return false;
        }
        let mut i: usize = 1;
        while i < bytes.len()
            invariant
                1 <= i <= bytes@.len() < 5,
                forall|j: int| 1 <= j < i ==> bytes@[j] >= 128,
            decreases bytes@.len() - i,
        {
            if bytes[i] < 128 {
                return false;
            }
            i = i + 1;
        }
        true
    }

    pub fn new(packet_type: PacketType, flags: u8, remaining_length: u32) -> (header: Self)
        ensures
            header == (FixedHeader { packet_type, flags, remaining_length }),
    {
        FixedHeader { packet_type, flags, remaining_length }
    }

    pub fn get_message_type(&self) -> (kind: PacketType)
        ensures
            kind == self.packet_type,
    {
        self.packet_type
    }

    pub fn get_remaining_length(&self) -> (n: u32)
        ensures
            n == self.remaining_length,
    {
        self.remaining_length
    }

    /// Reads the fixed header at the front of `bytes` and tells how many
    /// bytes it took; the body is not looked at.
    pub fn from_bytes(bytes: &[u8]) -> (r: Result<(FixedHeader, usize), MqttError>)
        ensures
            match parse_header(bytes@) {
                Some((kind, flags, n, body)) => r matches Ok((header, used)) && header == (
                FixedHeader { packet_type: kind, flags, remaining_length: n as u32 }) && n
                    <= MAX_REMAINING_LENGTH && 2 <= used <= 5 && used <= bytes@.len() && body
                    == bytes@.skip(used as int),
                None => r == Err::<(FixedHeader, usize), MqttError>(MqttError::MalformedPacket),
            },
    {
        assert(bytes@.skip(0) =~= bytes@);
        match read_u8(bytes, 0) {
            None => Err(MqttError::MalformedPacket),
            Some((first, pos)) => match PacketType::from_u8(first / 16) {
                None => Err(MqttError::MalformedPacket),
                Some(kind) => match read_remaining_length(bytes, pos) {
                    None => Err(MqttError::MalformedPacket),
                    Some((n, next)) => {
                        proof {
                            lemma_parse_remaining_length_bounds(bytes@.skip(pos as int));
                        }
                        Ok(
                            (
                                FixedHeader { packet_type: kind, flags: first % 16, remaining_length: n },
                                next,
                            ),
                        )
                    },
                },
            },
        }
    }
}

/// Wraps `body` into a packet of kind `kind`. Flags that do not fit four
/// bits make the packet malformed; a body over the largest remaining
/// length makes it too long.
pub fn write_frame(kind: PacketType, flags: u8, body: &Vec<u8>) -> (r: Result<Vec<u8>, MqttError>)
    ensures
        match r {
            Ok(bytes) => flags < 16 && frameable(body@) && bytes@ == frame(kind, flags, body@),
            Err(e) => e == (if flags >= 16 {
                MqttError::MalformedPacket
            } else {
                MqttError::TooLong
            }) && (flags >= 16 || !frameable(body@)),
        },
{
    if flags >= 16 {
        return Err(MqttError::MalformedPacket);
    }
    if body.len() > MAX_REMAINING_LENGTH as usize {
        return Err(MqttError::TooLong);
    }
    let mut out: Vec<u8> = Vec::new();
    out.push(kind.to_u8() * 16 + flags);
    push_remaining_length(&mut out, body.len() as u32);
    push_bytes(&mut out, body.as_slice());
    assert(out@ =~= frame(kind, flags, body@));
    Ok(out)
}

/// Splits one whole packet: kind, flags, and the index at which its body
/// starts.
pub fn read_frame(bytes: &[u8]) -> (r: Option<(PacketType, u8, usize)>)
    ensures
        match parse_frame(bytes@) {
            Some((kind, flags, body)) => r matches Some((k, f, start)) && k == kind && f == flags
                && start <= bytes@.len() && body == bytes@.skip(start as int),
            None => r is None,
        },
{
    match FixedHeader::from_bytes(bytes) {
        Err(_) => None,
        Ok((header, used)) => {
            if bytes.len() - used == header.remaining_length as usize {
                Some((header.packet_type, header.flags, used))
            } else {
                None
            }
        },
    }
}

} // verus!
