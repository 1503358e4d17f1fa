use crate::encoding::{lemma_parse_u16, parse_u16, push_u16, read_u16, u16_be};
use crate::mqtt::messages::fixed_header::{
    frame, lemma_parse_frame, parse_frame, read_frame, write_frame,
};
use crate::mqtt::messages::packet_type::PacketType;
use crate::mqtt::mqtt_error::MqttError;
use vstd::prelude::*;

verus! {

/// PUBACK: acknowledges the QoS-1 PUBLISH that carried the same packet id.
#[derive(Debug, Clone, Copy, PartialEq, Eq, Structural)]
pub struct PubAckMessage {
    packet_id: u16,
}

impl PubAckMessage {
    pub closed spec fn packet_id(self) -> u16 {
        self.packet_id
    }

    /// The packet as it travels.
    pub open spec fn encode(self) -> Seq<u8> {
        frame(PacketType::Puback, 0, u16_be(self.packet_id()))
    }

    /// The acknowledgement that `b` spells, if it is exactly one PUBACK.
    pub open spec fn decode(b: Seq<u8>) -> Option<u16> {
        match parse_frame(b) {
            Some((PacketType::Puback, flags, body)) => match parse_u16(body) {
                Some((id, rest)) => if flags == 0 && rest.len() == 0 {
                    Some(id)
                } else {
                    None
                },
                None => None,
            },
            _ => None,
        }
    }

    /// Decoding an encoded PUBACK gives its packet id back.
    pub proof fn lemma_decode_encode(self)
        ensures
            Self::decode(self.encode()) == Some(self.packet_id()),
    {
        let body = u16_be(self.packet_id());
        lemma_parse_frame(PacketType::Puback, 0, body);
        lemma_parse_u16(self.packet_id(), Seq::empty());
        assert(body + Seq::<u8>::empty() =~= body);
    }

    pub fn new(packet_id: u16) -> (msg: Self)
        ensures
            msg.packet_id() == packet_id,
    {
        PubAckMessage { packet_id }
    }

    pub fn get_packet_id(&self) -> (id: u16)
        ensures
            id == self.packet_id(),
    {
        self.packet_id
    }

    pub fn to_bytes(&self) -> (bytes: Vec<u8>)
        ensures
            bytes@ == self.encode(),
    {
        let mut body: Vec<u8> = Vec::new();
        push_u16(&mut body, self.packet_id);
        assert(body@ =~= u16_be(self.packet_id));
        match write_frame(PacketType::Puback, 0, &body) {
            Ok(bytes) => bytes,
            Err(_) => Vec::new(),
        }
    }

    pub fn from_bytes(bytes: &[u8]) -> (r: Result<PubAckMessage, MqttError>)
        ensures
            match Self::decode(bytes@) {
                Some(id) => r matches Ok(msg) && msg.packet_id() == id,
                None => r == Err::<PubAckMessage, MqttError>(MqttError::MalformedPacket),
            },
    {
        match read_frame(bytes) {
            Some((PacketType::Puback, flags, start)) => match read_u16(bytes, start) {
                Some((id, end)) => if flags == 0 && end == bytes.len() {
                    Ok(PubAckMessage { packet_id: id })
                } else {
                    Err(MqttError::MalformedPacket)
                },
                None => Err(MqttError::MalformedPacket),
            },
            _ => Err(MqttError::MalformedPacket),
        }
    }

    pub fn msg_from_bytes(bytes: Vec<u8>) -> (r: Result<PubAckMessage, MqttError>)
        ensures
            match Self::decode(bytes@) {
                Some(id) => r matches Ok(msg) && msg.packet_id() == id,
                None => r == Err::<PubAckMessage, MqttError>(MqttError::MalformedPacket),
            },
    {
        Self::from_bytes(bytes.as_slice())
    }
}

} // verus!
