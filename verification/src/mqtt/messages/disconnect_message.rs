use crate::mqtt::messages::fixed_header::{
    frame, lemma_parse_frame, parse_frame, read_frame, write_frame,
};
use crate::mqtt::messages::packet_type::PacketType;
use crate::mqtt::mqtt_error::MqttError;
use vstd::prelude::*;

verus! {

/// DISCONNECT: the client leaves on purpose. It has no body.
#[derive(Debug, Clone, Copy, PartialEq, Eq, Structural)]
pub struct DisconnectMessage {}

impl DisconnectMessage {
    pub open spec fn encode() -> Seq<u8> {
        frame(PacketType::Disconnect, 0, Seq::empty())
    }

    /// Whether `b` is exactly one DISCONNECT.
    pub open spec fn decodes(b: Seq<u8>) -> bool {
        parse_frame(b) == Some((PacketType::Disconnect, 0u8, Seq::<u8>::empty()))
    }

    /// An encoded DISCONNECT is recognised as one.
    pub proof fn lemma_decode_encode()
        ensures
            Self::decodes(Self::encode()),
    {
        lemma_parse_frame(PacketType::Disconnect, 0, Seq::empty());
    }

    pub fn new() -> (msg: Self) {
        DisconnectMessage {  }
    }

    pub fn to_bytes(&self) -> (bytes: Vec<u8>)
        ensures
            bytes@ == Self::encode(),
    {
        let body: Vec<u8> = Vec::new();
        assert(body@ =~= Seq::<u8>::empty());
        match write_frame(PacketType::Disconnect, 0, &body) {
            Ok(bytes) => bytes,
            Err(_) => Vec::new(),
        }
    }

    pub fn from_bytes(bytes: &[u8]) -> (r: Result<DisconnectMessage, MqttError>)
        ensures
            r is Ok <==> Self::decodes(bytes@),
            r is Err ==> r == Err::<DisconnectMessage, MqttError>(MqttError::MalformedPacket),
    {
        match read_frame(bytes) {
            Some((PacketType::Disconnect, flags, start)) => if flags == 0 && start == bytes.len() {
                assert(bytes@.skip(start as int) =~= Seq::<u8>::empty());
                Ok(DisconnectMessage {  })
            } else {
                Err(MqttError::MalformedPacket)
            },
            _ => Err(MqttError::MalformedPacket),
        }
    }
}

} // verus!
