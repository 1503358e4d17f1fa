use crate::mqtt::messages::packet_type::PacketType;
use vstd::prelude::*;

verus! {

/// One packet as it was read off a connection: its kind, its bytes, header
/// included, and the client it came from.
#[derive(Debug, Clone, PartialEq, Eq)]
pub struct Packet {
    message_type: PacketType,
    msg_bytes: Vec<u8>,
    client_id: String,
}

pub struct PacketView {
    pub message_type: PacketType,
    pub msg_bytes: Seq<u8>,
    pub client_id: Seq<char>,
}

impl View for Packet {
    type V = PacketView;

    closed spec fn view(&self) -> PacketView {
        PacketView {
            message_type: self.message_type,
            msg_bytes: self.msg_bytes@,
            client_id: self.client_id@,
        }
    }
}

impl Packet {
    pub fn new(message_type: PacketType, msg_bytes: Vec<u8>, client_id: String) -> (packet: Packet)
        ensures
            packet@ == (PacketView {
                message_type,
                msg_bytes: msg_bytes@,
                client_id: client_id@,
            }),
    {
        Packet { message_type, msg_bytes, client_id }
    }

    pub fn get_message_type(&self) -> (kind: PacketType)
        ensures
            kind == self@.message_type,
    {
        self.message_type
    }

    pub fn get_msg_bytes(&self) -> (bytes: &[u8])
        ensures
            bytes@ == self@.msg_bytes,
    {
        self.msg_bytes.as_slice()
    }

    /// The id of the client that sent the packet.
    pub fn get_username(&self) -> (client_id: &str)
        ensures
            client_id@ == self@.client_id,
    {
        self.client_id.as_str()
    }
}

} // verus!
