use crate::mqtt::messages::connect_return_code::ConnectReturnCode;
use crate::mqtt::messages::fixed_header::{
    frame, lemma_parse_frame, parse_frame, read_frame, write_frame,
};
use crate::mqtt::messages::packet_type::PacketType;
use crate::mqtt::mqtt_error::MqttError;
use vstd::prelude::*;

verus! {

/// CONNACK: the broker's answer to CONNECT.
#[derive(Debug, Clone, Copy, PartialEq, Eq, Structural)]
pub struct ConnackMessage {
    session_present: bool,
    return_code: ConnectReturnCode,
}

impl ConnackMessage {
    pub closed spec fn session_present(self) -> bool {
        self.session_present
    }

    pub closed spec fn return_code(self) -> ConnectReturnCode {
        self.return_code
    }

    /// Session-present byte, then return-code byte.
    pub open spec fn encode(self) -> Seq<u8> {
        frame(
            PacketType::Connack,
            0,
            seq![if self.session_present() { 1u8 } else { 0u8 }, self.return_code().code()],
        )
    }

    /// The answer that `b` spells, if it is exactly one CONNACK.
    pub open spec fn decode(b: Seq<u8>) -> Option<(bool, ConnectReturnCode)> {
        match parse_frame(b) {
            Some((PacketType::Connack, flags, body)) => if flags == 0 && body.len() == 2 && body[0]
                <= 1 {
                match ConnectReturnCode::of_code(body[1]) {
                    Some(code) => Some((body[0] == 1, code)),
                    None => None,
                }
            } else {
                None
            },
            _ => None,
        }
    }

    /// Decoding an encoded CONNACK gives its two fields back.
    pub proof fn lemma_decode_encode(self)
        ensures
            Self::decode(self.encode()) == Some((self.session_present(), self.return_code())),
    {
        let body = seq![if self.session_present() { 1u8 } else { 0u8 }, self.return_code().code()];
        lemma_parse_frame(PacketType::Connack, 0, body);
        self.return_code().lemma_of_code();
    }

    pub fn new(session_present: bool, return_code: ConnectReturnCode) -> (msg: Self)
        ensures
            msg.session_present() == session_present,
            msg.return_code() == return_code,
    {
        ConnackMessage { session_present, return_code }
    }

    pub fn get_session_present(&self) -> (present: bool)
        ensures
            present == self.session_present(),
    {
        self.session_present
    }

    pub fn get_connect_return_code(&self) -> (code: ConnectReturnCode)
        ensures
            code == self.return_code(),
    {
        self.return_code
    }

    pub fn to_bytes(&self) -> (bytes: Vec<u8>)
        ensures
            bytes@ == self.encode(),
    {
        let mut body: Vec<u8> = Vec::new();
        body.push(if self.session_present { 1 } else { 0 });
        body.push(self.return_code.to_u8());
        assert(body@ =~= seq![
            if self.session_present() { 1u8 } else { 0u8 },
            self.return_code().code(),
        ]);
        match write_frame(PacketType::Connack, 0, &body) {
            Ok(bytes) => bytes,
            Err(_) => Vec::new(),
        }
    }

    pub fn from_bytes(bytes: &[u8]) -> (r: Result<ConnackMessage, MqttError>)
        ensures
            match Self::decode(bytes@) {
                Some((present, code)) => r matches Ok(msg) && msg.session_present() == present
                    && msg.return_code() == code,
                None => r == Err::<ConnackMessage, MqttError>(MqttError::MalformedPacket),
            },
    {
        match read_frame(bytes) {
            Some((PacketType::Connack, flags, start)) => {
                if flags != 0 || bytes.len() - start != 2 {
                    return Err(MqttError::MalformedPacket);
                }
                let present: u8 = bytes[start];
                let code: u8 = bytes[start + 1];
                if present > 1 {
                    return Err(MqttError::MalformedPacket);
                }
                match ConnectReturnCode::from_u8(code) {
                    Some(return_code) => Ok(
                        ConnackMessage { session_present: present == 1, return_code },
                    ),
                    None => Err(MqttError::MalformedPacket),
                }
            },
            _ => Err(MqttError::MalformedPacket),
        }
    }
}

} // verus!
