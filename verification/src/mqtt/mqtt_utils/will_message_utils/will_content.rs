use crate::apps::payload_error::PayloadError;
use crate::mqtt::mqtt_utils::will_message_utils::app_type::AppType;
use vstd::prelude::*;

verus! {

/// What the will of an agent tells the others: the kind of application
/// that died and which one of its kind it was.
#[derive(Debug, Clone, Copy, PartialEq, Eq, Structural)]
pub struct WillContent {
    pub app_type: AppType,
    pub id: u8,
}

impl WillContent {
    /// The kind of application, then the id: two bytes.
    pub open spec fn encode(self) -> Seq<u8> {
        seq![self.app_type.code(), self.id]
    }

    pub open spec fn decode(b: Seq<u8>) -> Result<WillContent, PayloadError> {
        if b.len() != 2 {
            Err(PayloadError::WrongLength)
        } else {
            match AppType::of_code(b[0]) {
                Some(app_type) => Ok(WillContent { app_type, id: b[1] }),
                None => Err(PayloadError::InvalidValue),
            }
        }
    }

    /// Decoding an encoded will content gives it back.
    pub proof fn lemma_decode_encode(self)
        ensures
            Self::decode(self.encode()) == Ok::<WillContent, PayloadError>(self),
    {
    }

    pub fn new(app_type: AppType, id: u8) -> (content: Self)
        ensures
            content == (WillContent { app_type, id }),
    {
        WillContent { app_type, id }
    }

    pub fn get_app_type(&self) -> (app_type: AppType)
        ensures
            app_type == self.app_type,
    {
        self.app_type
    }

    pub fn get_id(&self) -> (id: u8)
        ensures
            id == self.id,
    {
        self.id
    }

    pub fn to_bytes(&self) -> (bytes: Vec<u8>)
        ensures
            bytes@ == self.encode(),
    {
        let mut bytes: Vec<u8> = Vec::new();
        bytes.push(self.app_type.to_byte());
        bytes.push(self.id);
        bytes
    }

    pub fn from_bytes(bytes: &[u8]) -> (r: Result<WillContent, PayloadError>)
        ensures
            r == Self::decode(bytes@),
    {
        if bytes.len() != 2 {
            return Err(PayloadError::WrongLength);
        }
        match AppType::from_byte(bytes[0]) {
            Some(app_type) => Ok(WillContent { app_type, id: bytes[1] }),
            None => Err(PayloadError::InvalidValue),
        }
    }
}

} // verus!
