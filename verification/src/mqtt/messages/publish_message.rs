use crate::encoding::{
    copy_range, encode_string, lemma_parse_remaining_length_bounds, lemma_parse_string,
    lemma_parse_string_inverse, lemma_parse_u16, lemma_parse_u16_inverse, parse_string, parse_u16,
    push_bytes, push_string, push_u16, read_string, read_u16, string_fits, u16_be,
    MAX_REMAINING_LENGTH, MAX_STRING_BYTES,
};
use crate::mqtt::messages::fixed_header::{
    frame, frameable, lemma_parse_frame, parse_frame, read_frame, write_frame,
};
use crate::mqtt::messages::packet_type::PacketType;
use crate::mqtt::messages::publish_flags::PublishFlags;
use crate::mqtt::mqtt_error::MqttError;
use vstd::prelude::*;
use vstd::string::*;
use vstd::utf8::*;

verus! {

/// PUBLISH: a payload for a topic.
#[derive(Debug, PartialEq, Eq)]
pub struct PublishMessage {
    flags: PublishFlags,
    topic: String,
    packet_id: Option<u16>,
    payload: Vec<u8>,
}

/// What a PUBLISH says, as plain mathematical values.
pub struct PublishView {
    pub flags: PublishFlags,
    pub topic: Seq<char>,
    pub packet_id: Option<u16>,
    pub payload: Seq<u8>,
}

impl PublishView {
    /// Topic string, then the packet id when the quality of service asks for
    /// an acknowledgement, then the payload.
    pub open spec fn body(self) -> Seq<u8> {
        encode_string(self.topic) + (match self.packet_id {
            Some(id) => u16_be(id),
            None => Seq::empty(),
        }) + self.payload
    }

    /// A PUBLISH that can travel: a quality of service of at most 2, a packet
    /// id exactly when the quality of service is above 0, and sizes that fit
    /// their length fields.
    pub open spec fn wf(self) -> bool {
        &&& self.flags.valid()
        &&& self.packet_id is Some <==> self.flags.qos > 0
        &&& string_fits(self.topic)
        &&& frameable(self.body())
    }

    pub open spec fn encode(self) -> Seq<u8> {
        frame(PacketType::Publish, self.flags.nibble() as u8, self.body())
    }

    /// The PUBLISH that `b` spells, if it is exactly one.
    pub open spec fn decode(b: Seq<u8>) -> Option<PublishView> {
        match parse_frame(b) {
            Some((PacketType::Publish, nibble, body)) => match PublishFlags::of_nibble(nibble) {
                None => None,
                Some(flags) => match parse_string(body) {
                    None => None,
                    Some((topic, rest)) => if flags.qos > 0 {
                        match parse_u16(rest) {
                            None => None,
                            Some((id, payload)) => Some(
                                PublishView { flags, topic, packet_id: Some(id), payload },
                            ),
                        }
                    } else {
                        Some(PublishView { flags, topic, packet_id: None, payload: rest })
                    },
                },
            },
            _ => None,
        }
    }

    /// The message as a first delivery at the lower of its own quality of
    /// service and `max_qos`, under the packet id `packet_id` when that is
    /// above 0.
    pub open spec fn forwarded(self, max_qos: u8, packet_id: u16) -> PublishView {
        let qos = if self.flags.qos <= max_qos {
            self.flags.qos
        } else {
            max_qos
        };
        PublishView {
            flags: PublishFlags { dup: false, qos, retain: self.flags.retain },
            packet_id: if qos > 0 {
                Some(packet_id)
            } else {
                None
            },
            ..self
        }
    }

    /// Decoding an encoded PUBLISH gives the message back.
    pub proof fn lemma_decode_encode(self)
        requires
            self.wf(),
        ensures
            Self::decode(self.encode()) == Some(self),
    {
        self.flags.lemma_of_nibble();
        lemma_parse_frame(PacketType::Publish, self.flags.nibble() as u8, self.body());
        match self.packet_id {
            Some(id) => {
                assert(self.body() =~= encode_string(self.topic) + (u16_be(id) + self.payload));
                lemma_parse_string(self.topic, u16_be(id) + self.payload);
                lemma_parse_u16(id, self.payload);
            },
            None => {
                assert(self.body() =~= encode_string(self.topic) + self.payload);
                lemma_parse_string(self.topic, self.payload);
            },
        }
    }

    /// Whatever decodes is well formed.
    pub proof fn lemma_decode_wf(b: Seq<u8>)
        ensures
            Self::decode(b) matches Some(v) ==> v.wf(),
    {
        if let Some(v) = Self::decode(b) {
            let body = parse_frame(b).unwrap().2;
            lemma_parse_remaining_length_bounds(b.skip(1));
            lemma_parse_string_inverse(body);
            if v.flags.qos > 0 {
                lemma_parse_u16_inverse(parse_string(body).unwrap().1);
            }
            assert(v.body() =~= body);
        }
    }
}

impl View for PublishMessage {
    type V = PublishView;

    closed spec fn view(&self) -> PublishView {
        PublishView {
            flags: self.flags,
            topic: self.topic@,
            packet_id: self.packet_id,
            payload: self.payload@,
        }
    }
}

/// Why a PUBLISH with these contents cannot be built, if it cannot.
pub open spec fn publish_refusal(v: PublishView) -> Option<MqttError> {
    if !v.flags.valid() || (v.flags.qos > 0 && v.packet_id is None) {
        Some(MqttError::MalformedPacket)
    } else if !string_fits(v.topic) || !frameable(v.body()) {
        Some(MqttError::TooLong)
    } else {
        None
    }
}

impl PublishMessage {
    #[verifier::type_invariant]
    spec fn well_formed(self) -> bool {
        self@.wf()
    }

    /// Builds a PUBLISH. With a quality of service of 0 the packet id is
    /// left out; above 0 one must be given.
    pub fn new(flags: PublishFlags, topic: &str, packet_id: Option<u16>, payload: &[u8]) -> (r:
        Result<PublishMessage, MqttError>)
        ensures
            ({
                let v = PublishView {
                    flags,
                    topic: topic@,
                    packet_id: if flags.qos > 0 {
                        packet_id
                    } else {
                        None
                    },
                    payload: payload@,
                };
                match r {
                    Ok(msg) => publish_refusal(v) is None && msg@ == v && v.wf(),
                    Err(e) => publish_refusal(v) == Some(e),
                }
            }),
    {
        if flags.qos > 2 || (flags.qos > 0 && packet_id.is_none()) {
            return Err(MqttError::MalformedPacket);
        }
        let id: Option<u16> = if flags.qos > 0 {
            packet_id
        } else {
            None
        };
        let id_len: usize = if flags.qos > 0 {
            2
        } else {
            0
        };
        let topic_len: usize = topic.as_bytes().len();
        if topic_len > MAX_STRING_BYTES {
            return Err(MqttError::TooLong);
        }
        let limit: usize = MAX_REMAINING_LENGTH as usize - 2 - id_len - topic_len;
        if payload.len() > limit {
            return Err(MqttError::TooLong);
        }
        let mut content: Vec<u8> = Vec::new();
        push_bytes(&mut content, payload);
        assert(content@ =~= payload@);
        proof {
            let v = PublishView { flags, topic: topic@, packet_id: id, payload: payload@ };
            assert(topic_len == encode_utf8(topic@).len());
            assert(v.body().len() == 2 + topic_len + id_len + payload@.len());
        }
        Ok(PublishMessage { flags, topic: topic.to_owned(), packet_id: id, payload: content })
    }

    pub fn get_flags(&self) -> (flags: PublishFlags)
        ensures
            flags == self@.flags,
    {
        self.flags
    }

    pub fn get_qos(&self) -> (qos: u8)
        ensures
            qos == self@.flags.qos,
            qos <= 2,
    {
        proof {
            use_type_invariant(self);
        }
        self.flags.qos
    }

    pub fn get_topic(&self) -> (topic: &str)
        ensures
            topic@ == self@.topic,
    {
        self.topic.as_str()
    }

    pub fn get_topic_name(&self) -> (topic: String)
        ensures
            topic@ == self@.topic,
    {
        self.topic.clone()
    }

    pub fn get_packet_id(&self) -> (id: Option<u16>)
        ensures
            id == self@.packet_id,
    {
        self.packet_id
    }

    pub fn get_payload(&self) -> (payload: Vec<u8>)
        ensures
            payload@ == self@.payload,
    {
        let mut payload: Vec<u8> = Vec::new();
        push_bytes(&mut payload, self.payload.as_slice());
        assert(payload@ =~= self.payload@);
        payload
    }

    /// A copy of this message.
    pub fn duplicate(&self) -> (copy: PublishMessage)
        ensures
            copy@ == self@,
    {
        proof {
            use_type_invariant(self);
        }
        let payload = self.get_payload();
        PublishMessage {
            flags: self.flags,
            topic: self.topic.clone(),
            packet_id: self.packet_id,
            payload,
        }
    }

    /// The same message marked as a repeated delivery.
    pub fn as_duplicate(&self) -> (copy: PublishMessage)
        ensures
            copy@ == (PublishView {
                flags: PublishFlags { dup: true, ..self@.flags },
                ..self@
            }),
    {
        proof {
            use_type_invariant(self);
        }
        let payload = self.get_payload();
        let copy = PublishMessage {
            flags: PublishFlags { dup: true, qos: self.flags.qos, retain: self.flags.retain },
            topic: self.topic.clone(),
            packet_id: self.packet_id,
            payload,
        };
        assert(copy@.body() == self@.body());
        copy
    }

    /// The message as the broker forwards it to one subscriber: delivered
    /// for the first time, at the lower of its own quality of service and
    /// `max_qos`, under the packet id `packet_id` when that is above 0.
    pub fn forwarded(&self, max_qos: u8, packet_id: u16) -> (copy: PublishMessage)
        ensures
            copy@ == self@.forwarded(max_qos, packet_id),
            copy@.wf(),
    {
        proof {
            use_type_invariant(self);
        }
        let qos: u8 = if self.flags.qos <= max_qos {
            self.flags.qos
        } else {
            max_qos
        };
        let payload = self.get_payload();
        let copy = PublishMessage {
            flags: PublishFlags { dup: false, qos, retain: self.flags.retain },
            topic: self.topic.clone(),
            packet_id: if qos > 0 {
                Some(packet_id)
            } else {
                None
            },
            payload,
        };
        assert(copy@.body().len() <= self@.body().len());
        copy
    }

    pub fn to_bytes(&self) -> (bytes: Vec<u8>)
        ensures
            self@.wf(),
            bytes@ == self@.encode(),
    {
        proof {
            use_type_invariant(self);
        }
        let mut body: Vec<u8> = Vec::new();
        push_string(&mut body, self.topic.as_str());
        match self.packet_id {
            Some(id) => push_u16(&mut body, id),
            None => {},
        }
        push_bytes(&mut body, self.payload.as_slice());
        assert(body@ =~= self@.body());
        match write_frame(PacketType::Publish, self.flags.to_flags_byte(), &body) {
            Ok(bytes) => bytes,
            Err(_) => Vec::new(),
        }
    }

    pub fn from_bytes(bytes: &[u8]) -> (r: Result<PublishMessage, MqttError>)
        ensures
            match PublishView::decode(bytes@) {
                Some(v) => r matches Ok(msg) && msg@ == v,
                None => r == Err::<PublishMessage, MqttError>(MqttError::MalformedPacket),
            },
    {
        proof {
            PublishView::lemma_decode_wf(bytes@);
        }
        match read_frame(bytes) {
            Some((PacketType::Publish, nibble, start)) => match PublishFlags::from_flags_byte(
                nibble,
            ) {
                None => Err(MqttError::MalformedPacket),
                Some(flags) => match read_string(bytes, start) {
                    None => Err(MqttError::MalformedPacket),
                    Some((topic, after_topic)) => {
                        if flags.qos > 0 {
                            match read_u16(bytes, after_topic) {
                                None => Err(MqttError::MalformedPacket),
                                Some((id, after_id)) => {
                                    let payload = copy_range(bytes, after_id, bytes.len());
                                    assert(payload@ =~= bytes@.skip(after_id as int));
                                    Ok(
                                        PublishMessage {
                                            flags,
                                            topic,
                                            packet_id: Some(id),
                                            payload,
                                        },
                                    )
                                },
                            }
                        } else {
                            let payload = copy_range(bytes, after_topic, bytes.len());
                            assert(payload@ =~= bytes@.skip(after_topic as int));
                            Ok(PublishMessage { flags, topic, packet_id: None, payload })
                        }
                    },
                },
            },
            _ => Err(MqttError::MalformedPacket),
        }
    }
}

impl Clone for PublishMessage {
    fn clone(&self) -> (copy: Self)
        ensures
            copy@ == self@,
    {
        self.duplicate()
    }
}

} // verus!
