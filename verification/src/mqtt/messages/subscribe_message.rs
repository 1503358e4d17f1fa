use crate::encoding::{
    encode_string, lemma_parse_string, lemma_parse_u16, lemma_parse_u8, parse_string, parse_u16,
    parse_u8, push_string, push_u16, read_string, read_u16, read_u8, string_fits, u16_be,
    MAX_STRING_BYTES,
};
use crate::mqtt::messages::fixed_header::{
    frame, frameable, lemma_parse_frame, parse_frame, read_frame, write_frame,
};
use crate::mqtt::messages::packet_type::PacketType;
use crate::mqtt::mqtt_error::MqttError;
use vstd::prelude::*;
use vstd::string::*;
use vstd::utf8::*;

verus! {

/// SUBSCRIBE: a packet id and the topics a client wants, each with the
/// quality of service it asks for.
#[derive(Debug, PartialEq, Eq)]
pub struct SubscribeMessage {
    packet_type: u8,
    flags: u8,
    packet_identifier: u16,
    topic_filters: Vec<(String, u8)>,
}

/// What a SUBSCRIBE says, as plain mathematical values.
pub struct SubscribeView {
    pub packet_id: u16,
    pub filters: Seq<(Seq<char>, u8)>,
}

/// The filters of a vector of `(topic, qos)` pairs.
pub open spec fn filters_view(v: Seq<(String, u8)>) -> Seq<(Seq<char>, u8)> {
    Seq::new(v.len(), |i: int| (v[i].0@, v[i].1))
}

/// Each filter in turn: topic string, then one byte of requested quality of
/// service.
pub open spec fn encode_filters(fs: Seq<(Seq<char>, u8)>) -> Seq<u8>
    decreases fs.len(),
{
    if fs.len() == 0 {
        Seq::empty()
    } else {
        encode_string(fs[0].0) + seq![fs[0].1] + encode_filters(fs.skip(1))
    }
}

/// Reads filters until `b` is used up. A requested quality of service above
/// 2 is refused.
pub open spec fn parse_filters(b: Seq<u8>) -> Option<Seq<(Seq<char>, u8)>>
    decreases b.len(),
{
    if b.len() == 0 {
        Some(Seq::empty())
    } else {
        match parse_string(b) {
            None => None,
            Some((topic, rest)) => match parse_u8(rest) {
                None => None,
                Some((qos, tail)) => if qos > 2 || tail.len() >= b.len() {
                    None
                } else {
                    match parse_filters(tail) {
                        None => None,
                        Some(fs) => Some(seq![(topic, qos)] + fs),
                    }
                },
            },
        }
    }
}

/// Every filter can be written: its topic fits a string and its quality of
/// service is at most 2.
pub open spec fn filters_wf(fs: Seq<(Seq<char>, u8)>) -> bool {
    forall|i: int| 0 <= i < fs.len() ==> string_fits((#[trigger] fs[i]).0) && fs[i].1 <= 2
}

pub proof fn lemma_parse_filters(fs: Seq<(Seq<char>, u8)>)
    requires
        filters_wf(fs),
    ensures
        parse_filters(encode_filters(fs)) == Some(fs),
    decreases fs.len(),
{
    if fs.len() > 0 {
        let tail = fs.skip(1);
        assert forall|i: int| 0 <= i < tail.len() implies string_fits((#[trigger] tail[i]).0)
            && tail[i].1 <= 2 by {
            assert(tail[i] == fs[i + 1]);
        }
        lemma_parse_filters(tail);
        let rest = encode_filters(tail);
        assert(string_fits(fs[0].0));
        assert(encode_filters(fs) =~= encode_string(fs[0].0) + (seq![fs[0].1] + rest));
        lemma_parse_string(fs[0].0, seq![fs[0].1] + rest);
        lemma_parse_u8(fs[0].1, rest);
        assert(seq![fs[0]] + tail =~= fs);
    }
}

impl SubscribeView {
    pub open spec fn body(self) -> Seq<u8> {
        u16_be(self.packet_id) + encode_filters(self.filters)
    }

    pub open spec fn wf(self) -> bool {
        filters_wf(self.filters) && frameable(self.body())
    }

    /// The first byte of a SUBSCRIBE always carries the flag bits 0010.
    pub open spec fn encode(self) -> Seq<u8> {
        frame(PacketType::Subscribe, 2, self.body())
    }

    /// The SUBSCRIBE that `b` spells, if it is exactly one.
    pub open spec fn decode(b: Seq<u8>) -> Option<SubscribeView> {
        match parse_frame(b) {
            Some((PacketType::Subscribe, flags, body)) => if flags != 2 {
                None
            } else {
                match parse_u16(body) {
                    None => None,
                    Some((packet_id, rest)) => match parse_filters(rest) {
                        None => None,
                        Some(filters) => Some(SubscribeView { packet_id, filters }),
                    },
                }
            },
            _ => None,
        }
    }

    /// Decoding an encoded SUBSCRIBE gives the message back.
    pub proof fn lemma_decode_encode(self)
        requires
            self.wf(),
        ensures
            Self::decode(self.encode()) == Some(self),
    {
        lemma_parse_frame(PacketType::Subscribe, 2, self.body());
        lemma_parse_u16(self.packet_id, encode_filters(self.filters));
        lemma_parse_filters(self.filters);
    }
}

impl View for SubscribeMessage {
    type V = SubscribeView;

    closed spec fn view(&self) -> SubscribeView {
        SubscribeView {
            packet_id: self.packet_identifier,
            filters: filters_view(self.topic_filters@),
        }
    }
}

impl SubscribeMessage {
    #[verifier::type_invariant]
    spec fn well_formed(self) -> bool {
        self.packet_type == 8 && self.flags == 2
    }

    pub fn new(packet_id: u16, topics: Vec<(String, u8)>) -> (msg: Self)
        ensures
            msg@ == (SubscribeView { packet_id, filters: filters_view(topics@) }),
    {
        SubscribeMessage { packet_type: 8, flags: 2, packet_identifier: packet_id, topic_filters: topics }
    }

    /// The packet type, always 8.
    pub fn get_packet_type(&self) -> (kind: u8)
        ensures
            kind == 8,
    {
        proof {
            use_type_invariant(self);
        }
        self.packet_type
    }

    /// The flag bits, always 2.
    pub fn get_flags(&self) -> (flags: u8)
        ensures
            flags == 2,
    {
        proof {
            use_type_invariant(self);
        }
        self.flags
    }

    pub fn get_packet_id(&self) -> (id: u16)
        ensures
            id == self@.packet_id,
    {
        self.packet_identifier
    }

    /// The filters of the message: each a topic and the quality of service
    /// asked for.
    pub fn get_topic_filters(&self) -> (filters: &Vec<(String, u8)>)
        ensures
            filters_view(filters@) == self@.filters,
    {
        &self.topic_filters
    }

    /// A copy of this message.
    pub fn duplicate(&self) -> (copy: SubscribeMessage)
        ensures
            copy@ == self@,
    {
        let mut topics: Vec<(String, u8)> = Vec::new();
        let mut i: usize = 0;
        while i < self.topic_filters.len()
            invariant
                i <= self.topic_filters@.len(),
                topics@.len() == i,
                forall|j: int|
                    0 <= j < i ==> (#[trigger] topics@[j]).0@ == self.topic_filters@[j].0@
                        && topics@[j].1 == self.topic_filters@[j].1,
            decreases self.topic_filters@.len() - i,
        {
            topics.push((self.topic_filters[i].0.clone(), self.topic_filters[i].1));
            i = i + 1;
        }
        assert(filters_view(topics@) =~= filters_view(self.topic_filters@));
        SubscribeMessage {
            packet_type: 8,
            flags: 2,
            packet_identifier: self.packet_identifier,
            topic_filters: topics,
        }
    }

    /// Whether every filter asks for a quality of service of at most 2.
    fn all_qos_valid(&self) -> (ok: bool)
        ensures
            ok == (forall|i: int| 0 <= i < self@.filters.len() ==> (#[trigger] self@.filters[i]).1 <= 2),
    {
        let mut i: usize = 0;
        while i < self.topic_filters.len()
            invariant
                i <= self.topic_filters@.len(),
                forall|j: int| 0 <= j < i ==> (#[trigger] self@.filters[j]).1 <= 2,
            decreases self.topic_filters@.len() - i,
        {
            if self.topic_filters[i].1 > 2 {
                assert(self@.filters[i as int].1 > 2);
                return false;
            }
            i = i + 1;
        }
        true
    }

    /// The packet as it travels. A filter that asks for a quality of service
    /// above 2 makes the message malformed; a topic or a body that does not
    /// fit its length field makes it too long.
    pub fn to_bytes(&self) -> (r: Result<Vec<u8>, MqttError>)
        ensures
            match r {
                Ok(bytes) => self@.wf() && bytes@ == self@.encode(),
                Err(e) => !self@.wf() && e == (if forall|i: int|
                    0 <= i < self@.filters.len() ==> (#[trigger] self@.filters[i]).1 <= 2 {
                    MqttError::TooLong
                } else {
                    MqttError::MalformedPacket
                }),
            },
    {
        if !self.all_qos_valid() {
            return Err(MqttError::MalformedPacket);
        }
        let ghost fs = self@.filters;
        let mut body: Vec<u8> = Vec::new();
        push_u16(&mut body, self.packet_identifier);
        assert(fs.skip(0) =~= fs);
        assert(body@ + encode_filters(fs) =~= self@.body());
        let mut i: usize = 0;
        while i < self.topic_filters.len()
            invariant
                i <= self.topic_filters@.len(),
                fs == self@.filters,
                fs.len() == self.topic_filters@.len(),
                forall|j: int| 0 <= j < fs.len() ==> (#[trigger] fs[j]).1 <= 2,
                forall|j: int| 0 <= j < i ==> string_fits((#[trigger] fs[j]).0),
                body@ + encode_filters(fs.skip(i as int)) == self@.body(),
            decreases self.topic_filters@.len() - i,
        {
            let topic: &str = self.topic_filters[i].0.as_str();
            let qos: u8 = self.topic_filters[i].1;
            assert(fs[i as int] == (topic@, qos));
            if topic.as_bytes().len() > MAX_STRING_BYTES {
                assert(!string_fits(fs[i as int].0));
                return Err(MqttError::TooLong);
            }
            let ghost before = body@;
            let ghost suffix = fs.skip(i as int);
            assert(suffix[0] == fs[i as int]);
            assert(suffix.skip(1) =~= fs.skip(i + 1));
            push_string(&mut body, topic);
            body.push(qos);
            assert(body@ + encode_filters(fs.skip(i + 1)) =~= before + encode_filters(suffix));
            i = i + 1;
        }
        assert(encode_filters(fs.skip(i as int)) =~= Seq::<u8>::empty());
        assert(body@ =~= self@.body());
        match write_frame(PacketType::Subscribe, 2, &body) {
            Ok(bytes) => Ok(bytes),
            Err(e) => Err(e),
        }
    }

    pub fn from_bytes(bytes: &[u8]) -> (r: Result<SubscribeMessage, MqttError>)
        ensures
            match SubscribeView::decode(bytes@) {
                Some(v) => r matches Ok(msg) && msg@ == v,
                None => r == Err::<SubscribeMessage, MqttError>(MqttError::MalformedPacket),
            },
    {
        match read_frame(bytes) {
            Some((PacketType::Subscribe, flags, start)) => {
                if flags != 2 {
                    return Err(MqttError::MalformedPacket);
                }
                match read_u16(bytes, start) {
                    None => Err(MqttError::MalformedPacket),
                    Some((packet_id, first)) => {
                        let mut topics: Vec<(String, u8)> = Vec::new();
                        let mut pos: usize = first;
                        let ghost whole = parse_filters(bytes@.skip(first as int));
                        assert(filters_view(topics@) =~= Seq::empty());
                        while pos < bytes.len()
                            invariant
                                first <= pos <= bytes@.len(),
                                whole == parse_filters(bytes@.skip(first as int)),
                                SubscribeView::decode(bytes@) == match whole {
                                    Some(fs) => Some(SubscribeView { packet_id, filters: fs }),
                                    None => None,
                                },
                                whole == match parse_filters(bytes@.skip(pos as int)) {
                                    Some(fs) => Some(filters_view(topics@) + fs),
                                    None => None,
                                },
                            decreases bytes@.len() - pos,
                        {
                            let ghost here = bytes@.skip(pos as int);
                            let ghost done = filters_view(topics@);
                            match read_string(bytes, pos) {
                                None => {
                                    return Err(MqttError::MalformedPacket);
                                },
                                Some((topic, after_topic)) => match read_u8(bytes, after_topic) {
                                    None => {
                                        return Err(MqttError::MalformedPacket);
                                    },
                                    Some((qos, next)) => {
                                        if qos > 2 {
                                            return Err(MqttError::MalformedPacket);
                                        }
                                        let ghost filter = (topic@, qos);
                                        topics.push((topic, qos));
                                        assert(filters_view(topics@) =~= done.push(filter));
                                        assert forall|fs: Seq<(Seq<char>, u8)>|
                                            done + (seq![filter] + fs) == done.push(filter)
                                                + fs by {
                                            assert(done + (seq![filter] + fs) =~= done.push(filter)
                                                + fs);
                                        }
                                        pos = next;
                                    },
                                },
                            }
                        }
                        assert(bytes@.skip(pos as int).len() == 0);
                        assert(filters_view(topics@) + Seq::empty() =~= filters_view(topics@));
                        Ok(
                            SubscribeMessage {
                                packet_type: 8,
                                flags: 2,
                                packet_identifier: packet_id,
                                topic_filters: topics,
                            },
                        )
                    },
                }
            },
            _ => Err(MqttError::MalformedPacket),
        }
    }
}

impl Clone for SubscribeMessage {
    fn clone(&self) -> (copy: Self)
        ensures
            copy@ == self@,
    {
        self.duplicate()
    }
}

/// Reads one SUBSCRIBE from `msg_bytes`.
pub fn subs_msg_from_bytes(msg_bytes: Vec<u8>) -> (r: Result<SubscribeMessage, MqttError>)
    ensures
        match SubscribeView::decode(msg_bytes@) {
            Some(v) => r matches Ok(msg) && msg@ == v,
            None => r == Err::<SubscribeMessage, MqttError>(MqttError::MalformedPacket),
        },
{
    SubscribeMessage::from_bytes(msg_bytes.as_slice())
}

} // verus!
