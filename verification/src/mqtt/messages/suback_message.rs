use crate::encoding::{lemma_parse_u16, parse_u16, push_u16, read_u16, u16_be, MAX_REMAINING_LENGTH};
use crate::mqtt::messages::fixed_header::{
    frame, frameable, lemma_parse_frame, parse_frame, read_frame, write_frame,
};
use crate::mqtt::messages::packet_type::PacketType;
use crate::mqtt::messages::subscribe_return_code::SubscribeReturnCode;
use crate::mqtt::mqtt_error::MqttError;
use vstd::prelude::*;

verus! {

/// SUBACK: answers the SUBSCRIBE with the same packet id, one return code
/// per requested filter, in the order they were asked.
#[derive(Debug, PartialEq, Eq)]
pub struct SubAckMessage {
    packet_id: u16,
    return_codes: Vec<SubscribeReturnCode>,
}

/// What a SUBACK says, as plain mathematical values.
pub struct SubAckView {
    pub packet_id: u16,
    pub return_codes: Seq<SubscribeReturnCode>,
}

impl SubAckView {
    pub open spec fn body(self) -> Seq<u8> {
        u16_be(self.packet_id) + Seq::new(
            self.return_codes.len(),
            |i: int| self.return_codes[i].code(),
        )
    }

    pub open spec fn wf(self) -> bool {
        frameable(self.body())
    }

    /// Whether the broker refused at least one of the requested filters.
    pub open spec fn refuses(self) -> bool {
        exists|i: int|
            0 <= i < self.return_codes.len() && #[trigger] self.return_codes[i]
                == SubscribeReturnCode::Failure
    }

    pub open spec fn encode(self) -> Seq<u8> {
        frame(PacketType::Suback, 0, self.body())
    }

    /// The SUBACK that `b` spells, if it is exactly one.
    pub open spec fn decode(b: Seq<u8>) -> Option<SubAckView> {
        match parse_frame(b) {
            Some((PacketType::Suback, flags, body)) => match parse_u16(body) {
                None => None,
                Some((packet_id, rest)) => if flags == 0 && forall|i: int|
                    0 <= i < rest.len() ==> SubscribeReturnCode::of_code(#[trigger] rest[i])
                        is Some {
                    Some(
                        SubAckView {
                            packet_id,
                            return_codes: Seq::new(
                                rest.len(),
                                |i: int| SubscribeReturnCode::of_code(rest[i]).unwrap(),
                            ),
                        },
                    )
                } else {
                    None
                },
            },
            _ => None,
        }
    }

    /// Decoding an encoded SUBACK gives the message back.
    pub proof fn lemma_decode_encode(self)
        requires
            self.wf(),
        ensures
            Self::decode(self.encode()) == Some(self),
    {
        let codes = Seq::new(self.return_codes.len(), |i: int| self.return_codes[i].code());
        lemma_parse_frame(PacketType::Suback, 0, self.body());
        lemma_parse_u16(self.packet_id, codes);
        assert forall|i: int| 0 <= i < codes.len() implies SubscribeReturnCode::of_code(
            #[trigger] codes[i],
        ) == Some(self.return_codes[i]) by {
            self.return_codes[i].lemma_of_code();
        }
        let back = Seq::new(codes.len(), |i: int| SubscribeReturnCode::of_code(codes[i]).unwrap());
        assert(back =~= self.return_codes);
    }
}

impl View for SubAckMessage {
    type V = SubAckView;

    closed spec fn view(&self) -> SubAckView {
        SubAckView { packet_id: self.packet_id, return_codes: self.return_codes@ }
    }
}

impl SubAckMessage {
    pub fn new(packet_id: u16, return_codes: Vec<SubscribeReturnCode>) -> (msg: Self)
        ensures
            msg@ == (SubAckView { packet_id, return_codes: return_codes@ }),
    {
        SubAckMessage { packet_id, return_codes }
    }

    pub fn get_packet_id(&self) -> (id: u16)
        ensures
            id == self@.packet_id,
    {
        self.packet_id
    }

    pub fn get_return_codes(&self) -> (codes: &Vec<SubscribeReturnCode>)
        ensures
            codes@ == self@.return_codes,
    {
        &self.return_codes
    }

    /// Whether the broker refused at least one of the requested filters.
    pub fn has_failure(&self) -> (b: bool)
        ensures
            b == self@.refuses(),
    {
        let mut i: usize = 0;
        while i < self.return_codes.len()
            invariant
                i <= self.return_codes@.len(),
                forall|j: int|
                    0 <= j < i ==> #[trigger] self.return_codes@[j] != SubscribeReturnCode::Failure,
            decreases self.return_codes@.len() - i,
        {
            if self.return_codes[i].is_failure() {
                return true;
            }
            i = i + 1;
        }
        false
    }

    /// Tells whether the subscription went through: it failed if the
    /// broker refused at least one of the requested filters.
    pub fn check_granted(&self) -> (r: Result<(), MqttError>)
        ensures
            match r {
                Ok(_) => !self@.refuses(),
                Err(e) => self@.refuses() && e == MqttError::SubscriptionRefused,
            },
    {
        if self.has_failure() {
            Err(MqttError::SubscriptionRefused)
        } else {
            Ok(())
        }
    }

    /// A copy of this message.
    pub fn duplicate(&self) -> (copy: SubAckMessage)
        ensures
            copy@ == self@,
    {
        let mut codes: Vec<SubscribeReturnCode> = Vec::new();
        let mut k: usize = 0;
        while k < self.return_codes.len()
            invariant
                k <= self.return_codes@.len(),
                codes@ == self.return_codes@.take(k as int),
            decreases self.return_codes@.len() - k,
        {
            codes.push(self.return_codes[k]);
            k = k + 1;
            assert(codes@ =~= self.return_codes@.take(k as int));
        }
        assert(self.return_codes@.take(k as int) =~= self.return_codes@);
        SubAckMessage { packet_id: self.packet_id, return_codes: codes }
    }

    pub fn to_bytes(&self) -> (r: Result<Vec<u8>, MqttError>)
        ensures
            match r {
                Ok(bytes) => self@.wf() && bytes@ == self@.encode(),
                Err(e) => !self@.wf() && e == MqttError::TooLong,
            },
    {
        let ghost codes = Seq::new(
            self@.return_codes.len(),
            |i: int| self@.return_codes[i].code(),
        );
        if self.return_codes.len() > MAX_REMAINING_LENGTH as usize - 2 {
            assert(self@.body().len() == 2 + codes.len());
            return Err(MqttError::TooLong);
        }
        let mut body: Vec<u8> = Vec::new();
        push_u16(&mut body, self.packet_id);
        let mut i: usize = 0;
        while i < self.return_codes.len()
            invariant
                i <= self.return_codes@.len(),
                codes == Seq::new(self@.return_codes.len(), |i: int| self@.return_codes[i].code()),
                body@ == u16_be(self.packet_id) + codes.take(i as int),
            decreases self.return_codes@.len() - i,
        {
            body.push(self.return_codes[i].to_u8());
            i = i + 1;
            assert(body@ =~= u16_be(self.packet_id) + codes.take(i as int));
        }
        assert(codes.take(i as int) =~= codes);
        write_frame(PacketType::Suback, 0, &body)
    }

    pub fn from_bytes(bytes: &[u8]) -> (r: Result<SubAckMessage, MqttError>)
        ensures
            match SubAckView::decode(bytes@) {
                Some(v) => r matches Ok(msg) && msg@ == v,
                None => r == Err::<SubAckMessage, MqttError>(MqttError::MalformedPacket),
            },
    {
        match read_frame(bytes) {
            Some((PacketType::Suback, flags, start)) => {
                if flags != 0 {
                    return Err(MqttError::MalformedPacket);
                }
                match read_u16(bytes, start) {
                    None => Err(MqttError::MalformedPacket),
                    Some((packet_id, first)) => {
                        let ghost rest = bytes@.skip(first as int);
                        let mut codes: Vec<SubscribeReturnCode> = Vec::new();
                        let mut pos: usize = first;
                        while pos < bytes.len()
                            invariant
                                first <= pos <= bytes@.len(),
                                rest == bytes@.skip(first as int),
                                codes@.len() == pos - first,
                                forall|i: int|
                                    0 <= i < codes@.len() ==> SubscribeReturnCode::of_code(
                                        #[trigger] rest[i],
                                    ) == Some(codes@[i]),
                                SubAckView::decode(bytes@) == if forall|i: int|
                                    0 <= i < rest.len() ==> SubscribeReturnCode::of_code(
                                        #[trigger] rest[i],
                                    ) is Some {
                                    Some(
                                        SubAckView {
                                            packet_id,
                                            return_codes: Seq::new(
                                                rest.len(),
                                                |i: int|
                                                    SubscribeReturnCode::of_code(rest[i]).unwrap(),
                                            ),
                                        },
                                    )
                                } else {
                                    None
                                },
                            decreases bytes@.len() - pos,
                        {
                            match SubscribeReturnCode::from_u8(bytes[pos]) {
                                None => {
                                    assert(rest[pos - first] == bytes@[pos as int]);
                                    return Err(MqttError::MalformedPacket);
                                },
                                Some(code) => {
                                    assert(rest[pos - first] == bytes@[pos as int]);
                                    codes.push(code);
                                    pos = pos + 1;
                                },
                            }
                        }
                        assert(codes@ =~= Seq::new(
                            rest.len(),
                            |i: int| SubscribeReturnCode::of_code(rest[i]).unwrap(),
                        ));
                        Ok(SubAckMessage { packet_id, return_codes: codes })
                    },
                }
            },
            _ => Err(MqttError::MalformedPacket),
        }
    }
}

impl Clone for SubAckMessage {
    fn clone(&self) -> (copy: Self)
        ensures
            copy@ == self@,
    {
        self.duplicate()
    }
}

} // verus!
