use crate::apps::incident_data::incident_info::IncidentInfo;
use crate::apps::incident_data::incident_source::IncidentSource;
use crate::apps::payload_error::PayloadError;
use crate::encoding::{lemma_u64_be_value, push_u64, read_be_u64, u64_be, u64_of_be};
use vstd::prelude::*;

verus! {

/// Something that happened at a place and that drones must attend to.
///
/// Coordinates are kept as the bit patterns of IEEE-754 doubles (degrees):
/// the library carries them and never computes with them.
#[derive(Debug, Clone, Copy, PartialEq, Eq, Structural)]
pub struct Incident {
    id: u8,
    latitude: u64,
    longitude: u64,
    source: IncidentSource,
    resolved: bool,
    sent: bool,
}

/// An incident as plain values.
pub struct IncidentView {
    pub id: u8,
    pub latitude: u64,
    pub longitude: u64,
    pub source: IncidentSource,
    pub resolved: bool,
    pub sent: bool,
}

impl IncidentView {
    /// Id, latitude, longitude, source, resolved: 19 bytes. Whether the
    /// incident was already sent is local knowledge and does not travel.
    pub open spec fn encode(self) -> Seq<u8> {
        seq![self.id] + u64_be(self.latitude) + u64_be(self.longitude) + seq![
            self.source.code(),
            if self.resolved {
                1u8
            } else {
                0u8
            },
        ]
    }

    /// The incident that 19 bytes spell. It comes out as not yet sent.
    pub open spec fn decode(b: Seq<u8>) -> Result<IncidentView, PayloadError> {
        if b.len() != 19 {
            Err(PayloadError::WrongLength)
        } else if IncidentSource::of_code(b[17]) is None || b[18] > 1 {
            Err(PayloadError::InvalidValue)
        } else {
            Ok(
                IncidentView {
                    id: b[0],
                    latitude: u64_of_be(b.subrange(1, 9)),
                    longitude: u64_of_be(b.subrange(9, 17)),
                    source: IncidentSource::of_code(b[17]).unwrap(),
                    resolved: b[18] == 1,
                    sent: false,
                },
            )
        }
    }

    /// Decoding an encoded incident gives it back, as not yet sent.
    pub proof fn lemma_decode_encode(self)
        ensures
            Self::decode(self.encode()) == Ok::<IncidentView, PayloadError>(
                IncidentView { sent: false, ..self },
            ),
    {
        let b = self.encode();
        assert(b.subrange(1, 9) =~= u64_be(self.latitude));
        assert(b.subrange(9, 17) =~= u64_be(self.longitude));
        lemma_u64_be_value(self.latitude);
        lemma_u64_be_value(self.longitude);
    }

    pub open spec fn info(self) -> IncidentInfo {
        IncidentInfo { inc_id: self.id, source: self.source }
    }
}

impl View for Incident {
    type V = IncidentView;

    closed spec fn view(&self) -> IncidentView {
        IncidentView {
            id: self.id,
            latitude: self.latitude,
            longitude: self.longitude,
            source: self.source,
            resolved: self.resolved,
            sent: self.sent,
        }
    }
}

impl Incident {
    /// A new incident at `position` (latitude, longitude), neither resolved
    /// nor sent.
    pub fn new(id: u8, position: (u64, u64), source: IncidentSource) -> (incident: Self)
        ensures
            incident@ == (IncidentView {
                id,
                latitude: position.0,
                longitude: position.1,
                source,
                resolved: false,
                sent: false,
            }),
    {
        Incident {
            id,
            latitude: position.0,
            longitude: position.1,
            source,
            resolved: false,
            sent: false,
        }
    }

    pub fn get_id(&self) -> (id: u8)
        ensures
            id == self@.id,
    {
        self.id
    }

    pub fn get_position(&self) -> (position: (u64, u64))
        ensures
            position == (self@.latitude, self@.longitude),
    {
        (self.latitude, self.longitude)
    }

    pub fn get_source(&self) -> (source: IncidentSource)
        ensures
            source == self@.source,
    {
        self.source
    }

    pub fn get_info(&self) -> (info: IncidentInfo)
        ensures
            info == self@.info(),
    {
        IncidentInfo { inc_id: self.id, source: self.source }
    }

    pub fn is_resolved(&self) -> (resolved: bool)
        ensures
            resolved == self@.resolved,
    {
        self.resolved
    }

    /// Marks the incident as resolved. Nothing marks it unresolved again.
    pub fn set_resolved(&mut self)
        ensures
            final(self)@ == (IncidentView { resolved: true, ..old(self)@ }),
    {
        self.resolved = true;
    }

    pub fn is_sent(&self) -> (sent: bool)
        ensures
            sent == self@.sent,
    {
        self.sent
    }

    pub fn mark_sent(&mut self)
        ensures
            final(self)@ == (IncidentView { sent: true, ..old(self)@ }),
    {
        self.sent = true;
    }

    pub fn to_bytes(&self) -> (bytes: Vec<u8>)
        ensures
            bytes@ == self@.encode(),
    {
        let mut bytes: Vec<u8> = Vec::new();
        bytes.push(self.id);
        push_u64(&mut bytes, self.latitude);
        push_u64(&mut bytes, self.longitude);
        bytes.push(self.source.to_byte());
        bytes.push(if self.resolved { 1 } else { 0 });
        assert(bytes@ =~= self@.encode());
        bytes
    }

    pub fn from_bytes(bytes: Vec<u8>) -> (r: Result<Incident, PayloadError>)
        ensures
            match IncidentView::decode(bytes@) {
                Ok(v) => r matches Ok(incident) && incident@ == v,
                Err(e) => r == Err::<Incident, PayloadError>(e),
            },
    {
        let bytes = bytes.as_slice();
        if bytes.len() != 19 {
            return Err(PayloadError::WrongLength);
        }
        let source = match IncidentSource::from_byte(bytes[17]) {
            Some(source) => source,
            None => {
                return Err(PayloadError::InvalidValue);
            },
        };
        if bytes[18] > 1 {
            return Err(PayloadError::InvalidValue);
        }
        let latitude = read_be_u64(bytes, 1);
        let longitude = read_be_u64(bytes, 9);
        Ok(
            Incident {
                id: bytes[0],
                latitude,
                longitude,
                source,
                resolved: bytes[18] == 1,
                sent: false,
            },
        )
    }
}

} // verus!
