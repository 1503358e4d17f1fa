use crate::apps::payload_error::PayloadError;
use crate::apps::sist_dron::dron_flying_info::DronFlyingInfo;
use crate::apps::sist_dron::dron_state::DronState;
use crate::encoding::{
    lemma_u64_be_value, push_u16, push_u64, read_be_u64, u16_be, u16_of_be, u64_be, u64_of_be,
};
use vstd::prelude::*;

verus! {

/// What a drone publishes about itself: who it is, where it is, how much
/// battery it has left, what it is doing, which incident it attends to and
/// how it is flying.
///
/// Coordinates are kept as the bit patterns of IEEE-754 doubles (degrees).
#[derive(Debug, Clone, Copy, PartialEq, Eq)]
pub struct DronCurrentInfo {
    id: u8,
    latitude: u64,
    longitude: u64,
    battery_lvl: u8,
    state: DronState,
    inc_id_to_resolve: Option<u8>,
    flying_info: Option<DronFlyingInfo>,
}

/// A drone's current information as plain values.
pub struct DronCurrentInfoView {
    pub id: u8,
    pub latitude: u64,
    pub longitude: u64,
    pub battery_lvl: u8,
    pub state: DronState,
    pub inc_id_to_resolve: Option<u8>,
    pub flying_info: Option<DronFlyingInfo>,
}

/// The incident id that a byte stands for: 0 stands for none.
pub open spec fn incident_of_byte(byte: u8) -> Option<u8> {
    if byte == 0 {
        None
    } else {
        Some(byte)
    }
}

impl DronCurrentInfoView {
    /// Incident ids start at 1: 0 is how "no incident" is written.
    pub open spec fn wf(self) -> bool {
        self.inc_id_to_resolve != Some(0u8)
    }

    /// Id, latitude, longitude, battery, state, incident id (0 when there
    /// is none), whether flying information follows, and then that
    /// information if it does.
    pub open spec fn encode(self) -> Seq<u8> {
        seq![self.id] + u64_be(self.latitude) + u64_be(self.longitude) + seq![
            self.battery_lvl,
            self.state.code(),
            match self.inc_id_to_resolve {
                Some(inc_id) => inc_id,
                None => 0u8,
            },
            if self.flying_info is Some {
                1u8
            } else {
                0u8
            },
        ] + (match self.flying_info {
            Some(info) => info.encode(),
            None => Seq::empty(),
        })
    }

    /// The information that the bytes spell, if they are not cut short:
    /// flying information follows exactly when the byte for it is 1, and
    /// bytes past the layout are not looked at.
    pub open spec fn decode(b: Seq<u8>) -> Result<DronCurrentInfoView, PayloadError> {
        if b.len() < 21 || (b[20] == 1 && b.len() < 39) {
            Err(PayloadError::WrongLength)
        } else if DronState::of_code(b[18]) is None {
            Err(PayloadError::InvalidValue)
        } else {
            Ok(
                DronCurrentInfoView {
                    id: b[0],
                    latitude: u64_of_be(b.subrange(1, 9)),
                    longitude: u64_of_be(b.subrange(9, 17)),
                    battery_lvl: b[17],
                    state: DronState::of_code(b[18]).unwrap(),
                    inc_id_to_resolve: incident_of_byte(b[19]),
                    flying_info: if b[20] == 1 {
                        Some(
                            DronFlyingInfo {
                                direction_lat: u64_of_be(b.subrange(21, 29)),
                                direction_lon: u64_of_be(b.subrange(29, 37)),
                                speed: u16_of_be(b[37], b[38]),
                            },
                        )
                    } else {
                        None
                    },
                },
            )
        }
    }

    /// Decoding encoded drone information gives it back.
    pub proof fn lemma_decode_encode(self)
        requires
            self.wf(),
        ensures
            Self::decode(self.encode()) == Ok::<DronCurrentInfoView, PayloadError>(self),
    {
        let b = self.encode();
        assert(b.subrange(1, 9) =~= u64_be(self.latitude));
        assert(b.subrange(9, 17) =~= u64_be(self.longitude));
        lemma_u64_be_value(self.latitude);
        lemma_u64_be_value(self.longitude);
        match self.flying_info {
            Some(info) => {
                assert(b.len() == 39);
                assert(b.subrange(21, 29) =~= u64_be(info.direction_lat));
                assert(b.subrange(29, 37) =~= u64_be(info.direction_lon));
                lemma_u64_be_value(info.direction_lat);
                lemma_u64_be_value(info.direction_lon);
                assert(b[37] == u16_be(info.speed)[0]);
                assert(b[38] == u16_be(info.speed)[1]);
            },
            None => {
                assert(b.len() == 21);
            },
        }
    }
}

impl View for DronCurrentInfo {
    type V = DronCurrentInfoView;

    closed spec fn view(&self) -> DronCurrentInfoView {
        DronCurrentInfoView {
            id: self.id,
            latitude: self.latitude,
            longitude: self.longitude,
            battery_lvl: self.battery_lvl,
            state: self.state,
            inc_id_to_resolve: self.inc_id_to_resolve,
            flying_info: self.flying_info,
        }
    }
}

impl DronCurrentInfo {
    #[verifier::type_invariant]
    spec fn well_formed(self) -> bool {
        self@.wf()
    }

    /// Information about a drone that attends to no incident and is not
    /// flying.
    pub fn new(id: u8, latitude: u64, longitude: u64, battery_lvl: u8, state: DronState) -> (info:
        Self)
        ensures
            info@ == (DronCurrentInfoView {
                id,
                latitude,
                longitude,
                battery_lvl,
                state,
                inc_id_to_resolve: None,
                flying_info: None,
            }),
    {
        DronCurrentInfo {
            id,
            latitude,
            longitude,
            battery_lvl,
            state,
            inc_id_to_resolve: None,
            flying_info: None,
        }
    }

    pub fn to_bytes(&self) -> (bytes: Vec<u8>)
        ensures
            self@.wf(),
            bytes@ == self@.encode(),
    {
        proof {
            use_type_invariant(self);
        }
        let mut bytes: Vec<u8> = Vec::new();
        bytes.push(self.id);
        push_u64(&mut bytes, self.latitude);
        push_u64(&mut bytes, self.longitude);
        bytes.push(self.battery_lvl);
        bytes.push(self.state.to_byte());
        bytes.push(
            match self.inc_id_to_resolve {
                Some(inc_id) => inc_id,
                None => 0,
            },
        );
        match self.flying_info {
            Some(info) => {
                bytes.push(1);
                push_u64(&mut bytes, info.direction_lat);
                push_u64(&mut bytes, info.direction_lon);
                push_u16(&mut bytes, info.speed);
            },
            None => {
                bytes.push(0);
            },
        }
        assert(bytes@ =~= self@.encode());
        bytes
    }

    pub fn from_bytes(bytes: Vec<u8>) -> (r: Result<DronCurrentInfo, PayloadError>)
        ensures
            match DronCurrentInfoView::decode(bytes@) {
                Ok(v) => r matches Ok(info) && info@ == v,
                Err(e) => r == Err::<DronCurrentInfo, PayloadError>(e),
            },
    {
        let bytes = bytes.as_slice();
        if bytes.len() < 21 {
            return Err(PayloadError::WrongLength);
        }
        let flying: bool = bytes[20] == 1;
        if flying && bytes.len() < 39 {
            return Err(PayloadError::WrongLength);
        }
        let state = match DronState::from_byte(bytes[18]) {
            Some(state) => state,
            None => {
                return Err(PayloadError::InvalidValue);
            },
        };
        let inc_id_to_resolve: Option<u8> = if bytes[19] == 0 {
            None
        } else {
            Some(bytes[19])
        };
        let flying_info: Option<DronFlyingInfo> = if flying {
            let hi: u16 = bytes[37] as u16;
            let lo: u16 = bytes[38] as u16;
            Some(
                DronFlyingInfo {
                    direction_lat: read_be_u64(bytes, 21),
                    direction_lon: read_be_u64(bytes, 29),
                    speed: hi * 256 + lo,
                },
            )
        } else {
            None
        };
        Ok(
            DronCurrentInfo {
                id: bytes[0],
                latitude: read_be_u64(bytes, 1),
                longitude: read_be_u64(bytes, 9),
                battery_lvl: bytes[17],
                state,
                inc_id_to_resolve,
                flying_info,
            },
        )
    }

    pub fn get_id(&self) -> (id: u8)
        ensures
            id == self@.id,
    {
        self.id
    }

    /// Latitude and longitude of where the drone is.
    pub fn get_current_position(&self) -> (position: (u64, u64))
        ensures
            position == (self@.latitude, self@.longitude),
    {
        (self.latitude, self.longitude)
    }

    pub fn set_current_position(&mut self, position: (u64, u64))
        ensures
            final(self)@ == (DronCurrentInfoView {
                latitude: position.0,
                longitude: position.1,
                ..old(self)@
            }),
    {
        proof {
            use_type_invariant(&*self);
        }
        self.latitude = position.0;
        self.longitude = position.1;
    }

    pub fn get_battery_lvl(&self) -> (level: u8)
        ensures
            level == self@.battery_lvl,
    {
        self.battery_lvl
    }

    pub fn set_battery_lvl(&mut self, level: u8)
        ensures
            final(self)@ == (DronCurrentInfoView { battery_lvl: level, ..old(self)@ }),
    {
        proof {
            use_type_invariant(&*self);
        }
        self.battery_lvl = level;
    }

    pub fn get_state(&self) -> (state: DronState)
        ensures
            state == self@.state,
    {
        self.state
    }

    pub fn set_state(&mut self, new_state: DronState)
        ensures
            final(self)@ == (DronCurrentInfoView { state: new_state, ..old(self)@ }),
    {
        proof {
            use_type_invariant(&*self);
        }
        self.state = new_state;
    }

    /// The incident the drone attends to, if any.
    pub fn get_inc_id_to_resolve(&self) -> (inc_id: Option<u8>)
        ensures
            inc_id == self@.inc_id_to_resolve,
            inc_id != Some(0u8),
    {
        proof {
            use_type_invariant(self);
        }
        self.inc_id_to_resolve
    }

    /// Sets the incident the drone attends to. The id 0 names no incident.
    pub fn set_inc_id_to_resolve(&mut self, inc_id: u8)
        ensures
            final(self)@ == (DronCurrentInfoView {
                inc_id_to_resolve: incident_of_byte(inc_id),
                ..old(self)@
            }),
    {
        proof {
            use_type_invariant(&*self);
        }
        self.inc_id_to_resolve = if inc_id == 0 {
            None
        } else {
            Some(inc_id)
        };
    }

    /// The drone attends to no incident any more.
    pub fn unset_inc_id_to_resolve(&mut self)
        ensures
            final(self)@ == (DronCurrentInfoView { inc_id_to_resolve: None, ..old(self)@ }),
    {
        proof {
            use_type_invariant(&*self);
        }
        self.inc_id_to_resolve = None;
    }

    pub fn get_flying_info(&self) -> (info: Option<DronFlyingInfo>)
        ensures
            info == self@.flying_info,
    {
        self.flying_info
    }

    pub fn set_flying_info(&mut self, info: DronFlyingInfo)
        ensures
            final(self)@ == (DronCurrentInfoView { flying_info: Some(info), ..old(self)@ }),
    {
        proof {
            use_type_invariant(&*self);
        }
        self.flying_info = Some(info);
    }

    /// The drone is not flying any more.
    pub fn unset_flying_info(&mut self)
        ensures
            final(self)@ == (DronCurrentInfoView { flying_info: None, ..old(self)@ }),
    {
        proof {
            use_type_invariant(&*self);
        }
        self.flying_info = None;
    }
}

} // verus!
