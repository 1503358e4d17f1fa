use crate::encoding::{u16_be, u64_be};
use vstd::prelude::*;

verus! {

/// How a drone is flying: the direction as a unit vector (latitude and
/// longitude components, each the bit pattern of an IEEE-754 double) and the
/// speed in km/h.
#[derive(Debug, Clone, Copy, PartialEq, Eq, Structural)]
pub struct DronFlyingInfo {
    pub direction_lat: u64,
    pub direction_lon: u64,
    pub speed: u16,
}

impl DronFlyingInfo {
    /// Direction latitude, direction longitude, speed: 18 bytes.
    pub open spec fn encode(self) -> Seq<u8> {
        u64_be(self.direction_lat) + u64_be(self.direction_lon) + u16_be(self.speed)
    }

    pub fn new(direction: (u64, u64), speed: u16) -> (info: Self)
        ensures
            info == (DronFlyingInfo {
                direction_lat: direction.0,
                direction_lon: direction.1,
                speed,
            }),
    {
        DronFlyingInfo { direction_lat: direction.0, direction_lon: direction.1, speed }
    }

    pub fn get_direction(&self) -> (direction: (u64, u64))
        ensures
            direction == (self.direction_lat, self.direction_lon),
    {
        (self.direction_lat, self.direction_lon)
    }

    pub fn get_speed(&self) -> (speed: u16)
        ensures
            speed == self.speed,
    {
        self.speed
    }
}

} // verus!
