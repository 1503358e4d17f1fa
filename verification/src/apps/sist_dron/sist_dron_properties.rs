use vstd::prelude::*;

verus! {

/// What is fixed about a drone: its battery limits, its range, how long it
/// stays at an incident, its speed, and where its range is centred and
/// where it recharges.
///
/// Coordinates and the range are kept as the bit patterns of IEEE-754
/// doubles.
#[derive(Debug, Clone, Copy, PartialEq, Eq, Structural)]
pub struct SistDronProperties {
    pub max_battery_lvl: u8,
    pub min_operational_battery_lvl: u8,
    pub range: u64,
    pub stay_at_inc_time: u64,
    pub speed: u16,
    pub range_center_lat: u64,
    pub range_center_lon: u64,
    pub mantainance_lat: u64,
    pub mantainance_lon: u64,
}

impl SistDronProperties {
    pub open spec fn range_center(self) -> (u64, u64) {
        (self.range_center_lat, self.range_center_lon)
    }

    pub open spec fn mantainance(self) -> (u64, u64) {
        (self.mantainance_lat, self.mantainance_lon)
    }

    pub fn get_max_battery_lvl(&self) -> (level: u8)
        ensures
            level == self.max_battery_lvl,
    {
        self.max_battery_lvl
    }

    pub fn get_min_operational_battery_lvl(&self) -> (level: u8)
        ensures
            level == self.min_operational_battery_lvl,
    {
        self.min_operational_battery_lvl
    }

    pub fn get_range(&self) -> (range: u64)
        ensures
            range == self.range,
    {
        self.range
    }

    pub fn get_stay_at_inc_time(&self) -> (time: u64)
        ensures
            time == self.stay_at_inc_time,
    {
        self.stay_at_inc_time
    }

    pub fn get_speed(&self) -> (speed: u16)
        ensures
            speed == self.speed,
    {
        self.speed
    }

    /// Where the drone waits for incidents.
    pub fn get_range_center_position(&self) -> (position: (u64, u64))
        ensures
            position == self.range_center(),
    {
        (self.range_center_lat, self.range_center_lon)
    }

    /// Where the drone recharges.
    pub fn get_mantainance_position(&self) -> (position: (u64, u64))
        ensures
            position == self.mantainance(),
    {
        (self.mantainance_lat, self.mantainance_lon)
    }
}

} // verus!
