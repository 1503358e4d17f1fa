use crate::apps::incident_data::incident::{Incident, IncidentView};
use crate::apps::sist_dron::dron_current_info::{DronCurrentInfo, DronCurrentInfoView};
use crate::apps::sist_dron::dron_flying_info::DronFlyingInfo;
use crate::apps::sist_dron::dron_state::DronState;
use crate::apps::sist_dron::sist_dron_properties::SistDronProperties;
use vstd::prelude::*;

verus! {

/// A drone: what it publishes about itself, what is fixed about it, and
/// where the incident lies that it attends to.
///
/// The drone decides; flying is the caller's part. Each decision tells
/// whether the drone's state is to be published and where the drone is to
/// fly next. The caller works out the direction, hands it in with
/// `set_flying_info`, moves the drone, and tells it when it has arrived.
#[derive(Debug, PartialEq, Eq)]
pub struct Dron {
    current_info: DronCurrentInfo,
    dron_properties: SistDronProperties,
    incident_position: Option<(u64, u64)>,
}

/// A drone as plain values.
pub struct DronView {
    pub info: DronCurrentInfoView,
    pub properties: SistDronProperties,
    pub incident_position: Option<(u64, u64)>,
}

impl View for Dron {
    type V = DronView;

    closed spec fn view(&self) -> DronView {
        DronView {
            info: self.current_info@,
            properties: self.dron_properties,
            incident_position: self.incident_position,
        }
    }
}

/// The level of a full battery. A drone starts with it and recharges to
/// it.
pub const FULL_BATTERY: u8 = 100;

/// What a decision of the drone asks of the caller.
#[derive(Debug, Clone, Copy, PartialEq, Eq)]
pub struct DronStep {
    /// Whether the drone's current information is to be published.
    pub publish: bool,
    /// Where the drone is to fly now, if anywhere.
    pub fly_to: Option<(u64, u64)>,
    /// For how long the timer of the drone's stay at an incident is to
    /// run, if it is to be started.
    pub stay_for: Option<u64>,
}

impl DronStep {
    /// Nothing to do.
    pub open spec fn nothing() -> DronStep {
        DronStep { publish: false, fly_to: None, stay_for: None }
    }

    /// Publish, and stay.
    pub open spec fn publish_only() -> DronStep {
        DronStep { publish: true, fly_to: None, stay_for: None }
    }

    /// Publish, and fly to `destination`.
    pub open spec fn fly(destination: (u64, u64)) -> DronStep {
        DronStep { publish: true, fly_to: Some(destination), stay_for: None }
    }

    /// Publish, stay, and start the timer of the stay, to run for `time`.
    pub open spec fn stay(time: u64) -> DronStep {
        DronStep { publish: true, fly_to: None, stay_for: Some(time) }
    }
}

/// The battery level that is left of `level` after `used` was used up.
pub open spec fn level_after_use(level: u8, used: u8) -> u8 {
    if used >= level {
        0
    } else {
        (level - used) as u8
    }
}

impl DronView {
    /// Whether the battery is too low to work.
    pub open spec fn battery_low(self) -> bool {
        self.info.battery_lvl < self.properties.min_operational_battery_lvl
    }

    /// The drone in the state `state`.
    pub open spec fn in_state(self, state: DronState) -> DronView {
        DronView { info: DronCurrentInfoView { state, ..self.info }, ..self }
    }

    /// The drone standing still at `position`.
    pub open spec fn landed_at(self, position: (u64, u64)) -> DronView {
        DronView {
            info: DronCurrentInfoView {
                latitude: position.0,
                longitude: position.1,
                flying_info: None,
                ..self.info
            },
            ..self
        }
    }

    /// The drone attending to no incident.
    pub open spec fn released(self) -> DronView {
        DronView {
            info: DronCurrentInfoView { inc_id_to_resolve: None, ..self.info },
            incident_position: None,
            ..self
        }
    }

    /// Whether the drone takes up the incident `incident`: it is idle, the
    /// incident is new, has an id and lies within the drone's range, and the
    /// battery is not too low.
    pub open spec fn takes_up(self, incident: IncidentView, in_range: bool) -> bool {
        &&& self.info.state == DronState::ExpectingToRecvIncident
        &&& !incident.resolved
        &&& incident.id != 0
        &&& in_range
        &&& !self.battery_low()
    }

    /// Whether the news that `incident` is resolved is about the incident
    /// the drone attends to.
    pub open spec fn is_released_by(self, incident: IncidentView) -> bool {
        incident.resolved && self.info.inc_id_to_resolve == Some(incident.id)
    }

    /// The drone after it has heard of `incident`.
    pub open spec fn after_incident(self, incident: IncidentView, in_range: bool) -> DronView {
        if self.takes_up(incident, in_range) {
            DronView {
                info: DronCurrentInfoView {
                    state: DronState::RespondingToIncident,
                    inc_id_to_resolve: Some(incident.id),
                    ..self.info
                },
                incident_position: Some((incident.latitude, incident.longitude)),
                ..self
            }
        } else if self.is_released_by(incident) {
            if self.info.state == DronState::ManagingIncident || self.info.state
                == DronState::RespondingToIncident {
                self.released().in_state(DronState::ReturningToBase)
            } else {
                self.released()
            }
        } else {
            self
        }
    }

    /// What hearing of `incident` asks of the caller.
    pub open spec fn step_on_incident(self, incident: IncidentView, in_range: bool) -> DronStep {
        if self.takes_up(incident, in_range) {
            DronStep::fly((incident.latitude, incident.longitude))
        } else if self.is_released_by(incident) && (self.info.state == DronState::ManagingIncident
            || self.info.state == DronState::RespondingToIncident) {
            DronStep::fly(self.properties.range_center())
        } else {
            DronStep::nothing()
        }
    }

    /// Where a drone in a flying state is flying to.
    pub open spec fn destination(self) -> (u64, u64) {
        match self.info.state {
            DronState::RespondingToIncident => match self.incident_position {
                Some(position) => position,
                None => self.properties.range_center(),
            },
            DronState::Mantainance => self.properties.mantainance(),
            _ => self.properties.range_center(),
        }
    }

    /// The drone after it has recharged: on its way back to its incident,
    /// if it still has one, and to its base if not.
    pub open spec fn recharged(self) -> DronView {
        let charged = DronView {
            info: DronCurrentInfoView { battery_lvl: FULL_BATTERY, ..self.info },
            ..self
        };
        if self.info.inc_id_to_resolve is Some && self.incident_position is Some {
            charged.in_state(DronState::RespondingToIncident)
        } else {
            charged.released().in_state(DronState::ReturningToBase)
        }
    }

    /// The drone after it has reached the place it was flying to.
    pub open spec fn after_arrival(self) -> DronView {
        match self.info.state {
            DronState::RespondingToIncident => if self.battery_low() {
                self.landed_at(self.destination()).in_state(DronState::Mantainance)
            } else {
                self.landed_at(self.destination()).in_state(DronState::ManagingIncident)
            },
            DronState::ReturningToBase => self.landed_at(self.destination()).in_state(
                DronState::ExpectingToRecvIncident,
            ),
            DronState::Mantainance => self.landed_at(self.destination()).recharged(),
            _ => self,
        }
    }

    /// What reaching the place it was flying to asks of the caller.
    pub open spec fn step_on_arrival(self) -> DronStep {
        match self.info.state {
            DronState::RespondingToIncident => if self.battery_low() {
                DronStep::fly(self.properties.mantainance())
            } else {
                DronStep::stay(self.properties.stay_at_inc_time)
            },
            DronState::ReturningToBase => DronStep::publish_only(),
            DronState::Mantainance => DronStep::fly(self.after_arrival().destination()),
            _ => DronStep::nothing(),
        }
    }

    /// Whether a battery level of `level` sends the drone to recharge: it
    /// is in the air and the level is too low.
    pub open spec fn must_recharge(self, level: u8) -> bool {
        self.info.state.is_flying() && level < self.properties.min_operational_battery_lvl
    }

    /// The drone after its battery was found at `level`.
    pub open spec fn after_battery(self, level: u8) -> DronView {
        let measured = DronView {
            info: DronCurrentInfoView { battery_lvl: level, ..self.info },
            ..self
        };
        if self.must_recharge(level) {
            measured.in_state(DronState::Mantainance)
        } else {
            measured
        }
    }

    /// What finding the battery at `level` asks of the caller.
    pub open spec fn step_on_battery(self, level: u8) -> DronStep {
        if self.must_recharge(level) {
            DronStep::fly(self.properties.mantainance())
        } else {
            DronStep::nothing()
        }
    }
}

impl Dron {
    /// A drone with a full battery, of level 100, that waits for incidents
    /// at the centre of its range.
    pub fn new(id: u8, dron_properties: SistDronProperties) -> (dron: Dron)
        ensures
            dron@ == (DronView {
                info: DronCurrentInfoView {
                    id,
                    latitude: dron_properties.range_center_lat,
                    longitude: dron_properties.range_center_lon,
                    battery_lvl: FULL_BATTERY,
                    state: DronState::ExpectingToRecvIncident,
                    inc_id_to_resolve: None,
                    flying_info: None,
                },
                properties: dron_properties,
                incident_position: None,
            }),
    {
        let (latitude, longitude) = dron_properties.get_range_center_position();
        Dron {
            current_info: DronCurrentInfo::new(
                id,
                latitude,
                longitude,
                FULL_BATTERY,
                DronState::ExpectingToRecvIncident,
            ),
            dron_properties,
            incident_position: None,
        }
    }

    /// What the drone publishes about itself.
    pub fn get_current_info(&self) -> (info: &DronCurrentInfo)
        ensures
            info@ == self@.info,
    {
        &self.current_info
    }

    pub fn get_properties(&self) -> (properties: SistDronProperties)
        ensures
            properties == self@.properties,
    {
        self.dron_properties
    }

    /// Where the incident lies that the drone attends to.
    pub fn get_incident_position(&self) -> (position: Option<(u64, u64)>)
        ensures
            position == self@.incident_position,
    {
        self.incident_position
    }

    /// Records how the drone is flying.
    pub fn set_flying_info(&mut self, info: DronFlyingInfo)
        ensures
            final(self)@ == (DronView {
                info: DronCurrentInfoView { flying_info: Some(info), ..old(self)@.info },
                ..old(self)@
            }),
    {
        self.current_info.set_flying_info(info);
    }

    /// Records where the drone is.
    pub fn set_current_position(&mut self, position: (u64, u64))
        ensures
            final(self)@ == (DronView {
                info: DronCurrentInfoView {
                    latitude: position.0,
                    longitude: position.1,
                    ..old(self)@.info
                },
                ..old(self)@
            }),
    {
        self.current_info.set_current_position(position);
    }

    /// Where the drone is flying to, if it is in a state in which it flies.
    fn heading(&self) -> (destination: (u64, u64))
        ensures
            destination == self@.destination(),
    {
        match self.current_info.get_state() {
            DronState::RespondingToIncident => match self.incident_position {
                Some(position) => position,
                None => self.dron_properties.get_range_center_position(),
            },
            DronState::Mantainance => self.dron_properties.get_mantainance_position(),
            _ => self.dron_properties.get_range_center_position(),
        }
    }

    /// The drone hears of an incident. `in_range` tells whether the
    /// incident lies within the drone's range.
    ///
    /// An idle drone with enough battery takes up a new incident in range
    /// and flies to it. A drone that hears that its incident is resolved
    /// lets go of it, and flies back to its base if it was at the incident
    /// or on its way there.
    pub fn handle_incident(&mut self, incident: &Incident, in_range: bool) -> (step: DronStep)
        ensures
            final(self)@ == old(self)@.after_incident(incident@, in_range),
            step == old(self)@.step_on_incident(incident@, in_range),
    {
        let state = self.current_info.get_state();
        let low = self.current_info.get_battery_lvl()
            < self.dron_properties.min_operational_battery_lvl;
        if state == DronState::ExpectingToRecvIncident && !incident.is_resolved()
            && incident.get_id() != 0 && in_range && !low {
            self.current_info.set_state(DronState::RespondingToIncident);
            self.current_info.set_inc_id_to_resolve(incident.get_id());
            self.incident_position = Some(incident.get_position());
            DronStep { publish: true, fly_to: Some(incident.get_position()), stay_for: None }
        } else if incident.is_resolved() && self.current_info.get_inc_id_to_resolve() == Some(
            incident.get_id(),
        ) {
            self.current_info.unset_inc_id_to_resolve();
            self.incident_position = None;
            if state == DronState::ManagingIncident || state == DronState::RespondingToIncident {
                self.current_info.set_state(DronState::ReturningToBase);
                DronStep {
                    publish: true,
                    fly_to: Some(self.dron_properties.get_range_center_position()),
                    stay_for: None,
                }
            } else {
                DronStep { publish: false, fly_to: None, stay_for: None }
            }
        } else {
            DronStep { publish: false, fly_to: None, stay_for: None }
        }
    }

    /// The drone has reached the place it was flying to.
    ///
    /// At its incident it starts managing it and the timer of its stay is
    /// to be started, unless its battery is too low: then it flies on to
    /// recharge. At its base it waits for incidents again. Where it
    /// recharges it fills its battery to 100 and flies back to its
    /// incident, if it still has one, and to its base if not.
    pub fn handle_arrival(&mut self) -> (step: DronStep)
        ensures
            final(self)@ == old(self)@.after_arrival(),
            step == old(self)@.step_on_arrival(),
    {
        let state = self.current_info.get_state();
        let low = self.current_info.get_battery_lvl()
            < self.dron_properties.min_operational_battery_lvl;
        let here = self.heading();
        match state {
            DronState::RespondingToIncident => {
                self.current_info.set_current_position(here);
                self.current_info.unset_flying_info();
                if low {
                    self.current_info.set_state(DronState::Mantainance);
                    DronStep {
                        publish: true,
                        fly_to: Some(self.dron_properties.get_mantainance_position()),
                        stay_for: None,
                    }
                } else {
                    self.current_info.set_state(DronState::ManagingIncident);
                    DronStep {
                        publish: true,
                        fly_to: None,
                        stay_for: Some(self.dron_properties.get_stay_at_inc_time()),
                    }
                }
            },
            DronState::ReturningToBase => {
                self.current_info.set_current_position(here);
                self.current_info.unset_flying_info();
                self.current_info.set_state(DronState::ExpectingToRecvIncident);
                DronStep { publish: true, fly_to: None, stay_for: None }
            },
            DronState::Mantainance => {
                self.current_info.set_current_position(here);
                self.current_info.unset_flying_info();
                self.current_info.set_battery_lvl(FULL_BATTERY);
                if self.current_info.get_inc_id_to_resolve().is_some()
                    && self.incident_position.is_some() {
                    self.current_info.set_state(DronState::RespondingToIncident);
                } else {
                    self.current_info.unset_inc_id_to_resolve();
                    self.incident_position = None;
                    self.current_info.set_state(DronState::ReturningToBase);
                }
                DronStep { publish: true, fly_to: Some(self.heading()), stay_for: None }
            },
            _ => DronStep { publish: false, fly_to: None, stay_for: None },
        }
    }

    /// The drone has used up `used` of its battery level: the level goes
    /// down by that much, but not below 0, and is then looked at as any
    /// level that the battery is found at.
    pub fn handle_battery_use(&mut self, used: u8) -> (step: DronStep)
        ensures
            final(self)@ == old(self)@.after_battery(level_after_use(old(self)@.info.battery_lvl, used)),
            step == old(self)@.step_on_battery(level_after_use(old(self)@.info.battery_lvl, used)),
    {
        let level = self.current_info.get_battery_lvl();
        let left: u8 = if used >= level {
            0
        } else {
            level - used
        };
        self.handle_battery(left)
    }

    /// The drone's battery was found at `level`. A drone in the air whose
    /// battery is too low flies to recharge.
    pub fn handle_battery(&mut self, level: u8) -> (step: DronStep)
        ensures
            final(self)@ == old(self)@.after_battery(level),
            step == old(self)@.step_on_battery(level),
    {
        let state = self.current_info.get_state();
        self.current_info.set_battery_lvl(level);
        if (state == DronState::RespondingToIncident || state == DronState::ReturningToBase)
            && level < self.dron_properties.min_operational_battery_lvl {
            self.current_info.set_state(DronState::Mantainance);
            DronStep {
                publish: true,
                fly_to: Some(self.dron_properties.get_mantainance_position()),
                stay_for: None,
            }
        } else {
            DronStep { publish: false, fly_to: None, stay_for: None }
        }
    }
}

} // verus!
