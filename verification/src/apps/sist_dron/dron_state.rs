use vstd::prelude::*;

verus! {

/// What a drone is doing.
#[derive(Debug, Clone, Copy, PartialEq, Eq, Structural)]
pub enum DronState {
    /// Idle at the centre of its range.
    ExpectingToRecvIncident,
    /// Flying towards an incident.
    RespondingToIncident,
    /// At the place of an incident.
    ManagingIncident,
    /// Flying back to the centre of its range.
    ReturningToBase,
    /// On its way to recharge, or recharging.
    Mantainance,
}

impl DronState {
    pub open spec fn code(self) -> u8 {
        match self {
            DronState::ExpectingToRecvIncident => 1,
            DronState::RespondingToIncident => 2,
            DronState::ManagingIncident => 3,
            DronState::ReturningToBase => 4,
            DronState::Mantainance => 5,
        }
    }

    pub open spec fn of_code(code: u8) -> Option<DronState> {
        if code == 1 {
            Some(DronState::ExpectingToRecvIncident)
        } else if code == 2 {
            Some(DronState::RespondingToIncident)
        } else if code == 3 {
            Some(DronState::ManagingIncident)
        } else if code == 4 {
            Some(DronState::ReturningToBase)
        } else if code == 5 {
            Some(DronState::Mantainance)
        } else {
            None
        }
    }

    /// Whether a drone in this state is in the air on its way somewhere.
    pub open spec fn is_flying(self) -> bool {
        self == DronState::RespondingToIncident || self == DronState::ReturningToBase
    }

    pub fn to_byte(&self) -> (code: u8)
        ensures
            code == self.code(),
            Self::of_code(code) == Some(*self),
    {
        match self {
            DronState::ExpectingToRecvIncident => 1,
            DronState::RespondingToIncident => 2,
            DronState::ManagingIncident => 3,
            DronState::ReturningToBase => 4,
            DronState::Mantainance => 5,
        }
    }

    pub fn from_byte(code: u8) -> (r: Option<DronState>)
        ensures
            r == Self::of_code(code),
    {
        if code == 1 {
            Some(DronState::ExpectingToRecvIncident)
        } else if code == 2 {
            Some(DronState::RespondingToIncident)
        } else if code == 3 {
            Some(DronState::ManagingIncident)
        } else if code == 4 {
            Some(DronState::ReturningToBase)
        } else if code == 5 {
            Some(DronState::Mantainance)
        } else {
            None
        }
    }
}

} // verus!
