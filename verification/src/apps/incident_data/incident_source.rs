use vstd::prelude::*;

verus! {

/// Who raised an incident: an operator at the monitoring station, or the
/// automatic detector of the camera system.
#[derive(Debug, Clone, Copy, PartialEq, Eq, Hash, Structural)]
pub enum IncidentSource {
    Manual,
    Automated,
}

impl IncidentSource {
    pub open spec fn code(self) -> u8 {
        match self {
            IncidentSource::Manual => 0,
            IncidentSource::Automated => 1,
        }
    }

    pub open spec fn of_code(code: u8) -> Option<IncidentSource> {
        if code == 0 {
            Some(IncidentSource::Manual)
        } else if code == 1 {
            Some(IncidentSource::Automated)
        } else {
            None
        }
    }

    pub fn to_byte(&self) -> (code: u8)
        ensures
            code == self.code(),
            Self::of_code(code) == Some(*self),
    {
        match self {
            IncidentSource::Manual => 0,
            IncidentSource::Automated => 1,
        }
    }

    pub fn from_byte(code: u8) -> (r: Option<IncidentSource>)
        ensures
            r == Self::of_code(code),
    {
        if code == 0 {
            Some(IncidentSource::Manual)
        } else if code == 1 {
            Some(IncidentSource::Automated)
        } else {
            None
        }
    }
}

} // verus!
