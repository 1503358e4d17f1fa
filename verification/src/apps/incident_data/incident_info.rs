use crate::apps::incident_data::incident_source::IncidentSource;
use vstd::prelude::*;

verus! {

/// What identifies an incident across the system: its number together with
/// its source, since operators and the detector number their incidents
/// independently.
#[derive(Debug, Clone, Copy, PartialEq, Eq, Hash, Structural)]
pub struct IncidentInfo {
    pub inc_id: u8,
    pub source: IncidentSource,
}

impl IncidentInfo {
    pub fn new(inc_id: u8, source: IncidentSource) -> (info: Self)
        ensures
            info == (IncidentInfo { inc_id, source }),
    {
        IncidentInfo { inc_id, source }
    }

    pub fn get_inc_id(&self) -> (id: u8)
        ensures
            id == self.inc_id,
    {
        self.inc_id
    }

    pub fn get_source(&self) -> (source: IncidentSource)
        ensures
            source == self.source,
    {
        self.source
    }
}

} // verus!
