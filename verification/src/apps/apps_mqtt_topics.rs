use vstd::prelude::*;

verus! {

/// The topics over which the agents talk.
#[derive(Debug, Clone, Copy, PartialEq, Eq, Structural)]
pub enum AppsMqttTopics {
    /// Camera snapshots.
    CameraTopic,
    /// Drone snapshots.
    DronTopic,
    /// Incidents, new and resolved.
    IncidentTopic,
    /// Last wills: which agent died.
    DescTopic,
}

impl AppsMqttTopics {
    pub open spec fn name(self) -> Seq<char> {
        match self {
            AppsMqttTopics::CameraTopic => "Cam"@,
            AppsMqttTopics::DronTopic => "Dron"@,
            AppsMqttTopics::IncidentTopic => "Inc"@,
            AppsMqttTopics::DescTopic => "desc"@,
        }
    }

    pub fn to_str(&self) -> (name: &'static str)
        ensures
            name@ == self.name(),
    {
        match self {
            AppsMqttTopics::CameraTopic => "Cam",
            AppsMqttTopics::DronTopic => "Dron",
            AppsMqttTopics::IncidentTopic => "Inc",
            AppsMqttTopics::DescTopic => "desc",
        }
    }
}

} // verus!
