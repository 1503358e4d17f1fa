use crate::apps::apps_mqtt_topics::AppsMqttTopics;
use crate::mqtt::messages::subscribe_message::filters_view;
use crate::mqtt::mqtt_utils::will_message_utils::app_type::AppType;
use crate::mqtt::mqtt_utils::will_message_utils::will_content::WillContent;
use vstd::prelude::*;

verus! {

/// The name under which the monitoring station connects to the broker.
pub fn get_formatted_app_id() -> (id: String)
    ensures
        id@ == "Sistema-Monitoreo"@,
{
    "Sistema-Monitoreo".to_owned()
}

/// What the will of the monitoring station says.
pub fn get_app_will_msg_content() -> (content: WillContent)
    ensures
        content == (WillContent { app_type: AppType::Monitoreo, id: 0 }),
{
    WillContent::new(AppType::Monitoreo, 0)
}

/// What the monitoring station listens to, and at which quality of
/// service it publishes and subscribes.
#[derive(Debug, Clone, PartialEq, Eq)]
pub struct SistemaMonitoreo {
    qos: u8,
    topics: Vec<(String, u8)>,
}

/// The topics of the monitoring station: cameras, drones, incidents and
/// wills, each at the quality of service `qos`.
pub open spec fn monitor_topics(qos: u8) -> Seq<(Seq<char>, u8)> {
    seq![
        (AppsMqttTopics::CameraTopic.name(), qos),
        (AppsMqttTopics::DronTopic.name(), qos),
        (AppsMqttTopics::IncidentTopic.name(), qos),
        (AppsMqttTopics::DescTopic.name(), qos),
    ]
}

impl SistemaMonitoreo {
    pub closed spec fn qos(self) -> u8 {
        self.qos
    }

    pub closed spec fn topics(self) -> Seq<(Seq<char>, u8)> {
        filters_view(self.topics@)
    }

    /// A monitoring station that works at the quality of service `qos`.
    pub fn new(qos: u8) -> (sistema_monitoreo: Self)
        ensures
            sistema_monitoreo.qos() == qos,
            sistema_monitoreo.topics() == monitor_topics(qos),
    {
        let mut topics: Vec<(String, u8)> = Vec::new();
        topics.push((AppsMqttTopics::CameraTopic.to_str().to_owned(), qos));
        topics.push((AppsMqttTopics::DronTopic.to_str().to_owned(), qos));
        topics.push((AppsMqttTopics::IncidentTopic.to_str().to_owned(), qos));
        topics.push((AppsMqttTopics::DescTopic.to_str().to_owned(), qos));
        assert(filters_view(topics@) =~= monitor_topics(qos));
        SistemaMonitoreo { qos, topics }
    }

    pub fn get_qos(&self) -> (qos: u8)
        ensures
            qos == self.qos(),
    {
        self.qos
    }

    /// The topics to subscribe to, each with its quality of service.
    pub fn get_topics(&self) -> (topics: &Vec<(String, u8)>)
        ensures
            filters_view(topics@) == self.topics(),
    {
        &self.topics
    }
}

} // verus!
