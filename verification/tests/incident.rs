use rustx::apps::apps_mqtt_topics::AppsMqttTopics;
use rustx::apps::incident_data::incident::Incident;
use rustx::apps::incident_data::incident_info::IncidentInfo;
use rustx::apps::incident_data::incident_source::IncidentSource;
use rustx::apps::payload_error::PayloadError;
use rustx::apps::sist_dron::dron_current_info::DronCurrentInfo;
use rustx::apps::sist_dron::dron_state::DronState;
use rustx::apps::sist_monitoreo::sistema_monitoreo::{
    get_app_will_msg_content, get_formatted_app_id, SistemaMonitoreo,
};
use rustx::apps::sist_monitoreo::sistema_monitoreo_logic::MonitoreoLogic;
use rustx::mqtt::mqtt_utils::will_message_utils::app_type::AppType;
use rustx::mqtt::mqtt_utils::will_message_utils::will_content::WillContent;

fn incident(id: u8, source: IncidentSource) -> Incident {
    Incident::new(id, ((-34.6037f64).to_bits(), (-58.3861f64).to_bits()), source)
}

fn dron_at_incident(dron_id: u8, inc_id: u8) -> DronCurrentInfo {
    let mut dron = DronCurrentInfo::new(dron_id, 0, 0, 90, DronState::ManagingIncident);
    dron.set_inc_id_to_resolve(inc_id);
    dron
}

#[test]
fn incident_bytes_follow_the_layout() {
    let mut inc = incident(7, IncidentSource::Automated);
    let mut expected = vec![7u8];
    expected.extend_from_slice(&(-34.6037f64).to_be_bytes());
    expected.extend_from_slice(&(-58.3861f64).to_be_bytes());
    expected.extend_from_slice(&[1, 0]);
    assert_eq!(inc.to_bytes(), expected);
    inc.set_resolved();
    assert_eq!(inc.to_bytes()[18], 1);
    assert_eq!(incident(7, IncidentSource::Manual).to_bytes()[17], 0);
    assert_eq!(inc.to_bytes().len(), 19);
}

#[test]
fn incident_round_trips() {
    let mut inc = incident(255, IncidentSource::Manual);
    assert_eq!(Incident::from_bytes(inc.to_bytes()).unwrap(), inc);
    inc.set_resolved();
    let back = Incident::from_bytes(inc.to_bytes()).unwrap();
    assert_eq!(back, inc);
    assert!(back.is_resolved());
    assert_eq!(back.get_id(), 255);
    assert_eq!(back.get_source(), IncidentSource::Manual);
    assert_eq!(back.get_info(), IncidentInfo::new(255, IncidentSource::Manual));
    assert_eq!(f64::from_bits(back.get_position().0), -34.6037);
    assert_eq!(f64::from_bits(back.get_position().1), -58.3861);
}

#[test]
fn incident_sent_mark_does_not_travel() {
    let mut inc = incident(1, IncidentSource::Manual);
    assert!(!inc.is_sent());
    inc.mark_sent();
    assert!(inc.is_sent());
    let back = Incident::from_bytes(inc.to_bytes()).unwrap();
    assert!(!back.is_sent());
}

#[test]
fn incident_once_resolved_stays_resolved() {
    let mut inc = incident(1, IncidentSource::Manual);
    assert!(!inc.is_resolved());
    inc.set_resolved();
    inc.set_resolved();
    inc.mark_sent();
    assert!(inc.is_resolved());
}

#[test]
fn incident_payload_errors() {
    let bytes = incident(1, IncidentSource::Manual).to_bytes();
    assert_eq!(
        Incident::from_bytes(bytes[..18].to_vec()),
        Err(PayloadError::WrongLength)
    );
    let mut longer = bytes.clone();
    longer.push(0);
    assert_eq!(Incident::from_bytes(longer), Err(PayloadError::WrongLength));
    let mut bad_source = bytes.clone();
    bad_source[17] = 2;
    assert_eq!(
        Incident::from_bytes(bad_source),
        Err(PayloadError::InvalidValue)
    );
    let mut bad_resolved = bytes.clone();
    bad_resolved[18] = 2;
    assert_eq!(
        Incident::from_bytes(bad_resolved),
        Err(PayloadError::InvalidValue)
    );
}

#[test]
fn incident_info_tells_sources_apart() {
    let manual = IncidentInfo::new(1, IncidentSource::Manual);
    let automated = IncidentInfo::new(1, IncidentSource::Automated);
    assert_ne!(manual, automated);
    assert_eq!(manual.get_inc_id(), 1);
    assert_eq!(automated.get_source(), IncidentSource::Automated);
    assert_eq!(IncidentSource::from_byte(0), Some(IncidentSource::Manual));
    assert_eq!(IncidentSource::from_byte(1), Some(IncidentSource::Automated));
    assert_eq!(IncidentSource::from_byte(2), None);
    assert_eq!(IncidentSource::Automated.to_byte(), 1);
}

#[test]
fn topics_have_their_names() {
    assert_eq!(AppsMqttTopics::CameraTopic.to_str(), "Cam");
    assert_eq!(AppsMqttTopics::DronTopic.to_str(), "Dron");
    assert_eq!(AppsMqttTopics::IncidentTopic.to_str(), "Inc");
    assert_eq!(AppsMqttTopics::DescTopic.to_str(), "desc");
}

#[test]
fn will_content_is_two_bytes() {
    let content = WillContent::new(AppType::Monitoreo, 0);
    assert_eq!(content.to_bytes(), vec![2, 0]);
    assert_eq!(WillContent::new(AppType::Dron, 5).to_bytes(), vec![1, 5]);
    assert_eq!(WillContent::new(AppType::Cameras, 255).to_bytes(), vec![0, 255]);
    assert_eq!(WillContent::from_bytes(&[2, 0]), Ok(content));
    assert_eq!(content.get_app_type(), AppType::Monitoreo);
    assert_eq!(content.get_id(), 0);
    assert_eq!(
        WillContent::from_bytes(&[3, 0]),
        Err(PayloadError::InvalidValue)
    );
    assert_eq!(WillContent::from_bytes(&[2]), Err(PayloadError::WrongLength));
    assert_eq!(
        WillContent::from_bytes(&[2, 0, 0]),
        Err(PayloadError::WrongLength)
    );
}

#[test]
fn monitor_numbers_incidents_from_one_and_skips_zero() {
    let mut monitor = MonitoreoLogic::new();
    assert_eq!(monitor.get_next_incident_id(), 1);
    assert_eq!(monitor.get_next_incident_id(), 2);
    for expected in 3..=255u8 {
        assert_eq!(monitor.get_next_incident_id(), expected);
    }
    assert_eq!(monitor.get_next_incident_id(), 1);
}

#[test]
fn incident_is_resolved_by_the_second_distinct_dron() {
    let mut monitor = MonitoreoLogic::new();
    let inc = incident(7, IncidentSource::Manual);
    monitor.add_incident(&inc);
    assert!(monitor.is_open(inc.get_info()));
    assert_eq!(monitor.open_incidents(), 1);

    assert!(monitor.handle_drone_message(&dron_at_incident(1, 7)).is_empty());
    assert!(monitor.handle_drone_message(&dron_at_incident(1, 7)).is_empty());
    assert!(monitor.is_open(inc.get_info()));

    let resolved = monitor.handle_drone_message(&dron_at_incident(2, 7));
    assert_eq!(resolved.len(), 1);
    assert!(resolved[0].is_resolved());
    assert_eq!(resolved[0].get_info(), inc.get_info());
    assert_eq!(resolved[0].get_position(), inc.get_position());
    assert_eq!(resolved[0].to_bytes()[18], 1);
    assert!(!monitor.is_open(inc.get_info()));
    assert_eq!(monitor.open_incidents(), 0);

    assert!(monitor.handle_drone_message(&dron_at_incident(3, 7)).is_empty());
    monitor.check_well_formed();
}

#[test]
fn only_drones_at_the_incident_count() {
    let mut monitor = MonitoreoLogic::new();
    monitor.add_incident(&incident(7, IncidentSource::Manual));
    for state in [
        DronState::ExpectingToRecvIncident,
        DronState::RespondingToIncident,
        DronState::ReturningToBase,
        DronState::Mantainance,
    ] {
        for dron_id in 1..=3u8 {
            let mut dron = DronCurrentInfo::new(dron_id, 0, 0, 90, state);
            dron.set_inc_id_to_resolve(7);
            assert!(monitor.handle_drone_message(&dron).is_empty());
        }
    }
    let idle = DronCurrentInfo::new(1, 0, 0, 90, DronState::ManagingIncident);
    assert!(monitor.handle_drone_message(&idle).is_empty());
    assert!(monitor.handle_drone_message(&dron_at_incident(1, 8)).is_empty());
    assert!(monitor.handle_drone_message(&dron_at_incident(2, 8)).is_empty());
    assert_eq!(monitor.open_incidents(), 1);
}

#[test]
fn incidents_with_the_same_number_from_both_sources_are_kept_apart() {
    let mut monitor = MonitoreoLogic::new();
    let manual = incident(7, IncidentSource::Manual);
    let automated = incident(7, IncidentSource::Automated);
    monitor.add_incident(&manual);
    monitor.handle_incident_message(&automated);
    monitor.handle_incident_message(&manual);
    monitor.add_incident(&manual);
    assert_eq!(monitor.open_incidents(), 2);
    assert!(monitor.is_open(manual.get_info()));
    assert!(monitor.is_open(automated.get_info()));

    monitor.handle_drone_message(&dron_at_incident(1, 7));
    let resolved = monitor.handle_drone_message(&dron_at_incident(2, 7));
    assert_eq!(resolved.len(), 2);
    assert_eq!(resolved[0].get_info(), manual.get_info());
    assert_eq!(resolved[1].get_info(), automated.get_info());
    assert!(resolved.iter().all(|inc| inc.is_resolved()));
    assert_eq!(monitor.open_incidents(), 0);
}

#[test]
fn monitor_hears_of_manual_incidents_only_when_they_are_raised() {
    let mut monitor = MonitoreoLogic::new();
    let manual = incident(3, IncidentSource::Manual);
    monitor.handle_incident_message(&manual);
    assert_eq!(monitor.open_incidents(), 0);
    let mut resolved = incident(4, IncidentSource::Automated);
    resolved.set_resolved();
    monitor.handle_incident_message(&resolved);
    monitor.add_incident(&resolved);
    assert_eq!(monitor.open_incidents(), 0);
}

#[test]
fn each_incident_counts_its_own_drones() {
    let mut monitor = MonitoreoLogic::new();
    monitor.add_incident(&incident(1, IncidentSource::Manual));
    monitor.add_incident(&incident(2, IncidentSource::Manual));
    assert!(monitor.handle_drone_message(&dron_at_incident(1, 1)).is_empty());
    assert!(monitor.handle_drone_message(&dron_at_incident(2, 2)).is_empty());
    assert!(monitor.handle_drone_message(&dron_at_incident(1, 1)).is_empty());
    let resolved = monitor.handle_drone_message(&dron_at_incident(3, 2));
    assert_eq!(resolved.len(), 1);
    assert_eq!(resolved[0].get_id(), 2);
    assert!(monitor.is_open(IncidentInfo::new(1, IncidentSource::Manual)));
}

#[test]
fn monitor_listens_to_the_four_topics() {
    let monitor = SistemaMonitoreo::new(1);
    assert_eq!(monitor.get_qos(), 1);
    assert_eq!(
        monitor.get_topics(),
        &vec![
            (String::from("Cam"), 1),
            (String::from("Dron"), 1),
            (String::from("Inc"), 1),
            (String::from("desc"), 1)
        ]
    );
    assert_eq!(SistemaMonitoreo::new(0).get_topics()[3], (String::from("desc"), 0));
    assert_eq!(get_formatted_app_id(), "Sistema-Monitoreo");
    assert_eq!(get_app_will_msg_content().to_bytes(), vec![2, 0]);
}
