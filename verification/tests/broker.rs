use rustx::mqtt::client::mqtt_client::{Incoming, MQTTClient};
use rustx::mqtt::messages::connect_message::{ConnectMessage, WillMessage};
use rustx::mqtt::messages::connect_return_code::ConnectReturnCode;
use rustx::mqtt::messages::packet_type::PacketType;
use rustx::mqtt::messages::puback_message::PubAckMessage;
use rustx::mqtt::messages::publish_flags::PublishFlags;
use rustx::mqtt::messages::publish_message::PublishMessage;
use rustx::mqtt::messages::subscribe_message::SubscribeMessage;
use rustx::mqtt::messages::subscribe_return_code::SubscribeReturnCode;
use rustx::mqtt::mqtt_error::MqttError;
use rustx::mqtt::retransmitter::RetransmitConfig;
use rustx::mqtt::server::message_processor::{MessageProcessor, Processed};
use rustx::mqtt::server::mqtt_server::MQTTServer;
use rustx::mqtt::server::packet::Packet;
use rustx::mqtt::server::session::{same_text, Session};

fn server() -> MQTTServer {
    MQTTServer::new(
        vec![
            (String::from("usuario0"), String::from("clave0")),
            (String::from("usuario1"), String::from("clave1")),
        ],
        RetransmitConfig::standard(),
        0,
    )
}

fn connect_msg(id: &str, clean: bool, will: Option<WillMessage>) -> ConnectMessage {
    ConnectMessage::new(
        String::from(id),
        clean,
        60,
        will,
        Some(String::from("usuario0")),
        Some(String::from("clave0")),
    )
    .unwrap()
}

fn join(server: &mut MQTTServer, id: &str, clean: bool) {
    let outcome = server.connect(&connect_msg(id, clean, None));
    assert_eq!(
        outcome.connack.get_connect_return_code(),
        ConnectReturnCode::ConnectionAccepted
    );
}

fn subscribe(server: &mut MQTTServer, id: &str, topic: &str, qos: u8) -> Vec<PublishMessage> {
    let msg = SubscribeMessage::new(1, vec![(String::from(topic), qos)]);
    server.add_topics_to_subscriber(id, &msg).unwrap();
    server.send_preexisting_msgs_to_new_subscriber(id, &msg).unwrap()
}

fn publish(qos: u8, topic: &str, id: u16, payload: &[u8]) -> PublishMessage {
    PublishMessage::new(PublishFlags::new(0, qos, 0).unwrap(), topic, Some(id), payload).unwrap()
}

#[test]
fn connect_checks_the_credentials() {
    let mut server = server();
    let wrong = ConnectMessage::new(
        String::from("a"),
        true,
        60,
        None,
        Some(String::from("usuario0")),
        Some(String::from("clave1")),
    )
    .unwrap();
    let outcome = server.connect(&wrong);
    assert_eq!(
        outcome.connack.get_connect_return_code(),
        ConnectReturnCode::BadUsernameOrPassword
    );
    assert!(!outcome.connack.get_session_present());
    assert!(!outcome.close_previous);
    assert_eq!(outcome.connack.to_bytes(), vec![0x20, 2, 0, 4]);
    assert_eq!(server.session_count(), 0);

    let nameless = ConnectMessage::new(String::from("a"), true, 60, None, None, None).unwrap();
    assert_eq!(
        server.connect(&nameless).connack.get_connect_return_code(),
        ConnectReturnCode::BadUsernameOrPassword
    );

    let outcome = server.connect(&connect_msg("a", true, None));
    assert_eq!(outcome.connack.to_bytes(), vec![0x20, 2, 0, 0]);
    assert!(!outcome.close_previous);
    assert!(outcome.deliveries.is_empty());
    assert_eq!(server.session_count(), 1);
    assert!(server.is_connected("a"));
    assert!(!server.is_connected("b"));
}

#[test]
fn second_connection_of_a_client_closes_the_first() {
    let mut server = server();
    join(&mut server, "a", true);
    subscribe(&mut server, "a", "Inc", 1);
    let outcome = server.connect(&connect_msg("a", true, None));
    assert!(outcome.close_previous);
    assert!(!outcome.connack.get_session_present());
    assert_eq!(server.session_count(), 1);
    assert_eq!(server.get_session("a").unwrap().granted_for("Inc"), None);
}

#[test]
fn subscribe_grants_at_most_qos_1() {
    let mut server = server();
    join(&mut server, "a", true);
    let msg = SubscribeMessage::new(
        9,
        vec![
            (String::from("Cam"), 0),
            (String::from("Dron"), 1),
            (String::from("Inc"), 2),
        ],
    );
    let codes = server.add_topics_to_subscriber("a", &msg);
    assert_eq!(
        codes,
        Ok(vec![
            SubscribeReturnCode::QoS0,
            SubscribeReturnCode::QoS1,
            SubscribeReturnCode::QoS1
        ])
    );
    let suback = server.send_suback_to("a", &codes, 9).unwrap();
    assert_eq!(suback.to_bytes().unwrap(), vec![0x90, 5, 0, 9, 0, 1, 1]);
    let session = server.get_session("a").unwrap();
    assert_eq!(session.granted_for("Cam"), Some(0));
    assert_eq!(session.granted_for("Dron"), Some(1));
    assert_eq!(session.granted_for("Inc"), Some(1));
    assert_eq!(session.granted_for("desc"), None);
}

#[test]
fn subscribing_again_replaces_the_subscription() {
    let mut server = server();
    join(&mut server, "a", true);
    subscribe(&mut server, "a", "Inc", 1);
    subscribe(&mut server, "a", "Inc", 0);
    assert_eq!(server.get_session("a").unwrap().granted_for("Inc"), Some(0));
    let sent = server.handle_publish_message(&publish(1, "Inc", 5, &[1])).unwrap();
    assert_eq!(sent.len(), 1);
    assert_eq!(sent[0].msg.get_qos(), 0);
}

#[test]
fn only_connected_clients_subscribe() {
    let mut server = server();
    let msg = SubscribeMessage::new(1, vec![(String::from("Inc"), 1)]);
    assert_eq!(
        server.add_topics_to_subscriber("a", &msg),
        Err(MqttError::UnknownClient)
    );
    assert_eq!(
        server.send_preexisting_msgs_to_new_subscriber("a", &msg).err(),
        Some(MqttError::UnknownClient)
    );
    assert_eq!(
        server.send_suback_to("a", &Ok(vec![]), 1).err(),
        Some(MqttError::UnknownClient)
    );
    join(&mut server, "a", false);
    assert_eq!(
        server.send_suback_to("a", &Err(MqttError::UnknownClient), 1).err(),
        Some(MqttError::UnknownClient)
    );
    server.disconnect("a", true);
    assert_eq!(
        server.add_topics_to_subscriber("a", &msg),
        Err(MqttError::UnknownClient)
    );
}

#[test]
fn publish_goes_to_the_subscribers_of_its_topic() {
    let mut server = server();
    join(&mut server, "cam", true);
    join(&mut server, "dron", true);
    join(&mut server, "mon", true);
    subscribe(&mut server, "cam", "Inc", 1);
    subscribe(&mut server, "dron", "Inc", 0);
    subscribe(&mut server, "mon", "Cam", 1);

    let sent = server.handle_publish_message(&publish(1, "Inc", 40, &[9, 9])).unwrap();
    assert_eq!(sent.len(), 2);
    assert_eq!(sent[0].client_id, "cam");
    assert_eq!(sent[0].msg.get_qos(), 1);
    assert_eq!(sent[0].msg.get_packet_id(), Some(1));
    assert_eq!(sent[0].msg.get_payload(), vec![9, 9]);
    assert_eq!(sent[0].msg.get_topic(), "Inc");
    assert_eq!(sent[1].client_id, "dron");
    assert_eq!(sent[1].msg.get_qos(), 0);
    assert_eq!(sent[1].msg.get_packet_id(), None);
    assert_eq!(server.get_session("cam").unwrap().in_flight_count(), 1);
    assert_eq!(server.get_session("dron").unwrap().in_flight_count(), 0);
    assert_eq!(server.get_session("mon").unwrap().in_flight_count(), 0);

    let sent = server.handle_publish_message(&publish(0, "Inc", 41, &[])).unwrap();
    assert_eq!(sent.len(), 2);
    assert_eq!(sent[0].msg.get_qos(), 0);
    assert_eq!(sent[0].msg.get_packet_id(), None);

    let sent = server.handle_publish_message(&publish(1, "Inc", 42, &[])).unwrap();
    assert_eq!(sent[0].msg.get_packet_id(), Some(2));
    assert!(server.handle_publish_message(&publish(1, "nadie", 43, &[])).unwrap().is_empty());
}

#[test]
fn publish_with_qos_2_is_not_supported() {
    let mut server = server();
    join(&mut server, "a", true);
    subscribe(&mut server, "a", "Inc", 1);
    assert_eq!(
        server.handle_publish_message(&publish(2, "Inc", 1, &[])).err(),
        Some(MqttError::UnsupportedQos)
    );
    assert!(server.latest_of("Inc").is_none());
}

#[test]
fn forwarded_publish_is_a_first_delivery() {
    let mut server = server();
    join(&mut server, "a", true);
    subscribe(&mut server, "a", "Inc", 1);
    let dup = PublishMessage::new(PublishFlags::new(1, 1, 1).unwrap(), "Inc", Some(9), &[]).unwrap();
    let sent = server.handle_publish_message(&dup).unwrap();
    assert!(!sent[0].msg.get_flags().dup);
    assert!(sent[0].msg.get_flags().retain);
}

#[test]
fn latest_message_of_a_topic_seeds_late_subscribers() {
    let mut server = server();
    join(&mut server, "late", true);
    server.handle_publish_message(&publish(1, "Cam", 1, &[1])).unwrap();
    server.handle_publish_message(&publish(1, "Cam", 2, &[2])).unwrap();
    server.handle_publish_message(&publish(0, "Dron", 3, &[3])).unwrap();
    assert_eq!(server.latest_of("Cam").unwrap().get_payload(), vec![2]);
    assert_eq!(server.latest_of("Dron").unwrap().get_payload(), vec![3]);
    assert!(server.latest_of("Inc").is_none());

    let msg = SubscribeMessage::new(
        1,
        vec![
            (String::from("Dron"), 1),
            (String::from("Inc"), 1),
            (String::from("Cam"), 1),
        ],
    );
    server.add_topics_to_subscriber("late", &msg).unwrap();
    let sent = server.send_preexisting_msgs_to_new_subscriber("late", &msg).unwrap();
    assert_eq!(sent.len(), 2);
    assert_eq!(sent[0].get_topic(), "Dron");
    assert_eq!(sent[0].get_qos(), 0);
    assert_eq!(sent[1].get_topic(), "Cam");
    assert_eq!(sent[1].get_payload(), vec![2]);
    assert_eq!(sent[1].get_qos(), 1);
    assert_eq!(sent[1].get_packet_id(), Some(1));
    assert_eq!(server.get_session("late").unwrap().in_flight_count(), 1);
}

#[test]
fn puback_is_owed_for_qos_1_from_connected_clients() {
    let mut server = server();
    join(&mut server, "a", true);
    assert_eq!(
        server.send_puback_to("a", &publish(1, "Inc", 77, &[])),
        Ok(Some(PubAckMessage::new(77)))
    );
    assert_eq!(server.send_puback_to("a", &publish(0, "Inc", 77, &[])), Ok(None));
    assert_eq!(
        server.send_puback_to("b", &publish(1, "Inc", 77, &[])),
        Err(MqttError::UnknownClient)
    );
}

#[test]
fn puback_from_subscriber_ends_the_wait() {
    let mut server = server();
    join(&mut server, "a", true);
    join(&mut server, "b", true);
    subscribe(&mut server, "a", "Inc", 1);
    subscribe(&mut server, "b", "Inc", 1);
    server.handle_publish_message(&publish(1, "Inc", 1, &[])).unwrap();
    server.handle_publish_message(&publish(1, "Inc", 2, &[])).unwrap();
    assert!(!server.handle_puback("nadie", 1));
    assert!(!server.handle_puback("a", 3));
    assert!(server.handle_puback("a", 2));
    assert!(!server.handle_puback("a", 2));
    assert_eq!(server.get_session("a").unwrap().in_flight_count(), 1);
    assert_eq!(server.get_session("b").unwrap().in_flight_count(), 2);
}

#[test]
fn broker_sends_again_and_reports_what_it_gives_up() {
    let mut server = server();
    join(&mut server, "a", true);
    subscribe(&mut server, "a", "Inc", 1);
    server.set_clock(1_000);
    server.handle_publish_message(&publish(1, "Inc", 9, &[4])).unwrap();

    let tick = server.retransmit_due(10_999);
    assert!(tick.resend.is_empty() && tick.given_up.is_empty());
    let mut now = 1_000u64;
    for wait in [10_000u64, 20_000, 40_000, 60_000, 60_000] {
        now += wait;
        let tick = server.retransmit_due(now);
        assert_eq!(tick.resend.len(), 1);
        assert_eq!(tick.resend[0].client_id, "a");
        assert!(tick.resend[0].msg.get_flags().dup);
        assert_eq!(tick.resend[0].msg.get_packet_id(), Some(1));
        assert_eq!(tick.resend[0].msg.get_payload(), vec![4]);
        assert!(tick.given_up.is_empty());
    }
    let tick = server.retransmit_due(now + 60_000);
    assert!(tick.resend.is_empty());
    assert_eq!(tick.given_up.len(), 1);
    assert_eq!(tick.given_up[0].client_id, "a");
    assert_eq!(tick.given_up[0].msg.get_packet_id(), Some(1));
    assert_eq!(server.get_session("a").unwrap().in_flight_count(), 0);
}

#[test]
fn acknowledged_publish_is_never_sent_again() {
    let mut server = server();
    join(&mut server, "a", true);
    subscribe(&mut server, "a", "Inc", 1);
    server.handle_publish_message(&publish(1, "Inc", 9, &[])).unwrap();
    assert!(server.handle_puback("a", 1));
    let tick = server.retransmit_due(u64::MAX);
    assert!(tick.resend.is_empty() && tick.given_up.is_empty());
}

#[test]
fn nothing_is_sent_again_to_a_client_that_is_away() {
    let mut server = server();
    join(&mut server, "a", false);
    subscribe(&mut server, "a", "Inc", 1);
    server.handle_publish_message(&publish(1, "Inc", 9, &[5])).unwrap();
    server.disconnect("a", true);
    let tick = server.retransmit_due(1_000_000);
    assert!(tick.resend.is_empty() && tick.given_up.is_empty());
    let session = server.get_session("a").unwrap();
    assert!(!session.is_online());
    assert_eq!(session.in_flight_count(), 0);
    assert_eq!(session.pending_count(), 1);
}

#[test]
fn persistent_session_queues_while_the_client_is_away() {
    let mut server = server();
    join(&mut server, "a", false);
    subscribe(&mut server, "a", "Inc", 1);
    server.disconnect("a", true);
    assert_eq!(server.session_count(), 1);
    assert!(server.handle_publish_message(&publish(1, "Inc", 1, &[1])).unwrap().is_empty());
    assert!(server.handle_publish_message(&publish(0, "Inc", 2, &[2])).unwrap().is_empty());
    assert!(server.handle_publish_message(&publish(1, "Cam", 3, &[3])).unwrap().is_empty());
    assert_eq!(server.get_session("a").unwrap().pending_count(), 2);

    let outcome = server.connect(&connect_msg("a", false, None));
    assert!(outcome.connack.get_session_present());
    assert!(!outcome.close_previous);
    assert_eq!(outcome.deliveries.len(), 2);
    assert_eq!(outcome.deliveries[0].get_payload(), vec![1]);
    assert_eq!(outcome.deliveries[0].get_qos(), 1);
    assert_eq!(outcome.deliveries[0].get_packet_id(), Some(1));
    assert_eq!(outcome.deliveries[1].get_payload(), vec![2]);
    assert_eq!(outcome.deliveries[1].get_qos(), 0);
    let session = server.get_session("a").unwrap();
    assert!(session.is_online());
    assert!(session.is_persistent());
    assert_eq!(session.pending_count(), 0);
    assert_eq!(session.in_flight_count(), 1);
    assert_eq!(session.granted_for("Inc"), Some(1));
    assert_eq!(session.get_client_id(), "a");
}

#[test]
fn clean_session_wipes_what_was_kept() {
    let mut server = server();
    join(&mut server, "a", false);
    subscribe(&mut server, "a", "Inc", 1);
    server.disconnect("a", true);
    server.handle_publish_message(&publish(1, "Inc", 1, &[1])).unwrap();
    let outcome = server.connect(&connect_msg("a", true, None));
    assert!(!outcome.connack.get_session_present());
    assert!(outcome.deliveries.is_empty());
    let session = server.get_session("a").unwrap();
    assert_eq!(session.pending_count(), 0);
    assert_eq!(session.granted_for("Inc"), None);
    assert!(!session.is_persistent());
}

#[test]
fn session_that_is_not_persistent_is_forgotten() {
    let mut server = server();
    join(&mut server, "a", true);
    join(&mut server, "b", true);
    subscribe(&mut server, "a", "Inc", 1);
    server.disconnect("a", true);
    assert_eq!(server.session_count(), 1);
    assert!(server.get_session("a").is_none());
    assert!(server.get_session("b").is_some());
    assert!(server.handle_publish_message(&publish(1, "Inc", 1, &[])).unwrap().is_empty());
    assert!(server.disconnect("a", false).is_empty());
    assert!(server.disconnect("nadie", false).is_empty());
}

#[test]
fn unacknowledged_publishes_wait_for_the_client_to_come_back() {
    let mut server = server();
    join(&mut server, "a", false);
    subscribe(&mut server, "a", "Inc", 1);
    server.handle_publish_message(&publish(1, "Inc", 1, &[7])).unwrap();
    server.disconnect("a", false);
    let outcome = server.connect(&connect_msg("a", false, None));
    assert_eq!(outcome.deliveries.len(), 1);
    assert_eq!(outcome.deliveries[0].get_payload(), vec![7]);
    assert_eq!(outcome.deliveries[0].get_packet_id(), Some(2));
}

#[test]
fn last_will_delivery() {
    let mut server = server();
    join(&mut server, "watcher", true);
    subscribe(&mut server, "watcher", "desc", 1);
    let will = WillMessage::new(String::from("desc"), vec![2, 0], 1, false);
    server.connect(&connect_msg("A", true, Some(will)));
    assert!(server.get_session("A").unwrap().get_will().is_some());

    let sent = server.disconnect("A", false);
    assert_eq!(sent.len(), 1);
    assert_eq!(sent[0].client_id, "watcher");
    assert_eq!(sent[0].msg.get_topic(), "desc");
    assert_eq!(sent[0].msg.get_payload(), vec![2, 0]);
    assert_eq!(sent[0].msg.get_qos(), 1);
    assert_eq!(server.latest_of("desc").unwrap().get_payload(), vec![2, 0]);
    assert_eq!(server.get_session("watcher").unwrap().in_flight_count(), 1);
    assert!(server.disconnect("A", false).is_empty());
}

#[test]
fn graceful_disconnect_suppresses_the_will() {
    let mut server = server();
    join(&mut server, "watcher", true);
    subscribe(&mut server, "watcher", "desc", 1);
    let will = WillMessage::new(String::from("desc"), vec![2, 0], 1, false);
    server.connect(&connect_msg("A", false, Some(will)));
    assert!(server.disconnect("A", true).is_empty());
    assert!(server.latest_of("desc").is_none());
    assert!(server.get_session("A").unwrap().get_will().is_none());
    server.connect(&connect_msg("A", false, None));
    assert!(server.disconnect("A", false).is_empty());
}

#[test]
fn will_reaches_subscribers_that_are_away() {
    let mut server = server();
    join(&mut server, "watcher", false);
    subscribe(&mut server, "watcher", "desc", 1);
    server.disconnect("watcher", true);
    let will = WillMessage::new(String::from("desc"), vec![1, 4], 2, true);
    server.connect(&connect_msg("dron-4", true, Some(will)));
    assert!(server.disconnect("dron-4", false).is_empty());
    let outcome = server.connect(&connect_msg("watcher", false, None));
    assert_eq!(outcome.deliveries.len(), 1);
    assert_eq!(outcome.deliveries[0].get_payload(), vec![1, 4]);
    assert_eq!(outcome.deliveries[0].get_qos(), 1);
    assert!(outcome.deliveries[0].get_flags().retain);
}

#[test]
fn shutdown_disconnects_everyone_without_wills() {
    let mut server = server();
    join(&mut server, "watcher", false);
    subscribe(&mut server, "watcher", "desc", 1);
    let will = WillMessage::new(String::from("desc"), vec![2, 0], 1, false);
    server.connect(&connect_msg("A", true, Some(will)));
    server.shutdown();
    assert_eq!(server.session_count(), 1);
    assert!(!server.is_connected("watcher"));
    assert!(server.get_session("A").is_none());
    assert!(server.latest_of("desc").is_none());
    assert_eq!(server.get_session("watcher").unwrap().pending_count(), 0);
    server.shutdown();
    assert_eq!(server.session_count(), 1);
}

#[test]
fn texts_are_compared_by_content() {
    assert!(same_text("Inc", "Inc"));
    assert!(!same_text("Inc", "inc"));
    assert!(!same_text("Inc", "Inc "));
    assert!(same_text("", ""));
}

#[test]
fn session_alone() {
    let mut session = Session::new(String::from("a"), true, None, RetransmitConfig::standard());
    assert_eq!(session.subscribe_to("Inc", 2), SubscribeReturnCode::QoS1);
    assert_eq!(session.subscribe_to("Cam", 0), SubscribeReturnCode::QoS0);
    assert!(session.route(&publish(1, "Dron", 1, &[]), 0).is_none());
    let sent = session.route(&publish(1, "Inc", 1, &[]), 0).unwrap();
    assert_eq!(sent.get_packet_id(), Some(1));
    assert!(session.route(&publish(1, "Cam", 1, &[]), 0).unwrap().get_packet_id().is_none());
    assert!(!session.acknowledge(2));
    let outcome = session.tick(10_000);
    assert_eq!(outcome.resend.len(), 1);
    session.go_offline();
    assert!(session.tick(1_000_000).resend.is_empty());
    assert_eq!(session.pending_count(), 1);
    assert!(session.route(&publish(1, "Inc", 2, &[8]), 0).is_none());
    let back = session.resume(None, 7);
    assert_eq!(back.len(), 2);
    assert!(!back[0].get_flags().dup);
    assert_eq!(back[0].get_packet_id(), Some(2));
    assert_eq!(back[1].get_packet_id(), Some(3));
    assert_eq!(back[1].get_payload(), vec![8]);
    assert!(!session.has_received(5));
    session.note_received(5);
    session.note_received(5);
    assert!(session.has_received(5));
}

fn packet(kind: PacketType, bytes: Vec<u8>, from: &str) -> Packet {
    Packet::new(kind, bytes, String::from(from))
}

fn processor() -> MessageProcessor {
    let mut server = server();
    join(&mut server, "pub", true);
    join(&mut server, "sub", true);
    let mut processor = MessageProcessor::new(server);
    let msg = SubscribeMessage::new(3, vec![(String::from("Inc"), 1)]);
    let done = processor
        .process_packet(&packet(PacketType::Subscribe, msg.to_bytes().unwrap(), "sub"))
        .unwrap();
    match done {
        Processed::Subscribed { suback, latest } => {
            assert_eq!(suback.to_bytes().unwrap(), vec![0x90, 3, 0, 3, 1]);
            assert!(latest.is_empty());
        }
        other => panic!("{:?}", other),
    }
    processor
}

#[test]
fn processor_takes_in_a_publish() {
    let mut processor = processor();
    let bytes = publish(1, "Inc", 10, &[5]).to_bytes();
    match processor.process_packet(&packet(PacketType::Publish, bytes, "pub")).unwrap() {
        Processed::Published { puback, deliveries } => {
            assert_eq!(puback, Some(PubAckMessage::new(10)));
            assert_eq!(deliveries.len(), 1);
            assert_eq!(deliveries[0].client_id, "sub");
            assert_eq!(deliveries[0].msg.get_payload(), vec![5]);
        }
        other => panic!("{:?}", other),
    }
    let bytes = publish(0, "Inc", 11, &[6]).to_bytes();
    match processor.handle_publish(&bytes, "nadie").unwrap() {
        Processed::Published { puback, deliveries } => {
            assert_eq!(puback, None);
            assert_eq!(deliveries.len(), 1);
        }
        other => panic!("{:?}", other),
    }
    assert_eq!(processor.get_server().latest_of("Inc").unwrap().get_payload(), vec![6]);
}

#[test]
fn processor_deduplicates_repeated_publishes() {
    let mut processor = processor();
    let msg = publish(1, "Inc", 10, &[5]);
    let first = processor.handle_publish(&msg.to_bytes(), "pub").unwrap();
    assert!(matches!(first, Processed::Published { ref deliveries, .. } if deliveries.len() == 1));
    assert!(processor.get_server().is_duplicate("pub", &msg.as_duplicate()));
    assert!(!processor.get_server().is_duplicate("pub", &msg));
    assert!(!processor.get_server().is_duplicate("sub", &msg.as_duplicate()));

    match processor.handle_publish(&msg.as_duplicate().to_bytes(), "pub").unwrap() {
        Processed::Published { puback, deliveries } => {
            assert_eq!(puback, Some(PubAckMessage::new(10)));
            assert!(deliveries.is_empty());
        }
        other => panic!("{:?}", other),
    }
    assert_eq!(
        processor.get_server().get_session("sub").unwrap().in_flight_count(),
        1
    );
    let other = publish(1, "Inc", 11, &[5]).as_duplicate();
    match processor.handle_publish(&other.to_bytes(), "pub").unwrap() {
        Processed::Published { deliveries, .. } => assert_eq!(deliveries.len(), 1),
        other => panic!("{:?}", other),
    }
}

#[test]
fn broker_forgets_packet_ids_before_they_come_round_again() {
    let mut session = Session::new(String::from("a"), true, None, RetransmitConfig::standard());
    session.note_received(10);
    session.note_received(11);
    session.note_received(10 + 32_767);
    assert!(session.has_received(10));
    assert!(session.has_received(11));
    session.note_received(10 + 32_768);
    assert!(!session.has_received(10));
    assert!(session.has_received(11));
    assert!(session.has_received(10 + 32_768));
    session.note_received(65_535);
    session.note_received(5);
    assert!(session.has_received(65_535));
    assert!(session.has_received(10 + 32_768));
    session.note_received(32_770);
    assert!(!session.has_received(65_535));
    assert!(session.has_received(5));
    assert!(session.has_received(32_770));

    let mut processor = processor();
    let old = publish(1, "Inc", 10, &[1]);
    processor.handle_publish(&old.to_bytes(), "pub").unwrap();
    let far = publish(1, "Inc", 40_000, &[2]);
    processor.handle_publish(&far.to_bytes(), "pub").unwrap();
    let reused = publish(1, "Inc", 10, &[3]).as_duplicate();
    match processor.handle_publish(&reused.to_bytes(), "pub").unwrap() {
        Processed::Published { deliveries, .. } => {
            assert_eq!(deliveries.len(), 1);
            assert_eq!(deliveries[0].msg.get_payload(), vec![3]);
        }
        other => panic!("{:?}", other),
    }
}

#[test]
fn processor_takes_in_a_puback() {
    let mut processor = processor();
    processor
        .handle_publish(&publish(1, "Inc", 10, &[5]).to_bytes(), "pub")
        .unwrap();
    let ack = PubAckMessage::new(1).to_bytes();
    match processor.process_packet(&packet(PacketType::Puback, ack.clone(), "sub")).unwrap() {
        Processed::Acknowledged { was_waiting } => assert!(was_waiting),
        other => panic!("{:?}", other),
    }
    match processor.handle_puback(&ack, "sub").unwrap() {
        Processed::Acknowledged { was_waiting } => assert!(!was_waiting),
        other => panic!("{:?}", other),
    }
    match processor.handle_puback(&ack, "nadie").unwrap() {
        Processed::Acknowledged { was_waiting } => assert!(!was_waiting),
        other => panic!("{:?}", other),
    }
}

#[test]
fn processor_refuses_what_it_cannot_read() {
    let mut processor = processor();
    assert_eq!(
        processor.handle_publish(&[0x30, 1], "pub").err(),
        Some(MqttError::MalformedPacket)
    );
    assert_eq!(
        processor.handle_publish(&publish(2, "Inc", 1, &[]).to_bytes(), "pub").err(),
        Some(MqttError::UnsupportedQos)
    );
    assert_eq!(
        processor.handle_subscribe(&[0x82, 1, 0], "sub").err(),
        Some(MqttError::MalformedPacket)
    );
    let sub = SubscribeMessage::new(1, vec![(String::from("Inc"), 1)]).to_bytes().unwrap();
    assert_eq!(
        processor.handle_subscribe(&sub, "nadie").err(),
        Some(MqttError::UnknownClient)
    );
    assert_eq!(
        processor.handle_puback(&[0x40, 1, 0], "sub").err(),
        Some(MqttError::MalformedPacket)
    );
    assert!(matches!(
        processor.process_packet(&packet(PacketType::Connect, vec![], "pub")).unwrap(),
        Processed::Unknown
    ));
    assert!(matches!(
        processor.process_packet(&packet(PacketType::Disconnect, vec![0xE0, 0], "pub")).unwrap(),
        Processed::Unknown
    ));
}

#[test]
fn processor_answers_for_the_broker() {
    let mut processor = processor();
    assert_eq!(
        processor.send_puback_to("pub", &publish(1, "Inc", 4, &[])),
        Ok(Some(PubAckMessage::new(4)))
    );
    assert_eq!(
        processor.send_puback_to("nadie", &publish(1, "Inc", 4, &[])),
        Err(MqttError::UnknownClient)
    );
    let suback = processor
        .send_suback_to("sub", Ok(vec![SubscribeReturnCode::QoS1]), 8)
        .unwrap();
    assert_eq!(suback.get_packet_id(), 8);
    assert_eq!(
        processor.send_suback_to("sub", Err(MqttError::UnknownClient), 8).err(),
        Some(MqttError::UnknownClient)
    );
    processor.get_server_mut().set_clock(5);
    let sent = processor.get_server_mut().disconnect("sub", false);
    assert!(sent.is_empty());
    assert!(!processor.get_server().is_connected("sub"));
}

#[test]
fn packet_keeps_what_it_was_given() {
    let p = packet(PacketType::Publish, vec![1, 2], "dron-1");
    assert_eq!(p.get_message_type(), PacketType::Publish);
    assert_eq!(p.get_msg_bytes(), &[1, 2]);
    assert_eq!(p.get_username(), "dron-1");
}

#[test]
fn client_and_broker_retransmit_until_acknowledged() {
    let mut processor = processor();
    let connack = processor
        .get_server_mut()
        .connect(&connect_msg("client", true, None))
        .connack
        .to_bytes();
    let mut client =
        MQTTClient::mqtt_connect_to_broker(&connack, RetransmitConfig::standard(), 0).unwrap();

    let sent = client.mqtt_publish("Inc", &[1], 1).unwrap();
    let first = processor.handle_publish(&sent.to_bytes(), "client").unwrap();
    let lost_ack = match first {
        Processed::Published { puback, deliveries } => {
            assert_eq!(deliveries.len(), 1);
            puback.unwrap()
        }
        other => panic!("{:?}", other),
    };
    assert_eq!(lost_ack.get_packet_id(), 1);

    assert!(client.retransmit_due(9_999).resend.is_empty());
    let outcome = client.retransmit_due(10_000);
    assert_eq!(outcome.resend.len(), 1);
    let again = &outcome.resend[0];
    assert!(again.get_flags().dup);

    let second = processor.handle_publish(&again.to_bytes(), "client").unwrap();
    let ack = match second {
        Processed::Published { puback, deliveries } => {
            assert!(deliveries.is_empty());
            puback.unwrap()
        }
        other => panic!("{:?}", other),
    };
    match client.handle_incoming(&ack.to_bytes()).unwrap() {
        Incoming::Acknowledged { packet_id, was_waiting } => {
            assert_eq!(packet_id, 1);
            assert!(was_waiting);
        }
        other => panic!("{:?}", other),
    }
    assert_eq!(client.pending_count(), 0);
    assert!(client.retransmit_due(1_000_000).resend.is_empty());
}
