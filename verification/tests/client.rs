use rustx::apps::apps_mqtt_topics::AppsMqttTopics;
use rustx::mqtt::client::mqtt_client::{Incoming, MQTTClient};
use rustx::mqtt::client::mqtt_client_server_connection::{connect_message, read_connack};
use rustx::mqtt::client::mqtt_client_writer::MQTTClientWriter;
use rustx::mqtt::messages::connack_message::ConnackMessage;
use rustx::mqtt::messages::connect_message::ConnectMessage;
use rustx::mqtt::messages::connect_return_code::ConnectReturnCode;
use rustx::mqtt::messages::disconnect_message::DisconnectMessage;
use rustx::mqtt::messages::puback_message::PubAckMessage;
use rustx::mqtt::messages::publish_flags::PublishFlags;
use rustx::mqtt::messages::publish_message::PublishMessage;
use rustx::mqtt::messages::suback_message::SubAckMessage;
use rustx::mqtt::messages::subscribe_return_code::SubscribeReturnCode;
use rustx::mqtt::mqtt_error::MqttError;
use rustx::mqtt::mqtt_utils::will_message_utils::app_type::AppType;
use rustx::mqtt::mqtt_utils::will_message_utils::will_content::WillContent;
use rustx::mqtt::packet_id::mint_packet_id;
use rustx::mqtt::retransmitter::{deadline_from, RetransmitConfig, Retransmitter};

fn accepted() -> Vec<u8> {
    ConnackMessage::new(false, ConnectReturnCode::ConnectionAccepted).to_bytes()
}

fn client(now: u64) -> MQTTClient {
    MQTTClient::mqtt_connect_to_broker(&accepted(), RetransmitConfig::standard(), now).unwrap()
}

fn publish(qos: u8, id: u16) -> PublishMessage {
    PublishMessage::new(PublishFlags::new(0, qos, 0).unwrap(), "Inc", Some(id), &[1]).unwrap()
}

#[test]
fn packet_ids_start_at_one_and_skip_zero() {
    assert_eq!(mint_packet_id(0), 1);
    assert_eq!(mint_packet_id(1), 2);
    assert_eq!(mint_packet_id(65_534), 65_535);
    assert_eq!(mint_packet_id(65_535), 1);
}

#[test]
fn packet_ids_do_not_repeat_within_65535_mints() {
    let mut seen = vec![false; 65_536];
    let mut last = 0u16;
    for _ in 0..65_535 {
        last = mint_packet_id(last);
        assert_ne!(last, 0);
        assert!(!seen[last as usize]);
        seen[last as usize] = true;
    }
    assert_eq!(mint_packet_id(last), 1);
}

#[test]
fn standard_retransmission_times() {
    let config = RetransmitConfig::standard();
    assert_eq!(config.initial_timeout, 10_000);
    assert_eq!(config.max_timeout, 60_000);
    assert_eq!(config.max_retries, 5);
    assert_eq!(config.following_timeout(10_000), 20_000);
    assert_eq!(config.following_timeout(20_000), 40_000);
    assert_eq!(config.following_timeout(40_000), 60_000);
    assert_eq!(config.following_timeout(30_000), 60_000);
    assert_eq!(config.following_timeout(29_999), 59_998);
    assert_eq!(config.following_timeout(60_000), 60_000);
    assert_eq!(config.following_timeout(u64::MAX), 60_000);
    assert_eq!(config.following_timeout(0), 0);
}

#[test]
fn deadline_stops_at_the_end_of_time() {
    assert_eq!(deadline_from(5, 10), 15);
    assert_eq!(deadline_from(u64::MAX - 1, 1), u64::MAX);
    assert_eq!(deadline_from(u64::MAX - 1, 2), u64::MAX);
    assert_eq!(deadline_from(u64::MAX, u64::MAX), u64::MAX);
}

#[test]
fn connect_is_refused_or_accepted_by_the_connack() {
    assert!(client(0).is_connected());
    let refused = ConnackMessage::new(false, ConnectReturnCode::BadUsernameOrPassword).to_bytes();
    assert_eq!(
        MQTTClient::mqtt_connect_to_broker(&refused, RetransmitConfig::standard(), 0).err(),
        Some(MqttError::ConnectionRefused)
    );
    assert_eq!(
        MQTTClient::mqtt_connect_to_broker(&[0x20, 1, 0], RetransmitConfig::standard(), 0).err(),
        Some(MqttError::MalformedPacket)
    );
    assert_eq!(read_connack(&accepted()), Ok(()));
    assert_eq!(read_connack(&refused), Err(MqttError::ConnectionRefused));
    assert_eq!(
        read_connack(&DisconnectMessage::new().to_bytes()),
        Err(MqttError::MalformedPacket)
    );
}

#[test]
fn agent_connect_carries_its_will() {
    let msg = connect_message(
        "Sistema-Monitoreo",
        WillContent::new(AppType::Monitoreo, 0),
        AppsMqttTopics::DescTopic,
        1,
        Some(String::from("usuario0")),
        Some(String::from("clave")),
    )
    .unwrap();
    assert_eq!(msg.get_client_id(), "Sistema-Monitoreo");
    assert!(msg.is_clean_session());
    assert_eq!(msg.get_keep_alive(), 60);
    let will = msg.get_will().as_ref().unwrap();
    assert_eq!(will.topic, "desc");
    assert_eq!(will.message, vec![2, 0]);
    assert_eq!(will.qos, 1);
    assert!(!will.retain);
    assert_eq!(ConnectMessage::from_bytes(&msg.to_bytes()).unwrap(), msg);
    assert_eq!(
        connect_message(
            "c",
            WillContent::new(AppType::Dron, 1),
            AppsMqttTopics::DescTopic,
            3,
            None,
            None
        ),
        Err(MqttError::MalformedPacket)
    );
}

#[test]
fn publish_numbers_its_packets() {
    let mut client = client(0);
    let first = client.mqtt_publish("Inc", &[1, 2], 1).unwrap();
    assert_eq!(first.get_packet_id(), Some(1));
    assert_eq!(first.get_qos(), 1);
    assert_eq!(first.get_topic(), "Inc");
    assert_eq!(first.get_payload(), vec![1, 2]);
    assert!(!first.get_flags().dup);
    assert!(!first.get_flags().retain);
    let second = client.mqtt_publish("Cam", &[], 0).unwrap();
    assert_eq!(second.get_packet_id(), None);
    let third = client.mqtt_publish("Cam", &[], 1).unwrap();
    assert_eq!(third.get_packet_id(), Some(3));
    assert_eq!(client.pending_count(), 2);
}

#[test]
fn publish_refuses_what_it_cannot_send() {
    let mut client = client(0);
    assert_eq!(
        client.mqtt_publish("Inc", &[], 2),
        Err(MqttError::UnsupportedQos)
    );
    assert_eq!(
        client.mqtt_publish(&"t".repeat(65_536), &[], 0),
        Err(MqttError::TooLong)
    );
    assert_eq!(client.pending_count(), 0);
    assert_eq!(
        client.mqtt_publish("Inc", &[], 1).unwrap().get_packet_id(),
        Some(1)
    );
}

#[test]
fn subscribe_awaits_its_suback() {
    let mut client = client(0);
    let msg = client
        .mqtt_subscribe(vec![(String::from("Inc"), 1), (String::from("Cam"), 0)])
        .unwrap();
    assert_eq!(msg.get_packet_id(), 1);
    assert_eq!(
        msg.get_topic_filters(),
        &vec![(String::from("Inc"), 1), (String::from("Cam"), 0)]
    );

    let other = SubAckMessage::new(9, vec![SubscribeReturnCode::QoS1]).to_bytes().unwrap();
    match client.handle_incoming(&other).unwrap() {
        Incoming::Subscribed { suback, answered } => {
            assert_eq!(suback.get_packet_id(), 9);
            assert!(!answered);
            assert_eq!(suback.check_granted(), Ok(()));
        }
        other => panic!("{:?}", other),
    }
    let answer = SubAckMessage::new(1, vec![SubscribeReturnCode::QoS1, SubscribeReturnCode::Failure])
        .to_bytes()
        .unwrap();
    match client.handle_incoming(&answer).unwrap() {
        Incoming::Subscribed { suback, answered } => {
            assert_eq!(suback.get_packet_id(), 1);
            assert!(answered);
            assert_eq!(suback.check_granted(), Err(MqttError::SubscriptionRefused));
            assert_eq!(
                suback.get_return_codes(),
                &vec![SubscribeReturnCode::QoS1, SubscribeReturnCode::Failure]
            );
        }
        other => panic!("{:?}", other),
    }
    match client.handle_incoming(&answer).unwrap() {
        Incoming::Subscribed { answered, .. } => assert!(!answered),
        other => panic!("{:?}", other),
    }
}

#[test]
fn incoming_publish_is_handed_on_and_acknowledged() {
    let mut client = client(0);
    match client.handle_incoming(&publish(1, 77).to_bytes()).unwrap() {
        Incoming::Message { msg, ack } => {
            assert_eq!(msg, publish(1, 77));
            assert_eq!(ack, Some(PubAckMessage::new(77)));
        }
        other => panic!("{:?}", other),
    }
    match client.handle_incoming(&publish(0, 77).to_bytes()).unwrap() {
        Incoming::Message { msg, ack } => {
            assert_eq!(msg.get_packet_id(), None);
            assert_eq!(ack, None);
        }
        other => panic!("{:?}", other),
    }
    match client.handle_incoming(&publish(2, 5).to_bytes()).unwrap() {
        Incoming::Message { ack, .. } => assert_eq!(ack, None),
        other => panic!("{:?}", other),
    }
}

#[test]
fn incoming_packets_of_other_kinds_are_ignored_or_refused() {
    let mut client = client(0);
    assert!(matches!(
        client.handle_incoming(&accepted()).unwrap(),
        Incoming::Ignored
    ));
    assert!(matches!(
        client.handle_incoming(&DisconnectMessage::new().to_bytes()).unwrap(),
        Incoming::Ignored
    ));
    assert_eq!(
        client.handle_incoming(&[0x30, 1]).err(),
        Some(MqttError::MalformedPacket)
    );
    assert_eq!(
        client.handle_incoming(&[0x36, 5, 0, 1, b'a', 0, 1]).err(),
        Some(MqttError::MalformedPacket)
    );
    assert_eq!(
        client.handle_incoming(&[0x40, 1, 0]).err(),
        Some(MqttError::MalformedPacket)
    );
    assert_eq!(
        client.handle_incoming(&[0x90, 1, 0]).err(),
        Some(MqttError::MalformedPacket)
    );
    assert_eq!(client.handle_incoming(&[]).err(), Some(MqttError::MalformedPacket));
}

#[test]
fn puback_ends_the_wait() {
    let mut client = client(0);
    client.mqtt_publish("Inc", &[], 1).unwrap();
    client.mqtt_publish("Inc", &[], 1).unwrap();
    match client.handle_incoming(&PubAckMessage::new(2).to_bytes()).unwrap() {
        Incoming::Acknowledged { packet_id, was_waiting } => {
            assert_eq!(packet_id, 2);
            assert!(was_waiting);
        }
        other => panic!("{:?}", other),
    }
    assert_eq!(client.pending_count(), 1);
    match client.handle_incoming(&PubAckMessage::new(2).to_bytes()).unwrap() {
        Incoming::Acknowledged { was_waiting, .. } => assert!(!was_waiting),
        other => panic!("{:?}", other),
    }
    assert_eq!(client.pending_count(), 1);
    assert!(client.retransmit_due(9_999).resend.is_empty());
    let outcome = client.retransmit_due(10_000);
    assert_eq!(outcome.resend.len(), 1);
    assert_eq!(outcome.resend[0].get_packet_id(), Some(1));
}

#[test]
fn qos1_retransmission() {
    let mut client = client(1_000);
    let sent = client.mqtt_publish("Inc", &[7], 1).unwrap();

    let early = client.retransmit_due(10_999);
    assert!(early.resend.is_empty());
    assert!(early.given_up.is_empty());

    let outcome = client.retransmit_due(11_000);
    assert_eq!(outcome.resend.len(), 1);
    assert!(outcome.given_up.is_empty());
    let again = &outcome.resend[0];
    assert!(again.get_flags().dup);
    assert_eq!(again.get_packet_id(), sent.get_packet_id());
    assert_eq!(again.get_payload(), sent.get_payload());
    assert_eq!(again.to_bytes()[0], 0x3A);

    match client.handle_incoming(&PubAckMessage::new(1).to_bytes()).unwrap() {
        Incoming::Acknowledged { was_waiting, .. } => assert!(was_waiting),
        other => panic!("{:?}", other),
    }
    let later = client.retransmit_due(1_000_000);
    assert!(later.resend.is_empty());
    assert!(later.given_up.is_empty());
}

#[test]
fn unacknowledged_publish_is_sent_again_five_times_and_then_given_up() {
    let mut client = client(0);
    client.mqtt_publish("Inc", &[7], 1).unwrap();
    let mut now = 0u64;
    for wait in [10_000u64, 20_000, 40_000, 60_000, 60_000] {
        assert!(client.retransmit_due(now + wait - 1).resend.is_empty());
        now += wait;
        let outcome = client.retransmit_due(now);
        assert_eq!(outcome.resend.len(), 1);
        assert!(outcome.given_up.is_empty());
        assert_eq!(client.pending_count(), 1);
    }
    assert!(client.retransmit_due(now + 59_999).given_up.is_empty());
    let outcome = client.retransmit_due(now + 60_000);
    assert!(outcome.resend.is_empty());
    assert_eq!(outcome.given_up.len(), 1);
    assert_eq!(outcome.given_up[0].get_packet_id(), Some(1));
    assert_eq!(client.pending_count(), 0);
    let after = client.retransmit_due(u64::MAX);
    assert!(after.resend.is_empty() && after.given_up.is_empty());
}

#[test]
fn what_is_given_up_waits_no_longer() {
    let mut r = Retransmitter::new(RetransmitConfig {
        initial_timeout: 10,
        max_timeout: 10,
        max_retries: 2,
    });
    assert!(r.register(publish(1, 1), 0));
    assert!(r.register(publish(1, 2), 5));
    assert_eq!(r.tick(10).resend.len(), 1);
    assert_eq!(r.tick(20).resend.len(), 2);
    let third = r.tick(30);
    assert_eq!(third.resend.len(), 1);
    assert_eq!(third.given_up.len(), 1);
    assert_eq!(third.given_up[0].get_packet_id(), Some(1));
    assert!(!r.is_waiting_for(1));
    assert!(r.is_waiting_for(2));
    let fourth = r.tick(40);
    assert!(fourth.resend.is_empty());
    assert_eq!(fourth.given_up.len(), 1);
    assert_eq!(fourth.given_up[0].get_packet_id(), Some(2));
    assert_eq!(r.len(), 0);
    r.check_well_formed();
}

#[test]
fn disconnect_closes_the_client() {
    let mut client = client(0);
    client.mqtt_publish("Inc", &[], 1).unwrap();
    let msg = client.mqtt_disconnect().unwrap();
    assert_eq!(msg.to_bytes(), vec![0xE0, 0]);
    assert!(!client.is_connected());
    assert_eq!(client.pending_count(), 0);
    assert_eq!(
        client.mqtt_publish("Inc", &[], 0),
        Err(MqttError::NotConnected)
    );
    assert_eq!(
        client.mqtt_subscribe(vec![]).err(),
        Some(MqttError::NotConnected)
    );
    assert_eq!(client.mqtt_disconnect(), Err(MqttError::NotConnected));
}

#[test]
fn writer_alone_does_what_the_client_does() {
    let mut writer = MQTTClientWriter::new(RetransmitConfig::standard(), 5);
    assert!(writer.is_connected());
    assert_eq!(
        writer.mqtt_publish("Dron", &[1], 1).unwrap().get_packet_id(),
        Some(1)
    );
    assert_eq!(writer.mqtt_subscribe(vec![]).unwrap().get_packet_id(), 2);
    assert!(writer.handle_suback(2));
    assert!(!writer.handle_suback(2));
    assert!(!writer.handle_puback(2));
    assert!(writer.handle_puback(1));
    assert_eq!(writer.pending_count(), 0);
    assert!(writer.mqtt_disconnect().is_ok());
}

#[test]
fn retransmitter_keys_by_packet_id() {
    let mut r = Retransmitter::new(RetransmitConfig::standard());
    assert!(!r.register(publish(0, 1), 0));
    assert!(r.register(publish(1, 1), 0));
    assert!(r.register(publish(1, 2), 0));
    assert!(r.register(publish(1, 1), 5_000));
    assert_eq!(r.len(), 2);
    assert!(r.is_waiting_for(1));
    assert!(!r.is_waiting_for(3));
    let outcome = r.tick(10_000);
    assert_eq!(outcome.resend.len(), 1);
    assert_eq!(outcome.resend[0].get_packet_id(), Some(2));
    assert!(r.acknowledge(2));
    assert!(!r.acknowledge(2));
    let rest = r.drain();
    assert_eq!(rest, vec![publish(1, 1)]);
    assert_eq!(r.len(), 0);
    assert_eq!(r.get_config(), RetransmitConfig::standard());
}

#[test]
fn acknowledgements_may_come_out_of_order() {
    let mut client = client(0);
    for _ in 0..3 {
        client.mqtt_publish("Inc", &[], 1).unwrap();
    }
    for id in [3u16, 1, 2] {
        match client.handle_incoming(&PubAckMessage::new(id).to_bytes()).unwrap() {
            Incoming::Acknowledged { was_waiting, .. } => assert!(was_waiting),
            other => panic!("{:?}", other),
        }
    }
    assert_eq!(client.pending_count(), 0);
}
