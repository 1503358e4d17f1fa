use crate::apps::apps_mqtt_topics::AppsMqttTopics;
use crate::mqtt::messages::connack_message::ConnackMessage;
use crate::mqtt::messages::connect_message::{
    connect_refusal, optional_text_view, ConnectMessage, ConnectView, WillMessage, WillView,
};
use crate::mqtt::messages::connect_return_code::ConnectReturnCode;
use crate::mqtt::mqtt_error::MqttError;
use crate::mqtt::mqtt_utils::will_message_utils::will_content::WillContent;
use vstd::prelude::*;

verus! {

/// The seconds without traffic after which a broker may take a client of
/// this library for dead.
pub const KEEP_ALIVE_SECONDS: u16 = 60;

/// The CONNECT of an agent that starts a clean session and leaves the will
/// `will_msg_content` on the topic `will_topic`.
pub open spec fn agent_connect(
    client_id: Seq<char>,
    will_msg_content: WillContent,
    will_topic: AppsMqttTopics,
    will_qos: u8,
    username: Option<Seq<char>>,
    password: Option<Seq<char>>,
) -> ConnectView {
    ConnectView {
        client_id,
        clean_session: true,
        keep_alive: KEEP_ALIVE_SECONDS,
        will: Some(
            WillView {
                topic: will_topic.name(),
                message: will_msg_content.encode(),
                qos: will_qos,
                retain: false,
            },
        ),
        username,
        password,
    }
}

/// Builds the CONNECT with which an agent opens its connection: a clean
/// session, with a will that tells which application died.
pub fn connect_message(
    client_id: &str,
    will_msg_content: WillContent,
    will_topic: AppsMqttTopics,
    will_qos: u8,
    username: Option<String>,
    password: Option<String>,
) -> (r: Result<ConnectMessage, MqttError>)
    ensures
        ({
            let v = agent_connect(
                client_id@,
                will_msg_content,
                will_topic,
                will_qos,
                optional_text_view(username),
                optional_text_view(password),
            );
            match r {
                Ok(msg) => connect_refusal(v) is None && msg@ == v,
                Err(e) => connect_refusal(v) == Some(e),
            }
        }),
{
    let will = WillMessage::new(
        will_topic.to_str().to_owned(),
        will_msg_content.to_bytes(),
        will_qos,
        false,
    );
    ConnectMessage::new(
        client_id.to_owned(),
        true,
        KEEP_ALIVE_SECONDS,
        Some(will),
        username,
        password,
    )
}

/// Reads the broker's answer to a CONNECT and tells whether the connection
/// was accepted.
pub fn read_connack(connack_bytes: &[u8]) -> (r: Result<(), MqttError>)
    ensures
        match ConnackMessage::decode(connack_bytes@) {
            None => r == Err::<(), MqttError>(MqttError::MalformedPacket),
            Some((_, code)) => if code == ConnectReturnCode::ConnectionAccepted {
                r is Ok
            } else {
                r == Err::<(), MqttError>(MqttError::ConnectionRefused)
            },
        },
{
    match ConnackMessage::from_bytes(connack_bytes) {
        Err(e) => Err(e),
        Ok(connack) => {
            if connack.get_connect_return_code() == ConnectReturnCode::ConnectionAccepted {
                Ok(())
            } else {
                Err(MqttError::ConnectionRefused)
            }
        },
    }
}

} // verus!
