use crate::mqtt::client::mqtt_client_writer::{
    after_publish, publish_error, publish_to_send, ClientView, MQTTClientWriter,
};
use crate::mqtt::client::mqtt_client_server_connection::read_connack;
use crate::mqtt::messages::connack_message::ConnackMessage;
use crate::mqtt::messages::connect_return_code::ConnectReturnCode;
use crate::mqtt::messages::disconnect_message::DisconnectMessage;
use crate::mqtt::messages::fixed_header::{parse_frame, read_frame};
use crate::mqtt::messages::packet_type::PacketType;
use crate::mqtt::messages::puback_message::PubAckMessage;
use crate::mqtt::messages::publish_message::{PublishMessage, PublishView};
use crate::mqtt::messages::suback_message::{SubAckMessage, SubAckView};
use crate::mqtt::messages::subscribe_message::{filters_view, SubscribeMessage, SubscribeView};
use crate::mqtt::mqtt_error::MqttError;
use crate::mqtt::packet_id::next_packet_id;
use crate::mqtt::retransmitter::{
    all_left, awaits, entries_after_tick, given_up_at, pending_wf, resent_at, without_packet,
    RetransmitConfig, TickOutcome,
};
use crate::views::views;
use vstd::prelude::*;

verus! {

/// What an incoming packet asks of the client's owner.
#[derive(Debug)]
pub enum Incoming {
    /// A message for the application. If `ack` is there, it is to be sent
    /// back to the broker.
    Message { msg: PublishMessage, ack: Option<PubAckMessage> },
    /// The broker acknowledged the publish with this packet id.
    /// `was_waiting` tells whether the client was waiting for it.
    Acknowledged { packet_id: u16, was_waiting: bool },
    /// The broker answered a SUBSCRIBE with `suback`. `answered` tells
    /// whether it is the SUBSCRIBE that was waiting.
    Subscribed { suback: SubAckMessage, answered: bool },
    /// A well-formed packet that a client has no use for.
    Ignored,
}

pub enum IncomingView {
    Message { msg: PublishView, ack: Option<u16> },
    Acknowledged { packet_id: u16, was_waiting: bool },
    Subscribed { suback: SubAckView, answered: bool },
    Ignored,
}

impl View for Incoming {
    type V = IncomingView;

    open spec fn view(&self) -> IncomingView {
        match self {
            Incoming::Message { msg, ack } => IncomingView::Message {
                msg: msg@,
                ack: match ack {
                    Some(puback) => Some(puback.packet_id()),
                    None => None,
                },
            },
            Incoming::Acknowledged { packet_id, was_waiting } => IncomingView::Acknowledged {
                packet_id: *packet_id,
                was_waiting: *was_waiting,
            },
            Incoming::Subscribed { suback, answered } => IncomingView::Subscribed {
                suback: suback@,
                answered: *answered,
            },
            Incoming::Ignored => IncomingView::Ignored,
        }
    }
}

/// What the packet `bytes` asks of a client in the state `client`; nothing
/// if the bytes are no well-formed packet.
pub open spec fn incoming_of(client: ClientView, bytes: Seq<u8>) -> Option<IncomingView> {
    match parse_frame(bytes) {
        None => None,
        Some((PacketType::Publish, _, _)) => match PublishView::decode(bytes) {
            None => None,
            Some(msg) => Some(
                IncomingView::Message {
                    msg,
                    ack: if msg.flags.qos == 1 {
                        msg.packet_id
                    } else {
                        None
                    },
                },
            ),
        },
        Some((PacketType::Puback, _, _)) => match PubAckMessage::decode(bytes) {
            None => None,
            Some(packet_id) => Some(
                IncomingView::Acknowledged {
                    packet_id,
                    was_waiting: awaits(client.pending, packet_id),
                },
            ),
        },
        Some((PacketType::Suback, _, _)) => match SubAckView::decode(bytes) {
            None => None,
            Some(suback) => Some(
                IncomingView::Subscribed {
                    suback,
                    answered: client.awaited_suback == Some(suback.packet_id),
                },
            ),
        },
        Some(_) => Some(IncomingView::Ignored),
    }
}

/// The client after it has taken note of what came in.
pub open spec fn after_incoming(client: ClientView, incoming: IncomingView) -> ClientView {
    match incoming {
        IncomingView::Acknowledged { packet_id, .. } => ClientView {
            pending: without_packet(client.pending, packet_id),
            ..client
        },
        IncomingView::Subscribed { answered, .. } => ClientView {
            awaited_suback: if answered {
                None
            } else {
                client.awaited_suback
            },
            ..client
        },
        _ => client,
    }
}

/// A client of the broker. It decides what to send and what to make of
/// what arrives; moving the bytes is the caller's part.
#[derive(Debug)]
pub struct MQTTClient {
    writer: MQTTClientWriter,
}

impl View for MQTTClient {
    type V = ClientView;

    closed spec fn view(&self) -> ClientView {
        self.writer@
    }
}

impl MQTTClient {
    /// Reads the broker's answer to a CONNECT. An accepted connection gives
    /// a client, ready at the time `now`; anything else is an error.
    pub fn mqtt_connect_to_broker(connack_bytes: &[u8], config: RetransmitConfig, now: u64) -> (r:
        Result<MQTTClient, MqttError>)
        ensures
            match ConnackMessage::decode(connack_bytes@) {
                None => r matches Err(e) && e == MqttError::MalformedPacket,
                Some((_, code)) => if code == ConnectReturnCode::ConnectionAccepted {
                    r matches Ok(client) && client@ == (ClientView {
                        last_packet_id: 0,
                        config,
                        pending: Seq::empty(),
                        clock: now,
                        connected: true,
                        awaited_suback: None,
                    })
                } else {
                    r matches Err(e) && e == MqttError::ConnectionRefused
                },
            },
    {
        match read_connack(connack_bytes) {
            Ok(()) => Ok(MQTTClient { writer: MQTTClientWriter::new(config, now) }),
            Err(e) => Err(e),
        }
    }

    /// Builds the PUBLISH for `payload` on `topic`. With a quality of
    /// service of 1 the message is remembered until it is acknowledged.
    pub fn mqtt_publish(&mut self, topic: &str, payload: &[u8], qos: u8) -> (r: Result<
        PublishMessage,
        MqttError,
    >)
        ensures
            match r {
                Ok(msg) => publish_error(old(self)@, topic@, payload@, qos) is None && msg@
                    == publish_to_send(old(self)@, topic@, payload@, qos) && final(self)@
                    == after_publish(old(self)@, msg@),
                Err(e) => publish_error(old(self)@, topic@, payload@, qos) == Some(e) && final(self)@ == old(self)@,
            },
            pending_wf(final(self)@.pending),
    {
        self.writer.check_well_formed();
        self.writer.mqtt_publish(topic, payload, qos)
    }

    /// Builds the SUBSCRIBE for `topics`, each a topic with the quality of
    /// service asked for, and awaits its SUBACK.
    pub fn mqtt_subscribe(&mut self, topics: Vec<(String, u8)>) -> (r: Result<
        SubscribeMessage,
        MqttError,
    >)
        ensures
            match r {
                Ok(msg) => old(self)@.connected && msg@ == (SubscribeView {
                    packet_id: next_packet_id(old(self)@.last_packet_id),
                    filters: filters_view(topics@),
                }) && final(self)@ == (ClientView {
                    last_packet_id: msg@.packet_id,
                    awaited_suback: Some(msg@.packet_id),
                    ..old(self)@
                }),
                Err(e) => !old(self)@.connected && e == MqttError::NotConnected && final(self)@
                    == old(self)@,
            },
            pending_wf(final(self)@.pending),
    {
        self.writer.check_well_formed();
        self.writer.mqtt_subscribe(topics)
    }

    /// Builds the DISCONNECT and closes the client.
    pub fn mqtt_disconnect(&mut self) -> (r: Result<DisconnectMessage, MqttError>)
        ensures
            match r {
                Ok(_) => old(self)@.connected && final(self)@ == (ClientView {
                    connected: false,
                    pending: Seq::empty(),
                    awaited_suback: None,
                    ..old(self)@
                }),
                Err(e) => !old(self)@.connected && e == MqttError::NotConnected && final(self)@
                    == old(self)@,
            },
            pending_wf(final(self)@.pending),
    {
        self.writer.check_well_formed();
        self.writer.mqtt_disconnect()
    }

    /// Makes sense of one packet from the broker.
    ///
    /// A PUBLISH is handed on, with the PUBACK to send back if its quality
    /// of service is 1; a PUBACK ends the wait for the publish it names; a
    /// SUBACK is handed on and ends the wait of the SUBSCRIBE it answers;
    /// any other packet is ignored.
    pub fn handle_incoming(&mut self, bytes: &[u8]) -> (r: Result<Incoming, MqttError>)
        ensures
            match incoming_of(old(self)@, bytes@) {
                Some(incoming) => r matches Ok(found) && found@ == incoming && final(self)@
                    == after_incoming(old(self)@, incoming),
                None => r matches Err(e) && e == MqttError::MalformedPacket && final(self)@
                    == old(self)@,
            },
            pending_wf(final(self)@.pending),
    {
        self.writer.check_well_formed();
        match read_frame(bytes) {
            None => Err(MqttError::MalformedPacket),
            Some((PacketType::Publish, _, _)) => match PublishMessage::from_bytes(bytes) {
                Err(e) => Err(e),
                Ok(msg) => {
                    let ack: Option<PubAckMessage> = if msg.get_qos() == 1 {
                        match msg.get_packet_id() {
                            Some(id) => Some(PubAckMessage::new(id)),
                            None => None,
                        }
                    } else {
                        None
                    };
                    Ok(Incoming::Message { msg, ack })
                },
            },
            Some((PacketType::Puback, _, _)) => match PubAckMessage::from_bytes(bytes) {
                Err(e) => Err(e),
                Ok(puback) => {
                    let packet_id = puback.get_packet_id();
                    let was_waiting = self.writer.handle_puback(packet_id);
                    Ok(Incoming::Acknowledged { packet_id, was_waiting })
                },
            },
            Some((PacketType::Suback, _, _)) => match SubAckMessage::from_bytes(bytes) {
                Err(e) => Err(e),
                Ok(suback) => {
                    let answered = self.writer.handle_suback(suback.get_packet_id());
                    Ok(Incoming::Subscribed { suback, answered })
                },
            },
            Some(_) => Ok(Incoming::Ignored),
        }
    }

    /// Moves the clock to `now` and tells which publishes to send again and
    /// which are given up.
    pub fn retransmit_due(&mut self, now: u64) -> (outcome: TickOutcome)
        ensures
            final(self)@ == (ClientView {
                clock: now,
                pending: entries_after_tick(old(self)@.pending, now, old(self)@.config),
                ..old(self)@
            }),
            views(outcome.resend@) == resent_at(old(self)@.pending, now, old(self)@.config),
            views(outcome.given_up@) == given_up_at(old(self)@.pending, now, old(self)@.config),
            pending_wf(final(self)@.pending),
            all_left(views(outcome.given_up@), final(self)@.pending),
    {
        self.writer.retransmit_due(now)
    }

    /// States what every client satisfies: each publish that awaits its
    /// acknowledgement carries a packet id, and no two carry the same.
    pub fn check_well_formed(&self)
        ensures
            pending_wf(self@.pending),
    {
        self.writer.check_well_formed();
    }

    pub fn is_connected(&self) -> (connected: bool)
        ensures
            connected == self@.connected,
    {
        self.writer.is_connected()
    }

    /// How many publishes await their acknowledgement.
    pub fn pending_count(&self) -> (n: usize)
        ensures
            n == self@.pending.len(),
    {
        self.writer.pending_count()
    }
}

} // verus!
