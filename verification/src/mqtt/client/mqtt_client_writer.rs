use crate::mqtt::messages::disconnect_message::DisconnectMessage;
use crate::mqtt::messages::publish_flags::PublishFlags;
use crate::mqtt::messages::publish_message::{publish_refusal, PublishMessage, PublishView};
use crate::mqtt::messages::subscribe_message::{filters_view, SubscribeMessage, SubscribeView};
use crate::mqtt::mqtt_error::MqttError;
use crate::mqtt::packet_id::{mint_packet_id, next_packet_id};
use crate::mqtt::retransmitter::{
    all_left, deadline_after, entries_after_tick, given_up_at, lemma_register_keeps_ids_distinct,
    packet_ids_distinct, pending_wf, resent_at, without_packet, PendingView, RetransmitConfig,
    Retransmitter, TickOutcome,
};
use crate::views::views;
use vstd::prelude::*;

verus! {

/// The sending half of a client: it numbers the packets, builds them, and
/// remembers the QoS-1 publishes until they are acknowledged. Writing the
/// bytes to the connection is the caller's part.
#[derive(Debug)]
pub struct MQTTClientWriter {
    available_packet_id: u16,
    retransmitter: Retransmitter,
    clock: u64,
    connected: bool,
    awaited_suback: Option<u16>,
}

/// The sending half of a client as plain values.
pub struct ClientView {
    /// The packet id minted last; 0 before the first.
    pub last_packet_id: u16,
    /// How retransmissions are timed.
    pub config: RetransmitConfig,
    /// The publishes that await their acknowledgement.
    pub pending: Seq<PendingView>,
    /// The time the client was last told.
    pub clock: u64,
    /// Whether the connection is open.
    pub connected: bool,
    /// The packet id of the SUBSCRIBE that awaits its SUBACK, if any.
    pub awaited_suback: Option<u16>,
}

impl View for MQTTClientWriter {
    type V = ClientView;

    closed spec fn view(&self) -> ClientView {
        ClientView {
            last_packet_id: self.available_packet_id,
            config: self.retransmitter@.config,
            pending: self.retransmitter@.pending,
            clock: self.clock,
            connected: self.connected,
            awaited_suback: self.awaited_suback,
        }
    }
}

/// The PUBLISH that a client in the state `client` sends for these
/// arguments.
pub open spec fn publish_to_send(client: ClientView, topic: Seq<char>, payload: Seq<u8>, qos: u8) -> PublishView {
    PublishView {
        flags: PublishFlags { dup: false, qos, retain: false },
        topic,
        packet_id: if qos > 0 {
            Some(next_packet_id(client.last_packet_id))
        } else {
            None
        },
        payload,
    }
}

/// Why a client in the state `client` cannot publish these arguments, if
/// it cannot.
pub open spec fn publish_error(client: ClientView, topic: Seq<char>, payload: Seq<u8>, qos: u8) -> Option<
    MqttError,
> {
    if !client.connected {
        Some(MqttError::NotConnected)
    } else if qos > 1 {
        Some(MqttError::UnsupportedQos)
    } else {
        publish_refusal(publish_to_send(client, topic, payload, qos))
    }
}

/// The client after it has published `msg`: the packet id is used up, and a
/// QoS-1 message awaits its acknowledgement.
pub open spec fn after_publish(client: ClientView, msg: PublishView) -> ClientView {
    ClientView {
        last_packet_id: next_packet_id(client.last_packet_id),
        pending: if msg.flags.qos == 1 {
            without_packet(client.pending, next_packet_id(client.last_packet_id)).push(
                PendingView {
                    msg,
                    deadline: deadline_after(client.clock, client.config.initial_timeout),
                    timeout: client.config.initial_timeout,
                    retries: 0,
                },
            )
        } else {
            client.pending
        },
        ..client
    }
}

/// Publishing keeps the packet ids unique among the publishes that await
/// their acknowledgement.
pub proof fn lemma_publish_keeps_ids_distinct(client: ClientView, msg: PublishView)
    requires
        packet_ids_distinct(client.pending),
        msg.packet_id == Some(next_packet_id(client.last_packet_id)),
    ensures
        packet_ids_distinct(after_publish(client, msg).pending),
{
    if msg.flags.qos == 1 {
        lemma_register_keeps_ids_distinct(
            client.pending,
            PendingView {
                msg,
                deadline: deadline_after(client.clock, client.config.initial_timeout),
                timeout: client.config.initial_timeout,
                retries: 0,
            },
            next_packet_id(client.last_packet_id),
        );
    }
}

impl MQTTClientWriter {
    /// The sending half of a client whose connection has just been
    /// accepted, at the time `now`.
    pub fn new(config: RetransmitConfig, now: u64) -> (writer: MQTTClientWriter)
        ensures
            writer@ == (ClientView {
                last_packet_id: 0,
                config,
                pending: Seq::empty(),
                clock: now,
                connected: true,
                awaited_suback: None,
            }),
    {
        MQTTClientWriter {
            available_packet_id: 0,
            retransmitter: Retransmitter::new(config),
            clock: now,
            connected: true,
            awaited_suback: None,
        }
    }

    /// Builds the PUBLISH for `payload` on `topic`. With a quality of
    /// service of 1 the message is remembered until it is acknowledged.
    pub fn mqtt_publish(&mut self, topic: &str, payload: &[u8], qos: u8) -> (r: Result<
        PublishMessage,
        MqttError,
    >)
        ensures
            match r {
                Ok(msg) => publish_error(old(self)@, topic@, payload@, qos) is None && msg@
                    == publish_to_send(old(self)@, topic@, payload@, qos) && final(self)@
                    == after_publish(old(self)@, msg@),
                Err(e) => publish_error(old(self)@, topic@, payload@, qos) == Some(e) && final(self)@ == old(self)@,
            },
            pending_wf(final(self)@.pending),
    {
        self.retransmitter.check_well_formed();
        if !self.connected {
            return Err(MqttError::NotConnected);
        }
        if qos > 1 {
            return Err(MqttError::UnsupportedQos);
        }
        let packet_id = mint_packet_id(self.available_packet_id);
        let flags = PublishFlags { dup: false, qos, retain: false };
        let msg = match PublishMessage::new(flags, topic, Some(packet_id), payload) {
            Ok(msg) => msg,
            Err(e) => {
                return Err(e);
            },
        };
        self.available_packet_id = packet_id;
        if qos == 1 {
            self.retransmitter.register(msg.duplicate(), self.clock);
        }
        Ok(msg)
    }

    /// Builds the SUBSCRIBE for `topics_to_subscribe`, each a topic with
    /// the quality of service asked for, and awaits its SUBACK.
    pub fn mqtt_subscribe(&mut self, topics_to_subscribe: Vec<(String, u8)>) -> (r: Result<
        SubscribeMessage,
        MqttError,
    >)
        ensures
            match r {
                Ok(msg) => old(self)@.connected && msg@ == (SubscribeView {
                    packet_id: next_packet_id(old(self)@.last_packet_id),
                    filters: filters_view(topics_to_subscribe@),
                }) && final(self)@ == (ClientView {
                    last_packet_id: msg@.packet_id,
                    awaited_suback: Some(msg@.packet_id),
                    ..old(self)@
                }),
                Err(e) => !old(self)@.connected && e == MqttError::NotConnected && final(self)@
                    == old(self)@,
            },
            pending_wf(final(self)@.pending),
    {
        self.retransmitter.check_well_formed();
        if !self.connected {
            return Err(MqttError::NotConnected);
        }
        let packet_id = mint_packet_id(self.available_packet_id);
        self.available_packet_id = packet_id;
        self.awaited_suback = Some(packet_id);
        Ok(SubscribeMessage::new(packet_id, topics_to_subscribe))
    }

    /// Builds the DISCONNECT and closes the client: nothing awaits an
    /// acknowledgement any more.
    pub fn mqtt_disconnect(&mut self) -> (r: Result<DisconnectMessage, MqttError>)
        ensures
            match r {
                Ok(_) => old(self)@.connected && final(self)@ == (ClientView {
                    connected: false,
                    pending: Seq::empty(),
                    awaited_suback: None,
                    ..old(self)@
                }),
                Err(e) => !old(self)@.connected && e == MqttError::NotConnected && final(self)@
                    == old(self)@,
            },
            pending_wf(final(self)@.pending),
    {
        self.retransmitter.check_well_formed();
        if !self.connected {
            return Err(MqttError::NotConnected);
        }
        self.connected = false;
        self.awaited_suback = None;
        let _ = self.retransmitter.drain();
        Ok(DisconnectMessage::new())
    }

    /// Takes note of a PUBACK for the packet id `packet_id`.
    pub fn handle_puback(&mut self, packet_id: u16) -> (was_waiting: bool)
        ensures
            was_waiting == crate::mqtt::retransmitter::awaits(old(self)@.pending, packet_id),
            final(self)@ == (ClientView {
                pending: without_packet(old(self)@.pending, packet_id),
                ..old(self)@
            }),
            pending_wf(final(self)@.pending),
    {
        self.retransmitter.check_well_formed();
        self.retransmitter.acknowledge(packet_id)
    }

    /// Takes note of a SUBACK for the packet id `packet_id`. Tells whether
    /// it answers the SUBSCRIBE that was waiting.
    pub fn handle_suback(&mut self, packet_id: u16) -> (answered: bool)
        ensures
            answered == (old(self)@.awaited_suback == Some(packet_id)),
            final(self)@ == (ClientView {
                awaited_suback: if answered {
                    None
                } else {
                    old(self)@.awaited_suback
                },
                ..old(self)@
            }),
            pending_wf(final(self)@.pending),
    {
        self.retransmitter.check_well_formed();
        match self.awaited_suback {
            Some(awaited) => {
                if awaited == packet_id {
                    self.awaited_suback = None;
                    true
                } else {
                    false
                }
            },
            None => false,
        }
    }

    /// Moves the clock to `now` and tells which publishes to send again and
    /// which are given up.
    pub fn retransmit_due(&mut self, now: u64) -> (outcome: TickOutcome)
        ensures
            final(self)@ == (ClientView {
                clock: now,
                pending: entries_after_tick(old(self)@.pending, now, old(self)@.config),
                ..old(self)@
            }),
            views(outcome.resend@) == resent_at(old(self)@.pending, now, old(self)@.config),
            views(outcome.given_up@) == given_up_at(old(self)@.pending, now, old(self)@.config),
            pending_wf(final(self)@.pending),
            all_left(views(outcome.given_up@), final(self)@.pending),
    {
        self.clock = now;
        self.retransmitter.tick(now)
    }

    /// States what every client satisfies: each publish that awaits its
    /// acknowledgement carries a packet id, and no two carry the same.
    pub fn check_well_formed(&self)
        ensures
            pending_wf(self@.pending),
    {
        self.retransmitter.check_well_formed();
    }

    pub fn is_connected(&self) -> (connected: bool)
        ensures
            connected == self@.connected,
    {
        self.connected
    }

    /// How many publishes await their acknowledgement.
    pub fn pending_count(&self) -> (n: usize)
        ensures
            n == self@.pending.len(),
    {
        self.retransmitter.len()
    }
}

} // verus!
