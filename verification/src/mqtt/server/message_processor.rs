use crate::mqtt::messages::packet_type::PacketType;
use crate::mqtt::messages::puback_message::PubAckMessage;
use crate::mqtt::messages::publish_message::{PublishMessage, PublishView};
use crate::mqtt::messages::suback_message::{SubAckMessage, SubAckView};
use crate::mqtt::messages::subscribe_message::{SubscribeMessage, SubscribeView};
use crate::mqtt::messages::subscribe_return_code::SubscribeReturnCode;
use crate::mqtt::mqtt_error::MqttError;
use crate::mqtt::retransmitter::{awaits, without_packet};
use crate::mqtt::server::mqtt_server::{
    deliveries_for, has_session, latest_for_filters, lemma_session_of, lemma_with_session,
    session_index, Delivery, DeliveryView, MQTTServer, ServerView,
};
use crate::mqtt::server::packet::Packet;
use crate::mqtt::server::session::{
    after_publishing_all, deliveries_of_all, lemma_publishing_keeps_client, return_codes_for,
    with_subscriptions, SessionView,
};
use crate::views::views;
use vstd::prelude::*;

verus! {

/// What a packet from a client led to, and what is to be sent for it.
#[derive(Debug)]
pub enum Processed {
    /// A PUBLISH was taken in. `puback` goes back to the publisher,
    /// `deliveries` go to the subscribers.
    Published { puback: Option<PubAckMessage>, deliveries: Vec<Delivery> },
    /// A SUBSCRIBE was taken in. `suback` goes back to the subscriber,
    /// followed by `latest`, the latest messages of its topics.
    Subscribed { suback: SubAckMessage, latest: Vec<PublishMessage> },
    /// A PUBACK was taken in. `was_waiting` tells whether the broker was
    /// waiting for it.
    Acknowledged { was_waiting: bool },
    /// A packet of a kind that the processor does not handle.
    Unknown,
}

pub enum ProcessedView {
    Published { puback: Option<u16>, deliveries: Seq<DeliveryView> },
    Subscribed { suback: SubAckView, latest: Seq<PublishView> },
    Acknowledged { was_waiting: bool },
    Unknown,
}

impl View for Processed {
    type V = ProcessedView;

    open spec fn view(&self) -> ProcessedView {
        match self {
            Processed::Published { puback, deliveries } => ProcessedView::Published {
                puback: match puback {
                    Some(ack) => Some(ack.packet_id()),
                    None => None,
                },
                deliveries: views(deliveries@),
            },
            Processed::Subscribed { suback, latest } => ProcessedView::Subscribed {
                suback: suback@,
                latest: views(latest@),
            },
            Processed::Acknowledged { was_waiting } => ProcessedView::Acknowledged {
                was_waiting: *was_waiting,
            },
            Processed::Unknown => ProcessedView::Unknown,
        }
    }
}

/// The acknowledgement owed to the client `client_id` for `msg`.
pub open spec fn puback_owed(server: ServerView, client_id: Seq<char>, msg: PublishView) -> Option<
    u16,
> {
    if server.is_online(client_id) && msg.flags.qos == 1 {
        msg.packet_id
    } else {
        None
    }
}

/// The broker after the client `client_id` has subscribed with `sub`, before
/// it is brought up to date.
pub open spec fn after_subscribing(server: ServerView, client_id: Seq<char>, sub: SubscribeView) -> ServerView {
    server.with_session(
        session_index(server.sessions, client_id),
        SessionView {
            subscriptions: with_subscriptions(
                server.session_of(client_id).subscriptions,
                sub.filters,
            ),
            ..server.session_of(client_id)
        },
    )
}

/// The latest messages that a new subscriber is sent.
pub open spec fn catch_up(server: ServerView, client_id: Seq<char>, sub: SubscribeView) -> Seq<
    PublishView,
> {
    let subscribed = after_subscribing(server, client_id, sub);
    deliveries_of_all(
        subscribed.session_of(client_id),
        latest_for_filters(subscribed.retained, sub.filters),
        subscribed.clock,
    )
}

/// The broker after the client `client_id` has subscribed with `sub` and
/// was brought up to date.
pub open spec fn after_subscribe(server: ServerView, client_id: Seq<char>, sub: SubscribeView) -> ServerView {
    let subscribed = after_subscribing(server, client_id, sub);
    subscribed.with_session(
        session_index(subscribed.sessions, client_id),
        after_publishing_all(
            subscribed.session_of(client_id),
            latest_for_filters(subscribed.retained, sub.filters),
            subscribed.clock,
        ),
    )
}

/// The broker after the client `client_id` has acknowledged `packet_id`.
pub open spec fn after_puback(server: ServerView, client_id: Seq<char>, packet_id: u16) -> ServerView {
    if has_session(server.sessions, client_id) {
        server.with_session(
            session_index(server.sessions, client_id),
            SessionView {
                in_flight: without_packet(server.session_of(client_id).in_flight, packet_id),
                ..server.session_of(client_id)
            },
        )
    } else {
        server
    }
}

/// Decodes the packets that clients send and lets the broker act on them.
#[derive(Debug)]
pub struct MessageProcessor {
    mqtt_server: MQTTServer,
}

impl View for MessageProcessor {
    type V = ServerView;

    closed spec fn view(&self) -> ServerView {
        self.mqtt_server@
    }
}

impl MessageProcessor {
    pub fn new(mqtt_server: MQTTServer) -> (processor: Self)
        ensures
            processor@ == mqtt_server@,
    {
        MessageProcessor { mqtt_server }
    }

    /// The broker that the processor works on.
    pub fn get_server(&self) -> (server: &MQTTServer)
        ensures
            server@ == self@,
    {
        &self.mqtt_server
    }

    /// The broker that the processor works on, to act on it directly.
    pub fn get_server_mut(&mut self) -> (server: &mut MQTTServer)
        ensures
            server@ == old(self)@,
            final(self)@ == final(server)@,
    {
        &mut self.mqtt_server
    }

    /// Lets the broker act on one packet.
    pub fn process_packet(&mut self, packet: &Packet) -> (r: Result<Processed, MqttError>)
        ensures
            packet@.message_type == PacketType::Publish ==> Self::publish_handled(
                old(self)@,
                final(self)@,
                packet@.msg_bytes,
                packet@.client_id,
                r,
            ),
            packet@.message_type == PacketType::Subscribe ==> Self::subscribe_handled(
                old(self)@,
                final(self)@,
                packet@.msg_bytes,
                packet@.client_id,
                r,
            ),
            packet@.message_type == PacketType::Puback ==> Self::puback_handled(
                old(self)@,
                final(self)@,
                packet@.msg_bytes,
                packet@.client_id,
                r,
            ),
            packet@.message_type != PacketType::Publish && packet@.message_type
                != PacketType::Subscribe && packet@.message_type != PacketType::Puback ==> final(self)@ == old(self)@ && (r matches Ok(done) && done@ == ProcessedView::Unknown),
    {
        let msg_bytes = packet.get_msg_bytes();
        let client_id = packet.get_username();
        match packet.get_message_type() {
            PacketType::Publish => self.handle_publish(msg_bytes, client_id),
            PacketType::Subscribe => self.handle_subscribe(msg_bytes, client_id),
            PacketType::Puback => self.handle_puback(msg_bytes, client_id),
            _ => Ok(Processed::Unknown),
        }
    }

    /// What `handle_publish` owes for the bytes `bytes` from the client
    /// `client_id`.
    pub open spec fn publish_handled(
        before: ServerView,
        after: ServerView,
        bytes: Seq<u8>,
        client_id: Seq<char>,
        r: Result<Processed, MqttError>,
    ) -> bool {
        match PublishView::decode(bytes) {
            None => r matches Err(e) && e == MqttError::MalformedPacket && after == before,
            Some(msg) => if msg.flags.qos > 1 {
                r matches Err(e) && e == MqttError::UnsupportedQos && after == before
            } else if before.is_duplicate(client_id, msg) {
                r matches Ok(done) && done@ == (ProcessedView::Published {
                    puback: puback_owed(before, client_id, msg),
                    deliveries: Seq::empty(),
                }) && after == before
            } else {
                r matches Ok(done) && done@ == (ProcessedView::Published {
                    puback: puback_owed(before, client_id, msg),
                    deliveries: deliveries_for(before.after_noting(client_id, msg).sessions, msg),
                }) && after == before.after_noting(client_id, msg).after_publish(msg)
            },
        }
    }

    /// Takes in a PUBLISH from the client `client_id`: the publisher is
    /// owed a PUBACK if it asked for one, and the message goes to the
    /// subscribers of its topic. A publish that repeats one taken in
    /// already is acknowledged again and goes nowhere.
    pub fn handle_publish(&mut self, msg_bytes: &[u8], client_id: &str) -> (r: Result<
        Processed,
        MqttError,
    >)
        ensures
            Self::publish_handled(old(self)@, final(self)@, msg_bytes@, client_id@, r),
    {
        let msg = match PublishMessage::from_bytes(msg_bytes) {
            Ok(msg) => msg,
            Err(e) => {
                return Err(e);
            },
        };
        if msg.get_qos() > 1 {
            return Err(MqttError::UnsupportedQos);
        }
        let puback: Option<PubAckMessage> = match self.send_puback_to(client_id, &msg) {
            Ok(ack) => ack,
            Err(_) => None,
        };
        if self.mqtt_server.is_duplicate(client_id, &msg) {
            let deliveries: Vec<Delivery> = Vec::new();
            assert(views(deliveries@) =~= Seq::empty());
            return Ok(Processed::Published { puback, deliveries });
        }
        self.mqtt_server.note_received(client_id, &msg);
        match self.mqtt_server.handle_publish_message(&msg) {
            Ok(deliveries) => Ok(Processed::Published { puback, deliveries }),
            Err(e) => Err(e),
        }
    }

    /// What `handle_subscribe` owes for the bytes `bytes` from the client
    /// `client_id`.
    pub open spec fn subscribe_handled(
        before: ServerView,
        after: ServerView,
        bytes: Seq<u8>,
        client_id: Seq<char>,
        r: Result<Processed, MqttError>,
    ) -> bool {
        match SubscribeView::decode(bytes) {
            None => r matches Err(e) && e == MqttError::MalformedPacket && after == before,
            Some(sub) => if !before.is_online(client_id) {
                r matches Err(e) && e == MqttError::UnknownClient && after == before
            } else {
                r matches Ok(done) && done@ == (ProcessedView::Subscribed {
                    suback: SubAckView {
                        packet_id: sub.packet_id,
                        return_codes: return_codes_for(sub.filters),
                    },
                    latest: catch_up(before, client_id, sub),
                }) && after == after_subscribe(before, client_id, sub)
            },
        }
    }

    /// Takes in a SUBSCRIBE from the client `client_id`: its subscriptions
    /// are recorded, it is owed a SUBACK that tells what was granted, and
    /// then the latest message of each of its topics.
    pub fn handle_subscribe(&mut self, msg_bytes: &[u8], client_id: &str) -> (r: Result<
        Processed,
        MqttError,
    >)
        ensures
            Self::subscribe_handled(old(self)@, final(self)@, msg_bytes@, client_id@, r),
    {
        let msg = match SubscribeMessage::from_bytes(msg_bytes) {
            Ok(msg) => msg,
            Err(e) => {
                return Err(e);
            },
        };
        let return_codes_res = self.mqtt_server.add_topics_to_subscriber(client_id, &msg);
        if return_codes_res.is_err() {
            return Err(MqttError::UnknownClient);
        }
        proof {
            let before = old(self)@;
            lemma_session_of(before, client_id@);
            lemma_with_session(
                before,
                client_id@,
                SessionView {
                    subscriptions: with_subscriptions(
                        before.session_of(client_id@).subscriptions,
                        msg@.filters,
                    ),
                    ..before.session_of(client_id@)
                },
            );
            assert(self@ == after_subscribing(before, client_id@, msg@));
            assert(self@.is_online(client_id@));
        }
        let ghost subscribed = self@;
        let deliveries = match self.mqtt_server.send_preexisting_msgs_to_new_subscriber(
            client_id,
            &msg,
        ) {
            Ok(deliveries) => deliveries,
            Err(e) => {
                return Err(e);
            },
        };
        proof {
            let caught_up = after_publishing_all(
                subscribed.session_of(client_id@),
                latest_for_filters(subscribed.retained, msg@.filters),
                subscribed.clock,
            );
            lemma_session_of(subscribed, client_id@);
            lemma_publishing_keeps_client(
                subscribed.session_of(client_id@),
                latest_for_filters(subscribed.retained, msg@.filters),
                subscribed.clock,
            );
            lemma_with_session(subscribed, client_id@, caught_up);
            assert(self@ == after_subscribe(old(self)@, client_id@, msg@));
            assert(self@.is_online(client_id@));
        }
        let packet_id = msg.get_packet_id();
        match self.send_suback_to(client_id, return_codes_res, packet_id) {
            Ok(suback) => Ok(Processed::Subscribed { suback, latest: deliveries }),
            Err(e) => Err(e),
        }
    }

    /// What `handle_puback` owes for the bytes `bytes` from the client
    /// `client_id`.
    pub open spec fn puback_handled(
        before: ServerView,
        after: ServerView,
        bytes: Seq<u8>,
        client_id: Seq<char>,
        r: Result<Processed, MqttError>,
    ) -> bool {
        match PubAckMessage::decode(bytes) {
            None => r matches Err(e) && e == MqttError::MalformedPacket && after == before,
            Some(packet_id) => r matches Ok(done) && done@ == (ProcessedView::Acknowledged {
                was_waiting: has_session(before.sessions, client_id) && awaits(
                    before.session_of(client_id).in_flight,
                    packet_id,
                ),
            }) && after == after_puback(before, client_id, packet_id),
        }
    }

    /// Takes in a PUBACK from the client `client_id`: the publish it names
    /// awaits its acknowledgement no longer.
    pub fn handle_puback(&mut self, msg_bytes: &[u8], client_id: &str) -> (r: Result<
        Processed,
        MqttError,
    >)
        ensures
            Self::puback_handled(old(self)@, final(self)@, msg_bytes@, client_id@, r),
    {
        match PubAckMessage::from_bytes(msg_bytes) {
            Err(e) => Err(e),
            Ok(puback) => {
                let was_waiting = self.mqtt_server.handle_puback(client_id, puback.get_packet_id());
                Ok(Processed::Acknowledged { was_waiting })
            },
        }
    }

    /// The acknowledgement owed to the client `client_id` for
    /// `publish_msg`: a PUBACK with the same packet id if the message asks
    /// for one, nothing otherwise. A client that is not connected is owed
    /// nothing.
    pub fn send_puback_to(&self, client_id: &str, publish_msg: &PublishMessage) -> (r: Result<
        Option<PubAckMessage>,
        MqttError,
    >)
        ensures
            match r {
                Ok(ack) => self@.is_online(client_id@) && match ack {
                    Some(puback) => publish_msg@.flags.qos == 1 && publish_msg@.packet_id == Some(
                        puback.packet_id(),
                    ),
                    None => publish_msg@.flags.qos != 1 || publish_msg@.packet_id is None,
                },
                Err(e) => !self@.is_online(client_id@) && e == MqttError::UnknownClient,
            },
    {
        self.mqtt_server.send_puback_to(client_id, publish_msg)
    }

    /// The SUBACK owed to the client `client_id` for the SUBSCRIBE with the
    /// packet id `packet_id`, given the answer to its filters.
    pub fn send_suback_to(
        &self,
        client_id: &str,
        return_codes_res: Result<Vec<SubscribeReturnCode>, MqttError>,
        packet_id: u16,
    ) -> (r: Result<SubAckMessage, MqttError>)
        ensures
            match return_codes_res {
                Err(e) => r matches Err(found) && found == e,
                Ok(codes) => if self@.is_online(client_id@) {
                    r matches Ok(suback) && suback@ == (SubAckView {
                        packet_id,
                        return_codes: codes@,
                    })
                } else {
                    r matches Err(found) && found == MqttError::UnknownClient
                },
            },
    {
        self.mqtt_server.send_suback_to(client_id, &return_codes_res, packet_id)
    }
}

} // verus!
