use crate::mqtt::messages::connack_message::ConnackMessage;
use crate::mqtt::messages::connect_message::{
    optional_text_view, ConnectMessage, ConnectView, WillMessage, WillView,
};
use crate::mqtt::messages::connect_return_code::ConnectReturnCode;
use crate::mqtt::messages::puback_message::PubAckMessage;
use crate::mqtt::messages::publish_flags::PublishFlags;
use crate::mqtt::messages::publish_message::{publish_refusal, PublishMessage, PublishView};
use crate::mqtt::messages::suback_message::{SubAckMessage, SubAckView};
use crate::mqtt::messages::subscribe_message::{filters_view, SubscribeMessage};
use crate::mqtt::messages::subscribe_return_code::SubscribeReturnCode;
use crate::mqtt::mqtt_error::MqttError;
use crate::mqtt::retransmitter::{
    awaits, given_up_at, lemma_given_up_is_no_longer_awaited,
    lemma_tick_accounts_for_every_publish, pending_wf, resent_at, without_packet,
    RetransmitConfig, TickOutcome,
};
use crate::mqtt::server::session::{
    after_publishing_all, deliveries_of_all, granted_qos, lemma_publishing_keeps_client,
    return_codes_for, same_text, with_received, with_subscriptions, Session, SessionView,
    BROKER_MAX_QOS,
};
use crate::views::{lemma_take_next, lemma_views_push, views};
use vstd::prelude::*;

verus! {

/// A message on its way to one client.
#[derive(Debug)]
pub struct Delivery {
    pub client_id: String,
    pub msg: PublishMessage,
}

pub struct DeliveryView {
    pub client_id: Seq<char>,
    pub msg: PublishView,
}

impl View for Delivery {
    type V = DeliveryView;

    open spec fn view(&self) -> DeliveryView {
        DeliveryView { client_id: self.client_id@, msg: self.msg@ }
    }
}

/// The broker: every session, the latest message of every topic, and who
/// may connect.
#[derive(Debug)]
pub struct MQTTServer {
    sessions: Vec<Session>,
    retained: Vec<PublishMessage>,
    credentials: Vec<(String, String)>,
    config: RetransmitConfig,
    clock: u64,
}

/// The broker as plain values.
pub struct ServerView {
    pub sessions: Seq<SessionView>,
    /// The latest message published to each topic.
    pub retained: Seq<PublishView>,
    /// The pairs of username and password that may connect.
    pub credentials: Seq<(Seq<char>, Seq<char>)>,
    pub config: RetransmitConfig,
    /// The time the broker was last told.
    pub clock: u64,
}

/// The credentials of a vector of `(username, password)` pairs.
pub open spec fn credentials_view(v: Seq<(String, String)>) -> Seq<(Seq<char>, Seq<char>)> {
    Seq::new(v.len(), |i: int| (v[i].0@, v[i].1@))
}

impl View for MQTTServer {
    type V = ServerView;

    closed spec fn view(&self) -> ServerView {
        ServerView {
            sessions: views(self.sessions@),
            retained: views(self.retained@),
            credentials: credentials_view(self.credentials@),
            config: self.config,
            clock: self.clock,
        }
    }
}

/// Whether the client `id` has a session.
pub open spec fn has_session(sessions: Seq<SessionView>, id: Seq<char>) -> bool {
    exists|i: int| 0 <= i < sessions.len() && (#[trigger] sessions[i]).client_id == id
}

/// Whether `i` is where the first session of the client `id` stands.
pub open spec fn is_session_index(sessions: Seq<SessionView>, id: Seq<char>, i: int) -> bool {
    &&& 0 <= i < sessions.len()
    &&& sessions[i].client_id == id
    &&& forall|j: int| 0 <= j < i ==> (#[trigger] sessions[j]).client_id != id
}

/// Where the session of the client `id` stands.
pub open spec fn session_index(sessions: Seq<SessionView>, id: Seq<char>) -> int {
    choose|i: int| is_session_index(sessions, id, i)
}

/// The index of a client's session is the only one that meets its
/// description.
pub proof fn lemma_session_index(sessions: Seq<SessionView>, id: Seq<char>, i: int)
    requires
        is_session_index(sessions, id, i),
    ensures
        session_index(sessions, id) == i,
        has_session(sessions, id),
{
    let k = session_index(sessions, id);
    assert(is_session_index(sessions, id, k));
    if k < i {
        assert(sessions[k].client_id != id);
    }
    if i < k {
        assert(sessions[i].client_id != id);
    }
}

/// Replacing a client's session by one of the same client leaves every
/// client's session where it stood.
pub proof fn lemma_session_kept(sessions: Seq<SessionView>, id: Seq<char>, session: SessionView)
    requires
        has_session(sessions, id),
        session.client_id == id,
    ensures
        has_session(sessions.update(session_index(sessions, id), session), id),
        session_index(sessions.update(session_index(sessions, id), session), id) == session_index(
            sessions,
            id,
        ),
{
    let i = session_index(sessions, id);
    let w = choose|w: int| 0 <= w < sessions.len() && (#[trigger] sessions[w]).client_id == id;
    lemma_first_session(sessions, id, w);
    assert(is_session_index(sessions, id, i));
    let after = sessions.update(i, session);
    assert(is_session_index(after, id, i)) by {
        assert forall|j: int| 0 <= j < i implies (#[trigger] after[j]).client_id != id by {
            assert(after[j] == sessions[j]);
        }
    }
    lemma_session_index(after, id, i);
}

/// Replacing a client's session by one of the same client gives a broker in
/// which that client has the new session, at the same place.
pub proof fn lemma_with_session(server: ServerView, id: Seq<char>, session: SessionView)
    requires
        has_session(server.sessions, id),
        session.client_id == id,
    ensures
        0 <= session_index(server.sessions, id) < server.sessions.len(),
        server.session_of(id).client_id == id,
        has_session(server.with_session(session_index(server.sessions, id), session).sessions, id),
        session_index(
            server.with_session(session_index(server.sessions, id), session).sessions,
            id,
        ) == session_index(server.sessions, id),
        server.with_session(session_index(server.sessions, id), session).session_of(id) == session,
        server.with_session(session_index(server.sessions, id), session).is_online(id)
            == session.online,
{
    let w = choose|w: int|
        0 <= w < server.sessions.len() && (#[trigger] server.sessions[w]).client_id == id;
    lemma_first_session(server.sessions, id, w);
    assert(is_session_index(server.sessions, id, session_index(server.sessions, id)));
    lemma_session_kept(server.sessions, id, session);
}

/// The session of a client that has one is a session of that client.
pub proof fn lemma_session_of(server: ServerView, id: Seq<char>)
    requires
        has_session(server.sessions, id),
    ensures
        is_session_index(server.sessions, id, session_index(server.sessions, id)),
        server.session_of(id).client_id == id,
{
    let w = choose|w: int|
        0 <= w < server.sessions.len() && (#[trigger] server.sessions[w]).client_id == id;
    lemma_first_session(server.sessions, id, w);
}

/// A client that has a session has a first one.
pub proof fn lemma_first_session(sessions: Seq<SessionView>, id: Seq<char>, w: int)
    requires
        0 <= w < sessions.len(),
        sessions[w].client_id == id,
    ensures
        exists|i: int| is_session_index(sessions, id, i),
    decreases w,
{
    if exists|j: int| 0 <= j < w && (#[trigger] sessions[j]).client_id == id {
        let j = choose|j: int| 0 <= j < w && (#[trigger] sessions[j]).client_id == id;
        lemma_first_session(sessions, id, j);
    } else {
        assert(is_session_index(sessions, id, w));
    }
}

/// No two sessions are of the same client.
pub open spec fn clients_distinct(sessions: Seq<SessionView>) -> bool {
    forall|i: int, j: int|
        0 <= i < sessions.len() && 0 <= j < sessions.len() && i != j ==> (
        #[trigger] sessions[i]).client_id != (#[trigger] sessions[j]).client_id
}

/// The retained messages of other topics than `topic`, in their order.
pub open spec fn without_retained(retained: Seq<PublishView>, topic: Seq<char>) -> Seq<PublishView>
    decreases retained.len(),
{
    if retained.len() == 0 {
        Seq::empty()
    } else if retained.last().topic == topic {
        without_retained(retained.drop_last(), topic)
    } else {
        without_retained(retained.drop_last(), topic).push(retained.last())
    }
}

/// The latest message published to `topic`, if there is one.
pub open spec fn retained_for(retained: Seq<PublishView>, topic: Seq<char>) -> Option<PublishView>
    decreases retained.len(),
{
    if retained.len() == 0 {
        None
    } else if retained.last().topic == topic {
        Some(retained.last())
    } else {
        retained_for(retained.drop_last(), topic)
    }
}

/// The retained messages after `msg` was published: it is the latest of
/// its topic.
pub open spec fn retained_after(retained: Seq<PublishView>, msg: PublishView) -> Seq<PublishView> {
    without_retained(retained, msg.topic).push(msg)
}

/// Once a message was published, it is the latest of its topic, and the
/// latest of every other topic is what it was.
pub proof fn lemma_latest_is_last_published(
    retained: Seq<PublishView>,
    msg: PublishView,
    topic: Seq<char>,
)
    ensures
        retained_for(retained_after(retained, msg), msg.topic) == Some(msg),
        topic != msg.topic ==> retained_for(retained_after(retained, msg), topic) == retained_for(
            retained,
            topic,
        ),
{
    let kept = without_retained(retained, msg.topic);
    assert(kept.push(msg).drop_last() =~= kept);
    if topic != msg.topic {
        lemma_without_retained(retained, msg.topic, topic);
    }
}

/// Taking out the messages of one topic leaves the latest of every other
/// topic what it was.
pub proof fn lemma_without_retained(retained: Seq<PublishView>, gone: Seq<char>, topic: Seq<char>)
    requires
        topic != gone,
    ensures
        retained_for(without_retained(retained, gone), topic) == retained_for(retained, topic),
    decreases retained.len(),
{
    if retained.len() > 0 {
        lemma_without_retained(retained.drop_last(), gone, topic);
        let kept = without_retained(retained.drop_last(), gone);
        if retained.last().topic != gone {
            assert(kept.push(retained.last()).drop_last() =~= kept);
        }
    }
}

/// Every session after `msg` was published at the time `now`.
pub open spec fn sessions_after_publish(sessions: Seq<SessionView>, msg: PublishView, now: u64) -> Seq<
    SessionView,
> {
    Seq::new(sessions.len(), |i: int| sessions[i].after_publish(msg, now))
}

/// What is sent when `msg` is published: to each connected subscriber, in
/// the order of the sessions, the message as that subscriber gets it.
pub open spec fn deliveries_for(sessions: Seq<SessionView>, msg: PublishView) -> Seq<DeliveryView>
    decreases sessions.len(),
{
    if sessions.len() == 0 {
        Seq::empty()
    } else {
        let rest = deliveries_for(sessions.drop_last(), msg);
        match sessions.last().delivery_of(msg) {
            Some(sent) => rest.push(
                DeliveryView { client_id: sessions.last().client_id, msg: sent },
            ),
            None => rest,
        }
    }
}

/// The latest messages of the topics of `filters`, in the order of the
/// filters; a topic without message contributes none.
pub open spec fn latest_for_filters(retained: Seq<PublishView>, filters: Seq<(Seq<char>, u8)>) -> Seq<
    PublishView,
>
    decreases filters.len(),
{
    if filters.len() == 0 {
        Seq::empty()
    } else {
        let rest = latest_for_filters(retained, filters.drop_last());
        match retained_for(retained, filters.last().0) {
            Some(msg) => rest.push(msg),
            None => rest,
        }
    }
}

/// The will of a client as the message the broker publishes for it, at
/// the quality of service the broker grants.
pub open spec fn will_publish(will: WillView) -> PublishView {
    PublishView {
        flags: PublishFlags { dup: false, qos: granted_qos(will.qos), retain: will.retain },
        topic: will.topic,
        packet_id: if granted_qos(will.qos) > 0 {
            Some(1u16)
        } else {
            None
        },
        payload: will.message,
    }
}

/// The messages `msgs`, each on its way to the client `client_id`.
pub open spec fn addressed_to(client_id: Seq<char>, msgs: Seq<PublishView>) -> Seq<DeliveryView> {
    Seq::new(msgs.len(), |i: int| DeliveryView { client_id, msg: msgs[i] })
}

/// What one session's client is sent again once the clock has reached
/// `now`.
pub open spec fn session_resends(session: SessionView, now: u64) -> Seq<PublishView> {
    if session.online {
        resent_at(session.in_flight, now, session.config)
    } else {
        Seq::empty()
    }
}

/// What is given up for one session's client once the clock has reached
/// `now`.
pub open spec fn session_given_up(session: SessionView, now: u64) -> Seq<PublishView> {
    if session.online {
        given_up_at(session.in_flight, now, session.config)
    } else {
        Seq::empty()
    }
}

/// What is sent again once the clock has reached `now`, session by
/// session.
pub open spec fn resends_for(sessions: Seq<SessionView>, now: u64) -> Seq<DeliveryView>
    decreases sessions.len(),
{
    if sessions.len() == 0 {
        Seq::empty()
    } else {
        resends_for(sessions.drop_last(), now) + addressed_to(
            sessions.last().client_id,
            session_resends(sessions.last(), now),
        )
    }
}

/// What is given up once the clock has reached `now`, session by session.
pub open spec fn given_up_for(sessions: Seq<SessionView>, now: u64) -> Seq<DeliveryView>
    decreases sessions.len(),
{
    if sessions.len() == 0 {
        Seq::empty()
    } else {
        given_up_for(sessions.drop_last(), now) + addressed_to(
            sessions.last().client_id,
            session_given_up(sessions.last(), now),
        )
    }
}

/// The sessions after every client was disconnected as if it had sent a
/// DISCONNECT: persistent sessions stay, offline; the others are
/// forgotten.
pub open spec fn sessions_after_shutdown(sessions: Seq<SessionView>) -> Seq<SessionView>
    decreases sessions.len(),
{
    if sessions.len() == 0 {
        Seq::empty()
    } else {
        let rest = sessions_after_shutdown(sessions.drop_last());
        let last = sessions.last();
        if !last.online {
            rest.push(last)
        } else if last.persistent {
            rest.push(last.after_going_offline())
        } else {
            rest
        }
    }
}

/// What the broker answers to a CONNECT and what follows from it.
#[derive(Debug)]
pub struct ConnectOutcome {
    /// The CONNACK to send.
    pub connack: ConnackMessage,
    /// Whether the client was connected already: that older connection is
    /// to be closed.
    pub close_previous: bool,
    /// What had been waiting for the client, to be sent after the CONNACK.
    pub deliveries: Vec<PublishMessage>,
}

/// What moving the broker's clock on asks of the caller.
#[derive(Debug)]
pub struct ServerTick {
    /// Messages to send again.
    pub resend: Vec<Delivery>,
    /// Messages given up, each with the client that never acknowledged
    /// it: to be reported.
    pub given_up: Vec<Delivery>,
}

impl ServerView {
    /// Whether the broker lets in the client that sent `msg`: it names a
    /// username and a password that the broker knows as a pair.
    pub open spec fn accepts(self, msg: ConnectView) -> bool {
        msg.username matches Some(name) && msg.password matches Some(word)
            && self.credentials.contains((name, word))
    }

    /// Whether the CONNECT `msg` takes up an earlier session: it does not
    /// ask for a clean one, and the broker has kept one for the client.
    pub open spec fn restores(self, msg: ConnectView) -> bool {
        !msg.clean_session && has_session(self.sessions, msg.client_id) && self.session_of(
            msg.client_id,
        ).persistent
    }

    /// The session of a client that starts afresh with the CONNECT `msg`.
    pub open spec fn fresh_session(self, msg: ConnectView) -> SessionView {
        SessionView {
            client_id: msg.client_id,
            persistent: !msg.clean_session,
            online: true,
            subscriptions: Seq::empty(),
            pending: Seq::empty(),
            config: self.config,
            in_flight: Seq::empty(),
            will: msg.will,
            last_packet_id: 0,
            received: Seq::empty(),
        }
    }

    /// The session of the client once the CONNECT `msg` is accepted.
    pub open spec fn session_on_connect(self, msg: ConnectView) -> SessionView {
        if self.restores(msg) {
            self.session_of(msg.client_id).after_resuming(msg.will, self.clock)
        } else {
            self.fresh_session(msg)
        }
    }

    /// The broker after the CONNECT `msg`.
    pub open spec fn after_connect(self, msg: ConnectView) -> ServerView {
        if !self.accepts(msg) {
            self
        } else if has_session(self.sessions, msg.client_id) {
            self.with_session(
                session_index(self.sessions, msg.client_id),
                self.session_on_connect(msg),
            )
        } else {
            ServerView { sessions: self.sessions.push(self.session_on_connect(msg)), ..self }
        }
    }

    /// What is sent, after the CONNACK, to the client that sent `msg`.
    pub open spec fn deliveries_on_connect(self, msg: ConnectView) -> Seq<PublishView> {
        if self.accepts(msg) && self.restores(msg) {
            deliveries_of_all(
                self.session_of(msg.client_id).reopened(msg.will),
                self.session_of(msg.client_id).backlog(),
                self.clock,
            )
        } else {
            Seq::empty()
        }
    }

    /// The broker once the connection of the client `id` is gone: a
    /// persistent session stays, offline; any other is forgotten.
    pub open spec fn without_connection(self, id: Seq<char>) -> ServerView {
        let i = session_index(self.sessions, id);
        ServerView {
            sessions: if self.sessions[i].persistent {
                self.sessions.update(i, self.sessions[i].after_going_offline())
            } else {
                self.sessions.remove(i)
            },
            ..self
        }
    }

    /// The will that the broker publishes when the connection of the
    /// client `id` ends: none after a DISCONNECT, and none if the client
    /// left none.
    pub open spec fn will_to_publish(self, id: Seq<char>, graceful: bool) -> Option<PublishView> {
        if graceful {
            None
        } else {
            match self.session_of(id).will {
                Some(will) => if publish_refusal(will_publish(will)) is None {
                    Some(will_publish(will))
                } else {
                    None
                },
                None => None,
            }
        }
    }

    /// The broker after the connection of the client `id` has ended.
    pub open spec fn after_disconnect(self, id: Seq<char>, graceful: bool) -> ServerView {
        if !self.is_online(id) {
            self
        } else {
            match self.will_to_publish(id, graceful) {
                Some(msg) => self.without_connection(id).after_publish(msg),
                None => self.without_connection(id),
            }
        }
    }

    /// What is sent when the connection of the client `id` has ended: its
    /// will, to the subscribers of the will's topic.
    pub open spec fn deliveries_on_disconnect(self, id: Seq<char>, graceful: bool) -> Seq<
        DeliveryView,
    > {
        if !self.is_online(id) {
            Seq::empty()
        } else {
            match self.will_to_publish(id, graceful) {
                Some(msg) => deliveries_for(self.without_connection(id).sessions, msg),
                None => Seq::empty(),
            }
        }
    }

    /// The broker after the clock has reached `now`.
    pub open spec fn after_tick(self, now: u64) -> ServerView {
        ServerView {
            sessions: Seq::new(self.sessions.len(), |i: int| self.sessions[i].after_tick(now)),
            clock: now,
            ..self
        }
    }

    /// Whether `msg`, sent by the client `id`, repeats a publish that the
    /// broker has taken in already: it is marked as a repeated delivery and
    /// carries the packet id of a QoS-1 publish taken in from that client
    /// not long ago.
    pub open spec fn is_duplicate(self, id: Seq<char>, msg: PublishView) -> bool {
        &&& has_session(self.sessions, id)
        &&& msg.flags.dup
        &&& msg.flags.qos == 1
        &&& msg.packet_id matches Some(packet_id) && self.session_of(id).received.contains(
            packet_id,
        )
    }

    /// The broker after it has recorded that it took in `msg` from the
    /// client `id`. Only QoS-1 publishes of clients with a session are
    /// recorded.
    pub open spec fn after_noting(self, id: Seq<char>, msg: PublishView) -> ServerView {
        match msg.packet_id {
            Some(packet_id) => if has_session(self.sessions, id) && msg.flags.qos == 1 {
                self.with_session(
                    session_index(self.sessions, id),
                    SessionView {
                        received: with_received(self.session_of(id).received, packet_id),
                        ..self.session_of(id)
                    },
                )
            } else {
                self
            },
            None => self,
        }
    }

    /// The broker with the session at `i` replaced by `session`.
    pub open spec fn with_session(self, i: int, session: SessionView) -> ServerView {
        ServerView { sessions: self.sessions.update(i, session), ..self }
    }

    /// The session of the client `id`.
    pub open spec fn session_of(self, id: Seq<char>) -> SessionView {
        self.sessions[session_index(self.sessions, id)]
    }

    /// The broker after `msg` was published.
    pub open spec fn after_publish(self, msg: PublishView) -> ServerView {
        ServerView {
            sessions: sessions_after_publish(self.sessions, msg, self.clock),
            retained: retained_after(self.retained, msg),
            ..self
        }
    }

    /// Whether the client `id` is connected.
    pub open spec fn is_online(self, id: Seq<char>) -> bool {
        has_session(self.sessions, id) && self.sessions[session_index(self.sessions, id)].online
    }
}

/// The broker accounts for every QoS-1 publish that a connected
/// subscriber has not acknowledged: when the clock moves on, the publish
/// either goes on waiting for its acknowledgement, under the same packet
/// id, or is reported as given up, with the subscriber's name.
pub proof fn lemma_broker_accounts_for_every_publish(
    sessions: Seq<SessionView>,
    now: u64,
    i: int,
    k: int,
)
    requires
        0 <= i < sessions.len(),
        sessions[i].online,
        0 <= k < sessions[i].in_flight.len(),
    ensures
        ({
            let session = sessions[i];
            let entry = session.in_flight[k];
            &&& entry.is_exhausted(now, session.config) ==> given_up_for(sessions, now).contains(
                DeliveryView { client_id: session.client_id, msg: entry.msg },
            )
            &&& !entry.is_exhausted(now, session.config) ==> session.after_tick(
                now,
            ).in_flight.contains(entry.after_tick(now, session.config))
            &&& entry.after_tick(now, session.config).msg.packet_id == entry.msg.packet_id
        }),
    decreases sessions.len(),
{
    let session = sessions[i];
    let entry = session.in_flight[k];
    lemma_tick_accounts_for_every_publish(session.in_flight, now, session.config, k);
    if entry.is_exhausted(now, session.config) {
        let wanted = DeliveryView { client_id: session.client_id, msg: entry.msg };
        let head = sessions.drop_last();
        let tail = addressed_to(sessions.last().client_id, session_given_up(sessions.last(), now));
        let rest = given_up_for(head, now);
        if i < sessions.len() - 1 {
            assert(head[i] == sessions[i]);
            lemma_broker_accounts_for_every_publish(head, now, i, k);
            let w = choose|w: int| 0 <= w < rest.len() && rest[w] == wanted;
            assert((rest + tail)[w] == wanted);
        } else {
            let given_up = given_up_at(session.in_flight, now, session.config);
            let w = choose|w: int| 0 <= w < given_up.len() && given_up[w] == entry.msg;
            assert(tail[w] == wanted);
            assert((rest + tail)[rest.len() + w] == wanted);
        }
    }
}

/// What the broker gives up for a connected subscriber, that subscriber
/// owes no longer: once the clock has moved on, no publish that the
/// subscriber has not acknowledged carries the packet id of one given up.
pub proof fn lemma_broker_given_up_is_no_longer_awaited(
    sessions: Seq<SessionView>,
    now: u64,
    i: int,
    k: int,
)
    requires
        0 <= i < sessions.len(),
        sessions[i].online,
        pending_wf(sessions[i].in_flight),
        0 <= k < sessions[i].in_flight.len(),
        sessions[i].in_flight[k].is_exhausted(now, sessions[i].config),
    ensures
        given_up_for(sessions, now).contains(
            DeliveryView { client_id: sessions[i].client_id, msg: sessions[i].in_flight[k].msg },
        ),
        sessions[i].in_flight[k].msg.packet_id matches Some(id) && !awaits(
            sessions[i].after_tick(now).in_flight,
            id,
        ),
{
    lemma_broker_accounts_for_every_publish(sessions, now, i, k);
    lemma_given_up_is_no_longer_awaited(sessions[i].in_flight, now, sessions[i].config, k);
}

/// Whether in every session each publish that the client has not yet
/// acknowledged carries a packet id, and no two carry the same.
pub open spec fn sessions_wf(sessions: Seq<SessionView>) -> bool {
    forall|i: int| 0 <= i < sessions.len() ==> pending_wf((#[trigger] sessions[i]).in_flight)
}

/// Publishing and moving the clock on leave every session with its
/// client: one session per client stays one session per client.
pub proof fn lemma_publish_keeps_clients_distinct(server: ServerView, msg: PublishView, now: u64)
    requires
        clients_distinct(server.sessions),
    ensures
        clients_distinct(server.after_publish(msg).sessions),
        clients_distinct(server.after_tick(now).sessions),
{
    let after = server.after_publish(msg).sessions;
    assert forall|i: int, j: int| 0 <= i < after.len() && 0 <= j < after.len() && i != j implies (
    #[trigger] after[i]).client_id != (#[trigger] after[j]).client_id by {
        assert(after[i].client_id == server.sessions[i].client_id);
        assert(after[j].client_id == server.sessions[j].client_id);
    }
    let ticked = server.after_tick(now).sessions;
    assert forall|i: int, j: int|
        0 <= i < ticked.len() && 0 <= j < ticked.len() && i != j implies (
    #[trigger] ticked[i]).client_id != (#[trigger] ticked[j]).client_id by {
        assert(ticked[i].client_id == server.sessions[i].client_id);
        assert(ticked[j].client_id == server.sessions[j].client_id);
    }
}

/// Answering a CONNECT leaves one session per client: the client takes
/// over its session if it has one, and gets a new one only if it has
/// none.
pub proof fn lemma_connect_keeps_clients_distinct(server: ServerView, msg: ConnectView)
    requires
        clients_distinct(server.sessions),
    ensures
        clients_distinct(server.after_connect(msg).sessions),
        server.accepts(msg) ==> has_session(server.after_connect(msg).sessions, msg.client_id)
            && server.after_connect(msg).is_online(msg.client_id),
{
    if server.accepts(msg) {
        let session = server.session_on_connect(msg);
        let after = server.after_connect(msg).sessions;
        if has_session(server.sessions, msg.client_id) {
            lemma_session_of(server, msg.client_id);
            let old_session = server.session_of(msg.client_id);
            lemma_publishing_keeps_client(
                old_session.reopened(msg.will),
                old_session.backlog(),
                server.clock,
            );
            assert(session.client_id == msg.client_id);
            assert(session.online);
            lemma_with_session(server, msg.client_id, session);
            assert forall|i: int, j: int|
                0 <= i < after.len() && 0 <= j < after.len() && i != j implies (
            #[trigger] after[i]).client_id != (#[trigger] after[j]).client_id by {
                assert(after[i].client_id == server.sessions[i].client_id);
                assert(after[j].client_id == server.sessions[j].client_id);
            }
        } else {
            let n = server.sessions.len() as int;
            assert(after[n] == session);
            assert forall|i: int, j: int|
                0 <= i < after.len() && 0 <= j < after.len() && i != j implies (
            #[trigger] after[i]).client_id != (#[trigger] after[j]).client_id by {
                if i < n && j < n {
                    assert(after[i] == server.sessions[i] && after[j] == server.sessions[j]);
                } else if i < n {
                    assert(after[i] == server.sessions[i]);
                } else {
                    assert(after[j] == server.sessions[j]);
                }
            }
            assert(is_session_index(after, msg.client_id, n)) by {
                assert forall|j: int| 0 <= j < n implies (#[trigger] after[j]).client_id
                    != msg.client_id by {
                    assert(after[j] == server.sessions[j]);
                }
            }
            lemma_session_index(after, msg.client_id, n);
        }
    }
}

/// The end of a connection leaves one session per client.
pub proof fn lemma_disconnect_keeps_clients_distinct(
    server: ServerView,
    id: Seq<char>,
    graceful: bool,
)
    requires
        clients_distinct(server.sessions),
    ensures
        clients_distinct(server.after_disconnect(id, graceful).sessions),
        !server.after_disconnect(id, graceful).is_online(id),
{
    if server.is_online(id) {
        lemma_session_of(server, id);
        let at = session_index(server.sessions, id);
        let gone = server.without_connection(id);
        assert(clients_distinct(gone.sessions) && !gone.is_online(id)) by {
            if server.sessions[at].persistent {
                lemma_with_session(server, id, server.sessions[at].after_going_offline());
                assert forall|i: int, j: int|
                    0 <= i < gone.sessions.len() && 0 <= j < gone.sessions.len() && i
                        != j implies (#[trigger] gone.sessions[i]).client_id != (
                #[trigger] gone.sessions[j]).client_id by {
                    assert(gone.sessions[i].client_id == server.sessions[i].client_id);
                    assert(gone.sessions[j].client_id == server.sessions[j].client_id);
                }
            } else {
                server.sessions.remove_ensures(at);
                let origin = |k: int|
                    if k < at {
                        k
                    } else {
                        k + 1
                    };
                assert forall|k: int| 0 <= k < gone.sessions.len() implies (
                #[trigger] gone.sessions[k]) == server.sessions[origin(k)] && origin(k) != at by {}
                assert forall|i: int, j: int|
                    0 <= i < gone.sessions.len() && 0 <= j < gone.sessions.len() && i
                        != j implies (#[trigger] gone.sessions[i]).client_id != (
                #[trigger] gone.sessions[j]).client_id by {
                    assert(server.sessions[origin(i)].client_id != server.sessions[origin(
                        j,
                    )].client_id);
                }
                assert(!has_session(gone.sessions, id)) by {
                    if has_session(gone.sessions, id) {
                        let k = choose|k: int|
                            0 <= k < gone.sessions.len() && (#[trigger] gone.sessions[k]).client_id
                                == id;
                        assert(server.sessions[origin(k)].client_id
                            != server.sessions[at].client_id);
                    }
                }
            }
        }
        match server.will_to_publish(id, graceful) {
            Some(msg) => {
                lemma_publish_keeps_clients_distinct(gone, msg, gone.clock);
                let after = gone.after_publish(msg);
                if has_session(gone.sessions, id) {
                    lemma_session_of(gone, id);
                    let k = session_index(gone.sessions, id);
                    assert(is_session_index(after.sessions, id, k)) by {
                        assert forall|j: int| 0 <= j < k implies (
                        #[trigger] after.sessions[j]).client_id != id by {
                            assert(after.sessions[j].client_id == gone.sessions[j].client_id);
                        }
                    }
                    lemma_session_index(after.sessions, id, k);
                } else {
                    if has_session(after.sessions, id) {
                        let k = choose|k: int|
                            0 <= k < after.sessions.len() && (
                            #[trigger] after.sessions[k]).client_id == id;
                        assert(gone.sessions[k].client_id == id);
                    }
                }
            },
            None => {},
        }
    }
}

impl MQTTServer {
    /// A broker without sessions, at the time `now`, that lets in the given
    /// pairs of username and password.
    pub fn new(credentials: Vec<(String, String)>, config: RetransmitConfig, now: u64) -> (server:
        MQTTServer)
        ensures
            server@ == (ServerView {
                sessions: Seq::empty(),
                retained: Seq::empty(),
                credentials: credentials_view(credentials@),
                config,
                clock: now,
            }),
    {
        let server = MQTTServer {
            sessions: Vec::new(),
            retained: Vec::new(),
            credentials,
            config,
            clock: now,
        };
        assert(server@.sessions =~= Seq::empty());
        assert(server@.retained =~= Seq::empty());
        server
    }

    /// Tells the broker the time.
    pub fn set_clock(&mut self, now: u64)
        ensures
            final(self)@ == (ServerView { clock: now, ..old(self)@ }),
    {
        self.clock = now;
    }

    /// States what every broker satisfies: in every session, each publish
    /// that the client has not yet acknowledged carries a packet id, and
    /// no two carry the same.
    pub fn check_well_formed(&self)
        ensures
            sessions_wf(self@.sessions),
    {
        let mut i: usize = 0;
        while i < self.sessions.len()
            invariant
                i <= self.sessions@.len(),
                forall|k: int| 0 <= k < i ==> pending_wf((#[trigger] self@.sessions[k]).in_flight),
            decreases self.sessions@.len() - i,
        {
            assert(self@.sessions[i as int] == self.sessions@[i as int]@);
            self.sessions[i].check_well_formed();
            i = i + 1;
        }
    }

    /// How many sessions the broker keeps.
    pub fn session_count(&self) -> (n: usize)
        ensures
            n == self@.sessions.len(),
    {
        self.sessions.len()
    }

    /// Where the session of the client `client_id` stands, if it has one.
    fn find_session(&self, client_id: &str) -> (r: Option<usize>)
        ensures
            match r {
                Some(i) => has_session(self@.sessions, client_id@) && i == session_index(
                    self@.sessions,
                    client_id@,
                ) && i < self@.sessions.len() && self@.sessions[i as int].client_id == client_id@,
                None => !has_session(self@.sessions, client_id@),
            },
    {
        let mut i: usize = 0;
        while i < self.sessions.len()
            invariant
                i <= self.sessions@.len(),
                forall|j: int| 0 <= j < i ==> (#[trigger] self@.sessions[j]).client_id != client_id@,
            decreases self.sessions@.len() - i,
        {
            assert(self@.sessions[i as int] == self.sessions@[i as int]@);
            if same_text(self.sessions[i].get_client_id(), client_id) {
                proof {
                    lemma_session_index(self@.sessions, client_id@, i as int);
                }
                return Some(i);
            }
            i = i + 1;
        }
        None
    }

    /// The session of the client `client_id`, if it has one.
    pub fn get_session(&self, client_id: &str) -> (r: Option<&Session>)
        ensures
            match r {
                Some(session) => has_session(self@.sessions, client_id@) && session@
                    == self@.sessions[session_index(self@.sessions, client_id@)],
                None => !has_session(self@.sessions, client_id@),
            },
    {
        match self.find_session(client_id) {
            Some(i) => {
                assert(self@.sessions[i as int] == self.sessions@[i as int]@);
                Some(&self.sessions[i])
            },
            None => None,
        }
    }

    /// Whether the client `client_id` is connected.
    pub fn is_connected(&self, client_id: &str) -> (online: bool)
        ensures
            online == self@.is_online(client_id@),
    {
        match self.get_session(client_id) {
            Some(session) => session.is_online(),
            None => false,
        }
    }

    /// Whether `msg`, sent by the client `client_id`, repeats a publish
    /// that the broker has taken in already.
    pub fn is_duplicate(&self, client_id: &str, msg: &PublishMessage) -> (b: bool)
        ensures
            b == self@.is_duplicate(client_id@, msg@),
    {
        if !msg.get_flags().dup || msg.get_qos() != 1 {
            return false;
        }
        match msg.get_packet_id() {
            None => false,
            Some(packet_id) => match self.get_session(client_id) {
                Some(session) => session.has_received(packet_id),
                None => false,
            },
        }
    }

    /// Records that the broker took in `msg` from the client `client_id`.
    pub fn note_received(&mut self, client_id: &str, msg: &PublishMessage)
        ensures
            final(self)@ == old(self)@.after_noting(client_id@, msg@),
    {
        if msg.get_qos() != 1 {
            return ;
        }
        let packet_id: u16 = match msg.get_packet_id() {
            Some(packet_id) => packet_id,
            None => {
                return ;
            },
        };
        match self.find_session(client_id) {
            None => {},
            Some(i) => {
                let ghost before = self@.sessions;
                assert(before[i as int] == self.sessions@[i as int]@);
                self.sessions[i].note_received(packet_id);
                assert(self@.sessions =~= before.update(i as int, self.sessions@[i as int]@));
            },
        }
    }

    /// Makes `msg` the latest message of its topic.
    fn retain(&mut self, msg: &PublishMessage)
        ensures
            final(self)@ == (ServerView {
                retained: retained_after(old(self)@.retained, msg@),
                ..old(self)@
            }),
    {
        let mut source: Vec<PublishMessage> = Vec::new();
        std::mem::swap(&mut self.retained, &mut source);
        let ghost before = views(source@);
        let mut kept: Vec<PublishMessage> = Vec::new();
        assert(views(kept@) =~= without_retained(before.take(0), msg@.topic));
        for entry in it: source
            invariant
                it.seq() == source@,
                before == views(source@),
                views(kept@) == without_retained(before.take(it.index() as int), msg@.topic),
        {
            proof {
                lemma_take_next(before, it.index() as int);
                lemma_views_push(kept@, entry);
                assert(before[it.index() as int] == entry@);
            }
            if !same_text(entry.get_topic(), msg.get_topic()) {
                kept.push(entry);
            }
        }
        assert(before.take(before.len() as int) =~= before);
        let copy = msg.duplicate();
        proof {
            lemma_views_push(kept@, copy);
        }
        kept.push(copy);
        self.retained = kept;
    }

    /// The latest message published to `topic`, if there is one.
    pub fn latest_of(&self, topic: &str) -> (r: Option<&PublishMessage>)
        ensures
            match retained_for(self@.retained, topic@) {
                Some(v) => r matches Some(msg) && msg@ == v,
                None => r is None,
            },
    {
        let ghost retained = self@.retained;
        let mut i: usize = self.retained.len();
        assert(retained.take(i as int) =~= retained);
        while i > 0
            invariant
                i <= self.retained@.len(),
                retained == views(self.retained@),
                retained_for(retained, topic@) == retained_for(retained.take(i as int), topic@),
            decreases i,
        {
            i = i - 1;
            proof {
                lemma_take_next(retained, i as int);
            }
            if same_text(self.retained[i].get_topic(), topic) {
                return Some(&self.retained[i]);
            }
        }
        assert(retained.take(0) =~= Seq::empty());
        None
    }

    /// Takes in a message that a client published: it becomes the latest of
    /// its topic, every connected subscriber is sent it, and it is queued
    /// for every subscriber that is away and whose session is persistent.
    /// What is to be sent comes back. A quality of service of 2 is not
    /// supported.
    pub fn handle_publish_message(&mut self, msg: &PublishMessage) -> (r: Result<
        Vec<Delivery>,
        MqttError,
    >)
        ensures
            match r {
                Ok(sent) => msg@.flags.qos <= 1 && final(self)@ == old(self)@.after_publish(msg@)
                    && views(sent@) == deliveries_for(old(self)@.sessions, msg@),
                Err(e) => msg@.flags.qos > 1 && e == MqttError::UnsupportedQos && final(self)@
                    == old(self)@,
            },
    {
        if msg.get_qos() > 1 {
            return Err(MqttError::UnsupportedQos);
        }
        self.retain(msg);
        let now = self.clock;
        let ghost before = old(self)@.sessions;
        let mut sent: Vec<Delivery> = Vec::new();
        let mut i: usize = 0;
        assert(before.take(0) =~= Seq::empty());
        assert(views(sent@) =~= deliveries_for(before.take(0), msg@));
        while i < self.sessions.len()
            invariant
                i <= self.sessions@.len(),
                before == old(self)@.sessions,
                self.sessions@.len() == before.len(),
                forall|k: int| 0 <= k < i ==> (#[trigger] self.sessions@[k])@ == before[k].after_publish(
                    msg@,
                    now,
                ),
                forall|k: int| i <= k < before.len() ==> (#[trigger] self.sessions@[k])@ == before[k],
                views(sent@) == deliveries_for(before.take(i as int), msg@),
                self@ == (ServerView { sessions: self@.sessions, ..old(self)@.after_publish(msg@) }),
                now == old(self)@.clock,
            decreases self.sessions@.len() - i,
        {
            proof {
                lemma_take_next(before, i as int);
            }
            let ghost session = self.sessions@[i as int]@;
            assert(session == before[i as int]);
            match self.sessions[i].route(msg, now) {
                Some(out) => {
                    let delivery = Delivery {
                        client_id: self.sessions[i].get_client_id().to_owned(),
                        msg: out,
                    };
                    proof {
                        lemma_views_push(sent@, delivery);
                        assert(self.sessions@[i as int]@.client_id == session.client_id);
                    }
                    sent.push(delivery);
                },
                None => {},
            }
            i = i + 1;
        }
        assert(before.take(before.len() as int) =~= before);
        assert(self@.sessions =~= sessions_after_publish(before, msg@, now));
        Ok(sent)
    }

    /// The acknowledgement owed to the client `client_id` for `publish_msg`:
    /// a PUBACK with the same packet id if the message asks for one, nothing
    /// otherwise. A client that is not connected is owed nothing.
    pub fn send_puback_to(&self, client_id: &str, publish_msg: &PublishMessage) -> (r: Result<
        Option<PubAckMessage>,
        MqttError,
    >)
        ensures
            match r {
                Ok(ack) => self@.is_online(client_id@) && match ack {
                    Some(puback) => publish_msg@.flags.qos == 1 && publish_msg@.packet_id == Some(
                        puback.packet_id(),
                    ),
                    None => publish_msg@.flags.qos != 1 || publish_msg@.packet_id is None,
                },
                Err(e) => !self@.is_online(client_id@) && e == MqttError::UnknownClient,
            },
    {
        if !self.is_connected(client_id) {
            return Err(MqttError::UnknownClient);
        }
        if publish_msg.get_qos() == 1 {
            match publish_msg.get_packet_id() {
                Some(id) => Ok(Some(PubAckMessage::new(id))),
                None => Ok(None),
            }
        } else {
            Ok(None)
        }
    }

    /// Takes note of a PUBACK from the client `client_id` for the packet id
    /// `packet_id`: the publish it names awaits its acknowledgement no
    /// longer. Tells whether the client was owing it.
    pub fn handle_puback(&mut self, client_id: &str, packet_id: u16) -> (was_waiting: bool)
        ensures
            !has_session(old(self)@.sessions, client_id@) ==> !was_waiting && final(self)@ == old(self)@,
            has_session(old(self)@.sessions, client_id@) ==> {
                let i = session_index(old(self)@.sessions, client_id@);
                let session = old(self)@.sessions[i];
                &&& was_waiting == awaits(session.in_flight, packet_id)
                &&& final(self)@ == (ServerView {
                    sessions: old(self)@.sessions.update(
                        i,
                        SessionView {
                            in_flight: without_packet(session.in_flight, packet_id),
                            ..session
                        },
                    ),
                    ..old(self)@
                })
            },
    {
        match self.find_session(client_id) {
            None => false,
            Some(i) => {
                let ghost before = self@.sessions;
                assert(before[i as int] == self.sessions@[i as int]@);
                let was_waiting = self.sessions[i].acknowledge(packet_id);
                assert(self@.sessions =~= before.update(i as int, self.sessions@[i as int]@));
                was_waiting
            },
        }
    }

    /// Subscribes the client `client_id` to the topics of `msg`, each
    /// replacing any subscription to the same topic, and tells what is
    /// granted for each. Only a connected client can subscribe.
    pub fn add_topics_to_subscriber(&mut self, client_id: &str, msg: &SubscribeMessage) -> (r:
        Result<Vec<SubscribeReturnCode>, MqttError>)
        ensures
            match r {
                Ok(codes) => old(self)@.is_online(client_id@) && codes@ == return_codes_for(
                    msg@.filters,
                ) && final(self)@ == old(self)@.with_session(
                    session_index(old(self)@.sessions, client_id@),
                    SessionView {
                        subscriptions: with_subscriptions(
                            old(self)@.session_of(client_id@).subscriptions,
                            msg@.filters,
                        ),
                        ..old(self)@.session_of(client_id@)
                    },
                ),
                Err(e) => !old(self)@.is_online(client_id@) && e == MqttError::UnknownClient
                    && final(self)@ == old(self)@,
            },
    {
        let i: usize = match self.find_session(client_id) {
            Some(i) => i,
            None => {
                return Err(MqttError::UnknownClient);
            },
        };
        assert(self@.sessions[i as int] == self.sessions@[i as int]@);
        if !self.sessions[i].is_online() {
            return Err(MqttError::UnknownClient);
        }
        let ghost before = self@.sessions;
        let ghost session = before[i as int];
        let ghost filters = msg@.filters;
        let asked = msg.get_topic_filters();
        let mut codes: Vec<SubscribeReturnCode> = Vec::new();
        let mut k: usize = 0;
        assert(filters.take(0) =~= Seq::empty());
        while k < asked.len()
            invariant
                k <= filters.len(),
                filters == msg@.filters,
                filters == filters_view(asked@),
                i < before.len(),
                self.sessions@.len() == before.len(),
                session == before[i as int],
                forall|j: int| 0 <= j < before.len() && j != i ==> (#[trigger] self.sessions@[j])@
                    == before[j],
                self.sessions@[i as int]@ == (SessionView {
                    subscriptions: with_subscriptions(
                        session.subscriptions,
                        filters.take(k as int),
                    ),
                    ..session
                }),
                codes@ == return_codes_for(filters).take(k as int),
                self@ == (ServerView { sessions: self@.sessions, ..old(self)@ }),
            decreases filters.len() - k,
        {
            proof {
                lemma_take_next(filters, k as int);
                lemma_take_next(return_codes_for(filters), k as int);
            }
            assert(filters[k as int] == (asked@[k as int].0@, asked@[k as int].1));
            let code = self.sessions[i].subscribe_to(asked[k].0.as_str(), asked[k].1);
            codes.push(code);
            k = k + 1;
        }
        assert(filters.take(filters.len() as int) =~= filters);
        assert(return_codes_for(filters).take(filters.len() as int) =~= return_codes_for(filters));
        assert(self@.sessions =~= before.update(i as int, self.sessions@[i as int]@));
        Ok(codes)
    }

    /// Brings a new subscriber up to date: for each topic of `msg`, in
    /// turn, the latest message published to it, if there is one, is sent
    /// to the client `client_id` as any message published to a topic it is
    /// subscribed to. What is to be sent comes back.
    pub fn send_preexisting_msgs_to_new_subscriber(
        &mut self,
        client_id: &str,
        msg: &SubscribeMessage,
    ) -> (r: Result<Vec<PublishMessage>, MqttError>)
        ensures
            match r {
                Ok(sent) => old(self)@.is_online(client_id@) && views(sent@) == deliveries_of_all(
                    old(self)@.session_of(client_id@),
                    latest_for_filters(old(self)@.retained, msg@.filters),
                    old(self)@.clock,
                ) && final(self)@ == old(self)@.with_session(
                    session_index(old(self)@.sessions, client_id@),
                    after_publishing_all(
                        old(self)@.session_of(client_id@),
                        latest_for_filters(old(self)@.retained, msg@.filters),
                        old(self)@.clock,
                    ),
                ),
                Err(e) => !old(self)@.is_online(client_id@) && e == MqttError::UnknownClient
                    && final(self)@ == old(self)@,
            },
    {
        let i: usize = match self.find_session(client_id) {
            Some(i) => i,
            None => {
                return Err(MqttError::UnknownClient);
            },
        };
        assert(self@.sessions[i as int] == self.sessions@[i as int]@);
        if !self.sessions[i].is_online() {
            return Err(MqttError::UnknownClient);
        }
        let now = self.clock;
        let ghost before = self@.sessions;
        let ghost session = before[i as int];
        let ghost filters = msg@.filters;
        let ghost retained = self@.retained;
        let asked = msg.get_topic_filters();
        let mut sent: Vec<PublishMessage> = Vec::new();
        let mut k: usize = 0;
        assert(filters.take(0) =~= Seq::empty());
        assert(views(sent@) =~= Seq::empty());
        while k < asked.len()
            invariant
                k <= filters.len(),
                filters == msg@.filters,
                filters == filters_view(asked@),
                i < before.len(),
                self.sessions@.len() == before.len(),
                session == before[i as int],
                retained == self@.retained,
                now == self@.clock,
                forall|j: int| 0 <= j < before.len() && j != i ==> (#[trigger] self.sessions@[j])@
                    == before[j],
                self.sessions@[i as int]@ == after_publishing_all(
                    session,
                    latest_for_filters(retained, filters.take(k as int)),
                    now,
                ),
                views(sent@) == deliveries_of_all(
                    session,
                    latest_for_filters(retained, filters.take(k as int)),
                    now,
                ),
                self@ == (ServerView { sessions: self@.sessions, ..old(self)@ }),
            decreases filters.len() - k,
        {
            proof {
                lemma_take_next(filters, k as int);
            }
            let ghost so_far = latest_for_filters(retained, filters.take(k as int));
            assert(filters[k as int] == (asked@[k as int].0@, asked@[k as int].1));
            let latest: Option<PublishMessage> = match self.latest_of(asked[k].0.as_str()) {
                Some(found) => Some(found.duplicate()),
                None => None,
            };
            match latest {
                Some(found) => {
                    proof {
                        assert(so_far.push(found@).drop_last() =~= so_far);
                    }
                    match self.sessions[i].route(&found, now) {
                        Some(out) => {
                            proof {
                                lemma_views_push(sent@, out);
                            }
                            sent.push(out);
                        },
                        None => {},
                    }
                },
                None => {},
            }
            k = k + 1;
        }
        assert(filters.take(filters.len() as int) =~= filters);
        assert(self@.sessions =~= before.update(i as int, self.sessions@[i as int]@));
        Ok(sent)
    }

    /// The SUBACK owed to the client `client_id` for the SUBSCRIBE with the
    /// packet id `packet_id`, given the answer to its filters. A failed
    /// subscription and a client that is not connected are owed none.
    pub fn send_suback_to(
        &self,
        client_id: &str,
        return_codes_res: &Result<Vec<SubscribeReturnCode>, MqttError>,
        packet_id: u16,
    ) -> (r: Result<SubAckMessage, MqttError>)
        ensures
            match *return_codes_res {
                Err(e) => r matches Err(found) && found == e,
                Ok(codes) => if self@.is_online(client_id@) {
                    r matches Ok(suback) && suback@ == (SubAckView {
                        packet_id,
                        return_codes: codes@,
                    })
                } else {
                    r matches Err(found) && found == MqttError::UnknownClient
                },
            },
    {
        match return_codes_res {
            Err(e) => Err(*e),
            Ok(codes) => {
                if !self.is_connected(client_id) {
                    return Err(MqttError::UnknownClient);
                }
                let mut copy: Vec<SubscribeReturnCode> = Vec::new();
                let mut k: usize = 0;
                while k < codes.len()
                    invariant
                        k <= codes@.len(),
                        copy@ == codes@.take(k as int),
                    decreases codes@.len() - k,
                {
                    copy.push(codes[k]);
                    k = k + 1;
                    assert(copy@ =~= codes@.take(k as int));
                }
                assert(codes@.take(k as int) =~= codes@);
                Ok(SubAckMessage::new(packet_id, copy))
            },
        }
    }

    /// Whether the broker knows `username` and `password` as a pair.
    fn knows(&self, username: &Option<String>, password: &Option<String>) -> (known: bool)
        ensures
            known == (optional_text_view(*username) matches Some(name) && optional_text_view(
                *password,
            ) matches Some(word) && self@.credentials.contains((name, word))),
    {
        let name: &String = match username {
            Some(name) => name,
            None => {
                return false;
            },
        };
        let word: &String = match password {
            Some(word) => word,
            None => {
                return false;
            },
        };
        let mut i: usize = 0;
        while i < self.credentials.len()
            invariant
                i <= self.credentials@.len(),
                optional_text_view(*username) == Some(name@),
                optional_text_view(*password) == Some(word@),
                forall|j: int| 0 <= j < i ==> (#[trigger] self@.credentials[j]) != (name@, word@),
            decreases self.credentials@.len() - i,
        {
            assert(self@.credentials[i as int] == (
                self.credentials@[i as int].0@,
                self.credentials@[i as int].1@,
            ));
            if same_text(self.credentials[i].0.as_str(), name.as_str()) && same_text(
                self.credentials[i].1.as_str(),
                word.as_str(),
            ) {
                assert(self@.credentials[i as int] == (name@, word@));
                return true;
            }
            i = i + 1;
        }
        false
    }

    /// Answers a CONNECT.
    ///
    /// A client whose username and password the broker does not know as a
    /// pair is refused and nothing changes. Otherwise the client gets its
    /// session: the one kept for it, with what had been waiting for it, if
    /// it does not ask for a clean one and there is one; a new one if not.
    pub fn connect(&mut self, msg: &ConnectMessage) -> (outcome: ConnectOutcome)
        ensures
            final(self)@ == old(self)@.after_connect(msg@),
            outcome.connack.return_code() == if old(self)@.accepts(msg@) {
                ConnectReturnCode::ConnectionAccepted
            } else {
                ConnectReturnCode::BadUsernameOrPassword
            },
            outcome.connack.session_present() == (old(self)@.accepts(msg@) && old(self)@.restores(
                msg@,
            )),
            outcome.close_previous == (old(self)@.accepts(msg@) && old(self)@.is_online(
                msg@.client_id,
            )),
            views(outcome.deliveries@) == old(self)@.deliveries_on_connect(msg@),
    {
        if !self.knows(msg.get_username(), msg.get_password()) {
            let outcome = ConnectOutcome {
                connack: ConnackMessage::new(false, ConnectReturnCode::BadUsernameOrPassword),
                close_previous: false,
                deliveries: Vec::new(),
            };
            assert(views(outcome.deliveries@) =~= Seq::empty());
            return outcome;
        }
        let will: Option<WillMessage> = match msg.get_will() {
            Some(w) => Some(w.duplicate()),
            None => None,
        };
        let ghost before = self@.sessions;
        match self.find_session(msg.get_client_id()) {
            Some(i) => {
                assert(before[i as int] == self.sessions@[i as int]@);
                let was_online = self.sessions[i].is_online();
                if !msg.is_clean_session() && self.sessions[i].is_persistent() {
                    let now = self.clock;
                    let deliveries = self.sessions[i].resume(will, now);
                    assert(self@.sessions =~= before.update(i as int, self.sessions@[i as int]@));
                    ConnectOutcome {
                        connack: ConnackMessage::new(true, ConnectReturnCode::ConnectionAccepted),
                        close_previous: was_online,
                        deliveries,
                    }
                } else {
                    let session = Session::new(
                        msg.get_client_id().to_owned(),
                        !msg.is_clean_session(),
                        will,
                        self.config,
                    );
                    self.sessions[i] = session;
                    assert(self@.sessions =~= before.update(i as int, self.sessions@[i as int]@));
                    let outcome = ConnectOutcome {
                        connack: ConnackMessage::new(false, ConnectReturnCode::ConnectionAccepted),
                        close_previous: was_online,
                        deliveries: Vec::new(),
                    };
                    assert(views(outcome.deliveries@) =~= Seq::empty());
                    outcome
                }
            },
            None => {
                let session = Session::new(
                    msg.get_client_id().to_owned(),
                    !msg.is_clean_session(),
                    will,
                    self.config,
                );
                proof {
                    lemma_views_push(self.sessions@, session);
                }
                self.sessions.push(session);
                let outcome = ConnectOutcome {
                    connack: ConnackMessage::new(false, ConnectReturnCode::ConnectionAccepted),
                    close_previous: false,
                    deliveries: Vec::new(),
                };
                assert(views(outcome.deliveries@) =~= Seq::empty());
                outcome
            },
        }
    }

    /// The message that the broker publishes for the will `will`, if it
    /// can be built.
    fn will_message(will: &WillMessage) -> (r: Option<PublishMessage>)
        ensures
            match r {
                Some(msg) => publish_refusal(will_publish(will@)) is None && msg@ == will_publish(
                    will@,
                ),
                None => publish_refusal(will_publish(will@)) is Some,
            },
    {
        let qos: u8 = if will.qos < BROKER_MAX_QOS {
            will.qos
        } else {
            BROKER_MAX_QOS
        };
        let flags = PublishFlags { dup: false, qos, retain: will.retain };
        match PublishMessage::new(flags, will.topic.as_str(), Some(1), will.message.as_slice()) {
            Ok(msg) => Some(msg),
            Err(_) => None,
        }
    }

    /// Takes note that the connection of the client `client_id` has ended:
    /// with a DISCONNECT if `graceful`, by an error otherwise.
    ///
    /// The session goes offline, or is forgotten if it is not persistent.
    /// After an error the client's will is published as any message; what
    /// is to be sent for it comes back. A client that is not connected
    /// changes nothing.
    pub fn disconnect(&mut self, client_id: &str, graceful: bool) -> (sent: Vec<Delivery>)
        ensures
            final(self)@ == old(self)@.after_disconnect(client_id@, graceful),
            views(sent@) == old(self)@.deliveries_on_disconnect(client_id@, graceful),
    {
        let i: usize = match self.find_session(client_id) {
            Some(i) => i,
            None => {
                let sent: Vec<Delivery> = Vec::new();
                assert(views(sent@) =~= Seq::empty());
                return sent;
            },
        };
        let ghost before = self@.sessions;
        assert(before[i as int] == self.sessions@[i as int]@);
        if !self.sessions[i].is_online() {
            let sent: Vec<Delivery> = Vec::new();
            assert(views(sent@) =~= Seq::empty());
            return sent;
        }
        let will: Option<PublishMessage> = if graceful {
            None
        } else {
            match self.sessions[i].get_will() {
                Some(w) => Self::will_message(w),
                None => None,
            }
        };
        if self.sessions[i].is_persistent() {
            self.sessions[i].go_offline();
            assert(self@.sessions =~= before.update(i as int, self.sessions@[i as int]@));
        } else {
            let _ = self.sessions.remove(i);
            assert(self@.sessions =~= before.remove(i as int));
        }
        assert(self@ == old(self)@.without_connection(client_id@));
        match will {
            Some(msg) => match self.handle_publish_message(&msg) {
                Ok(sent) => sent,
                Err(_) => Vec::new(),
            },
            None => {
                let sent: Vec<Delivery> = Vec::new();
                assert(views(sent@) =~= Seq::empty());
                sent
            },
        }
    }

    /// Shuts the broker down in good order: every connected client is
    /// disconnected as if it had sent a DISCONNECT, so no will is
    /// published.
    pub fn shutdown(&mut self)
        ensures
            final(self)@ == (ServerView {
                sessions: sessions_after_shutdown(old(self)@.sessions),
                ..old(self)@
            }),
    {
        let mut source: Vec<Session> = Vec::new();
        std::mem::swap(&mut self.sessions, &mut source);
        let ghost before = views(source@);
        let mut kept: Vec<Session> = Vec::new();
        assert(before.take(0) =~= Seq::empty());
        assert(views(kept@) =~= sessions_after_shutdown(before.take(0)));
        for session in it: source
            invariant
                it.seq() == source@,
                before == views(source@),
                views(kept@) == sessions_after_shutdown(before.take(it.index() as int)),
        {
            proof {
                lemma_take_next(before, it.index() as int);
                assert(before[it.index() as int] == session@);
            }
            let mut session = session;
            if !session.is_online() {
                proof {
                    lemma_views_push(kept@, session);
                }
                kept.push(session);
            } else if session.is_persistent() {
                session.go_offline();
                proof {
                    lemma_views_push(kept@, session);
                }
                kept.push(session);
            }
        }
        assert(before.take(before.len() as int) =~= before);
        self.sessions = kept;
    }

    /// Hands `msgs` over to `out`, each addressed to the client
    /// `client_id`.
    fn address(out: &mut Vec<Delivery>, client_id: &str, msgs: Vec<PublishMessage>)
        ensures
            views(final(out)@) == views(old(out)@) + addressed_to(client_id@, views(msgs@)),
    {
        let ghost base = views(out@);
        let ghost all = views(msgs@);
        assert(base + addressed_to(client_id@, all.take(0)) =~= base);
        for msg in it: msgs
            invariant
                it.seq() == msgs@,
                all == views(msgs@),
                views(out@) == base + addressed_to(client_id@, all.take(it.index() as int)),
        {
            let delivery = Delivery { client_id: client_id.to_owned(), msg };
            proof {
                lemma_views_push(out@, delivery);
                lemma_take_next(all, it.index() as int);
                assert(all[it.index() as int] == delivery@.msg);
                assert((base + addressed_to(client_id@, all.take(it.index() as int))).push(
                    delivery@,
                ) =~= base + addressed_to(client_id@, all.take(it.index() + 1)));
            }
            out.push(delivery);
        }
        assert(all.take(all.len() as int) =~= all);
    }

    /// Moves the clock to `now`. Every connected client is sent again what
    /// it has not acknowledged in time; what was sent again as often as
    /// allowed is given up and reported.
    pub fn retransmit_due(&mut self, now: u64) -> (tick: ServerTick)
        ensures
            final(self)@ == old(self)@.after_tick(now),
            views(tick.resend@) == resends_for(old(self)@.sessions, now),
            views(tick.given_up@) == given_up_for(old(self)@.sessions, now),
            sessions_wf(old(self)@.sessions),
            sessions_wf(final(self)@.sessions),
    {
        self.check_well_formed();
        self.clock = now;
        let ghost before = old(self)@.sessions;
        let mut resend: Vec<Delivery> = Vec::new();
        let mut given_up: Vec<Delivery> = Vec::new();
        let mut i: usize = 0;
        assert(before.take(0) =~= Seq::empty());
        assert(views(resend@) =~= resends_for(before.take(0), now));
        assert(views(given_up@) =~= given_up_for(before.take(0), now));
        while i < self.sessions.len()
            invariant
                i <= self.sessions@.len(),
                before == old(self)@.sessions,
                self.sessions@.len() == before.len(),
                forall|k: int| 0 <= k < i ==> (#[trigger] self.sessions@[k])@ == before[k].after_tick(
                    now,
                ),
                forall|k: int| i <= k < before.len() ==> (#[trigger] self.sessions@[k])@ == before[k],
                views(resend@) == resends_for(before.take(i as int), now),
                views(given_up@) == given_up_for(before.take(i as int), now),
                self@ == (ServerView { sessions: self@.sessions, clock: now, ..old(self)@ }),
            decreases self.sessions@.len() - i,
        {
            proof {
                lemma_take_next(before, i as int);
            }
            let ghost session = self.sessions@[i as int]@;
            assert(session == before[i as int]);
            let outcome = self.sessions[i].tick(now);
            let TickOutcome { resend: again, given_up: dropped } = outcome;
            assert(self.sessions@[i as int]@.client_id == session.client_id);
            Self::address(&mut resend, self.sessions[i].get_client_id(), again);
            Self::address(&mut given_up, self.sessions[i].get_client_id(), dropped);
            i = i + 1;
        }
        assert(before.take(before.len() as int) =~= before);
        assert(self@.sessions =~= Seq::new(before.len(), |k: int| before[k].after_tick(now)));
        self.check_well_formed();
        ServerTick { resend, given_up }
    }
}

} // verus!
