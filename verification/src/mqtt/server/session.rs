use crate::mqtt::messages::connect_message::{optional_will_view, WillMessage, WillView};
use crate::mqtt::messages::publish_message::{PublishMessage, PublishView};
use crate::mqtt::messages::subscribe_return_code::SubscribeReturnCode;
use crate::mqtt::packet_id::{
    lemma_nth_packet_id, mint_packet_id, next_packet_id, nth_packet_id,
};
use crate::mqtt::retransmitter::{
    all_left, awaits, deadline_after, entries_after_tick, given_up_at,
    lemma_register_keeps_ids_distinct, messages_of, packet_ids_distinct, pending_wf, resent_at,
    without_packet, PendingView, RetransmitConfig, Retransmitter, TickOutcome,
};
use crate::views::{lemma_take_next, lemma_views_push, views};
use vstd::prelude::*;

verus! {

/// The highest quality of service the broker grants.
pub const BROKER_MAX_QOS: u8 = 1;

/// What the broker keeps for one client: its subscriptions, the messages
/// that wait for it while it is away, the publishes it has not yet
/// acknowledged, and its will.
#[derive(Debug)]
pub struct Session {
    client_id: String,
    persistent: bool,
    online: bool,
    subscriptions: Vec<(String, u8)>,
    pending: Vec<PublishMessage>,
    in_flight: Retransmitter,
    will: Option<WillMessage>,
    last_packet_id: u16,
    received: Vec<u16>,
}

/// A session as plain values.
pub struct SessionView {
    pub client_id: Seq<char>,
    /// Whether the session outlives the connection.
    pub persistent: bool,
    /// Whether the client is connected.
    pub online: bool,
    /// Topic and granted quality of service of each subscription.
    pub subscriptions: Seq<(Seq<char>, u8)>,
    /// Messages that wait for the client to come back.
    pub pending: Seq<PublishView>,
    pub config: RetransmitConfig,
    /// Publishes sent to the client that it has not yet acknowledged.
    pub in_flight: Seq<PendingView>,
    pub will: Option<WillView>,
    /// The packet id minted last for this client; 0 before the first.
    pub last_packet_id: u16,
    /// The packet ids of the QoS-1 publishes taken in from this client not
    /// long ago.
    pub received: Seq<u16>,
}

/// The subscriptions of a vector of `(topic, qos)` pairs.
pub open spec fn subscriptions_view(v: Seq<(String, u8)>) -> Seq<(Seq<char>, u8)> {
    Seq::new(v.len(), |i: int| (v[i].0@, v[i].1))
}

impl View for Session {
    type V = SessionView;

    closed spec fn view(&self) -> SessionView {
        SessionView {
            client_id: self.client_id@,
            persistent: self.persistent,
            online: self.online,
            subscriptions: subscriptions_view(self.subscriptions@),
            pending: views(self.pending@),
            config: self.in_flight@.config,
            in_flight: self.in_flight@.pending,
            will: optional_will_view(self.will),
            last_packet_id: self.last_packet_id,
            received: self.received@,
        }
    }
}

/// The quality of service granted for `topic`, if it is subscribed. Where a
/// topic stands more than once, the latest entry counts.
pub open spec fn subscription_qos(subs: Seq<(Seq<char>, u8)>, topic: Seq<char>) -> Option<u8>
    decreases subs.len(),
{
    if subs.len() == 0 {
        None
    } else if subs.last().0 == topic {
        Some(subs.last().1)
    } else {
        subscription_qos(subs.drop_last(), topic)
    }
}

/// The subscriptions to other topics than `topic`, in their order.
pub open spec fn without_topic(subs: Seq<(Seq<char>, u8)>, topic: Seq<char>) -> Seq<
    (Seq<char>, u8),
>
    decreases subs.len(),
{
    if subs.len() == 0 {
        Seq::empty()
    } else if subs.last().0 == topic {
        without_topic(subs.drop_last(), topic)
    } else {
        without_topic(subs.drop_last(), topic).push(subs.last())
    }
}

/// The quality of service the broker grants when `requested` is asked for.
pub open spec fn granted_qos(requested: u8) -> u8 {
    if requested < BROKER_MAX_QOS {
        requested
    } else {
        BROKER_MAX_QOS
    }
}

/// The subscriptions after `filter` was asked for: it replaces any
/// subscription to the same topic.
pub open spec fn with_subscription(subs: Seq<(Seq<char>, u8)>, filter: (Seq<char>, u8)) -> Seq<
    (Seq<char>, u8),
> {
    without_topic(subs, filter.0).push((filter.0, granted_qos(filter.1)))
}

/// Once a topic was asked for, it is subscribed at the quality of service
/// granted for what was asked last, and every other topic is subscribed as
/// it was.
pub proof fn lemma_subscription_replaces(
    subs: Seq<(Seq<char>, u8)>,
    filter: (Seq<char>, u8),
    topic: Seq<char>,
)
    ensures
        subscription_qos(with_subscription(subs, filter), filter.0) == Some(granted_qos(filter.1)),
        granted_qos(filter.1) <= BROKER_MAX_QOS,
        topic != filter.0 ==> subscription_qos(with_subscription(subs, filter), topic)
            == subscription_qos(subs, topic),
{
    let kept = without_topic(subs, filter.0);
    assert(kept.push((filter.0, granted_qos(filter.1))).drop_last() =~= kept);
    if topic != filter.0 {
        lemma_without_topic(subs, filter.0, topic);
    }
}

/// Taking out the subscriptions to one topic leaves every other topic
/// subscribed as it was.
pub proof fn lemma_without_topic(subs: Seq<(Seq<char>, u8)>, gone: Seq<char>, topic: Seq<char>)
    requires
        topic != gone,
    ensures
        subscription_qos(without_topic(subs, gone), topic) == subscription_qos(subs, topic),
    decreases subs.len(),
{
    if subs.len() > 0 {
        lemma_without_topic(subs.drop_last(), gone, topic);
        let kept = without_topic(subs.drop_last(), gone);
        if subs.last().0 != gone {
            assert(kept.push(subs.last()).drop_last() =~= kept);
        }
    }
}

/// The subscriptions after each of `filters` was asked for, in turn.
pub open spec fn with_subscriptions(subs: Seq<(Seq<char>, u8)>, filters: Seq<(Seq<char>, u8)>) -> Seq<
    (Seq<char>, u8),
>
    decreases filters.len(),
{
    if filters.len() == 0 {
        subs
    } else {
        with_subscription(with_subscriptions(subs, filters.drop_last()), filters.last())
    }
}

/// The answers to `filters`: for each, the quality of service granted.
pub open spec fn return_codes_for(filters: Seq<(Seq<char>, u8)>) -> Seq<SubscribeReturnCode> {
    Seq::new(filters.len(), |i: int| SubscribeReturnCode::granting(granted_qos(filters[i].1)))
}

/// For how many mints the broker remembers a packet id that it took in
/// from a client: half of the ids there are. A sender comes back to an id
/// only after it has minted all the others, so by then the broker has
/// forgotten the id's earlier use.
pub const RECEIVED_WINDOW: u16 = 32_768;

/// How many ids a sender mints after the id `earlier` up to and including
/// the id `later`.
pub open spec fn mints_between(earlier: u16, later: u16) -> int {
    if later >= earlier {
        later - earlier
    } else {
        65_535 - (earlier - later)
    }
}

/// The `n`-th id that a sender mints after an id lies `n` mints after it.
/// So an id that the sender comes back to, after it has minted all the
/// others, finds its earlier use forgotten.
pub proof fn lemma_mints_between(earlier: u16, n: nat)
    requires
        earlier != 0,
        1 <= n < 65_535,
    ensures
        mints_between(earlier, nth_packet_id(earlier, n)) == n,
        n >= RECEIVED_WINDOW ==> !is_recent(earlier, nth_packet_id(earlier, n)),
{
    lemma_nth_packet_id(earlier, n);
}

/// Whether the broker still remembers the id `earlier` once it has taken
/// in the id `later`.
pub open spec fn is_recent(earlier: u16, later: u16) -> bool {
    mints_between(earlier, later) < RECEIVED_WINDOW
}

/// The packet ids, in their order, that the broker still remembers once
/// it has taken in `packet_id`, that id itself left out.
pub open spec fn recent_before(received: Seq<u16>, packet_id: u16) -> Seq<u16>
    decreases received.len(),
{
    if received.len() == 0 {
        Seq::empty()
    } else if received.last() != packet_id && is_recent(received.last(), packet_id) {
        recent_before(received.drop_last(), packet_id).push(received.last())
    } else {
        recent_before(received.drop_last(), packet_id)
    }
}

/// The packet ids that the broker remembers after it has taken in
/// `packet_id`: that id, and before it those taken in not long before.
pub open spec fn with_received(received: Seq<u16>, packet_id: u16) -> Seq<u16> {
    recent_before(received, packet_id).push(packet_id)
}

/// After a packet id was taken in, the broker remembers it, and of the
/// others exactly those that it remembered before and that were minted
/// fewer than half of all ids earlier.
pub proof fn lemma_with_received(received: Seq<u16>, packet_id: u16, other: u16)
    ensures
        with_received(received, packet_id).contains(packet_id),
        other != packet_id ==> (with_received(received, packet_id).contains(other) <==> (
        received.contains(other) && is_recent(other, packet_id))),
{
    let kept = recent_before(received, packet_id);
    let out = kept.push(packet_id);
    assert(out[kept.len() as int] == packet_id);
    lemma_recent_before(received, packet_id, other);
    if other != packet_id {
        if out.contains(other) {
            let i = choose|i: int| 0 <= i < out.len() && out[i] == other;
            assert(kept[i] == other);
        }
        if kept.contains(other) {
            let i = choose|i: int| 0 <= i < kept.len() && kept[i] == other;
            assert(out[i] == other);
        }
    }
}

/// What is remembered from before is what was remembered and is recent.
pub proof fn lemma_recent_before(received: Seq<u16>, packet_id: u16, other: u16)
    ensures
        recent_before(received, packet_id).contains(other) <==> (received.contains(other) && other
            != packet_id && is_recent(other, packet_id)),
    decreases received.len(),
{
    let out = recent_before(received, packet_id);
    if received.len() > 0 {
        let head = received.drop_last();
        let last = received.last();
        let rest = recent_before(head, packet_id);
        lemma_recent_before(head, packet_id, other);
        if out.contains(other) {
            let i = choose|i: int| 0 <= i < out.len() && out[i] == other;
            if i < rest.len() {
                assert(rest[i] == other);
                assert(rest.contains(other));
                let j = choose|j: int| 0 <= j < head.len() && head[j] == other;
                assert(received[j] == other);
            } else {
                assert(received[received.len() - 1] == other);
            }
        }
        if received.contains(other) && other != packet_id && is_recent(other, packet_id) {
            let j = choose|j: int| 0 <= j < received.len() && received[j] == other;
            if j < head.len() {
                assert(head[j] == other);
                assert(rest.contains(other));
                let i = choose|i: int| 0 <= i < rest.len() && rest[i] == other;
                assert(out[i] == other);
            } else {
                assert(out[out.len() - 1] == other);
            }
        }
    }
}

/// The smaller of two qualities of service.
pub open spec fn lower_qos(a: u8, b: u8) -> u8 {
    if a <= b {
        a
    } else {
        b
    }
}

impl SessionView {
    /// The message as this session's client gets it when the subscription
    /// grants `sub_qos`: at the lower of the two qualities of service, as a
    /// first delivery, under a fresh packet id if it needs one.
    pub open spec fn forwarded(self, msg: PublishView, sub_qos: u8) -> PublishView {
        msg.forwarded(sub_qos, next_packet_id(self.last_packet_id))
    }

    /// The session after `msg` was sent to its client at the time `now`,
    /// the subscription granting `sub_qos`: a message that needs an
    /// acknowledgement uses up a packet id and awaits that acknowledgement.
    pub open spec fn after_delivery(self, msg: PublishView, sub_qos: u8, now: u64) -> SessionView {
        if lower_qos(msg.flags.qos, sub_qos) > 0 {
            SessionView {
                last_packet_id: next_packet_id(self.last_packet_id),
                in_flight: without_packet(self.in_flight, next_packet_id(self.last_packet_id)).push(
                    PendingView {
                        msg: self.forwarded(msg, sub_qos),
                        deadline: deadline_after(now, self.config.initial_timeout),
                        timeout: self.config.initial_timeout,
                        retries: 0,
                    },
                ),
                ..self
            }
        } else {
            self
        }
    }

    /// What is sent to this session's client when `msg` is published: the
    /// forwarded message if the client is subscribed and connected, nothing
    /// otherwise.
    pub open spec fn delivery_of(self, msg: PublishView) -> Option<PublishView> {
        match subscription_qos(self.subscriptions, msg.topic) {
            Some(sub_qos) => if self.online {
                Some(self.forwarded(msg, sub_qos))
            } else {
                None
            },
            None => None,
        }
    }

    /// The session after `msg` was published at the time `now`: a connected
    /// subscriber was sent the message; a subscriber that is away and whose
    /// session is persistent has it queued; anyone else is untouched.
    pub open spec fn after_publish(self, msg: PublishView, now: u64) -> SessionView {
        match subscription_qos(self.subscriptions, msg.topic) {
            Some(sub_qos) => if self.online {
                self.after_delivery(msg, sub_qos, now)
            } else if self.persistent {
                SessionView { pending: self.pending.push(msg), ..self }
            } else {
                self
            },
            None => self,
        }
    }

    /// The session after its connection was lost or closed: the will is
    /// used up, and what was not yet acknowledged goes back to the queue if
    /// the session is persistent.
    pub open spec fn after_going_offline(self) -> SessionView {
        SessionView {
            online: false,
            will: None,
            pending: if self.persistent {
                self.pending + messages_of(self.in_flight)
            } else {
                self.pending
            },
            in_flight: Seq::empty(),
            ..self
        }
    }
}

/// Sending a message to a client keeps the packet ids unique among the
/// publishes that the client has not yet acknowledged.
pub proof fn lemma_delivery_keeps_ids_distinct(
    session: SessionView,
    msg: PublishView,
    sub_qos: u8,
    now: u64,
)
    requires
        packet_ids_distinct(session.in_flight),
    ensures
        packet_ids_distinct(session.after_delivery(msg, sub_qos, now).in_flight),
        packet_ids_distinct(session.after_publish(msg, now).in_flight),
{
    if lower_qos(msg.flags.qos, sub_qos) > 0 {
        lemma_register_keeps_ids_distinct(
            session.in_flight,
            PendingView {
                msg: session.forwarded(msg, sub_qos),
                deadline: deadline_after(now, session.config.initial_timeout),
                timeout: session.config.initial_timeout,
                retries: 0,
            },
            next_packet_id(session.last_packet_id),
        );
    }
    match subscription_qos(session.subscriptions, msg.topic) {
        Some(granted) => {
            if lower_qos(msg.flags.qos, granted) > 0 {
                lemma_register_keeps_ids_distinct(
                    session.in_flight,
                    PendingView {
                        msg: session.forwarded(msg, granted),
                        deadline: deadline_after(now, session.config.initial_timeout),
                        timeout: session.config.initial_timeout,
                        retries: 0,
                    },
                    next_packet_id(session.last_packet_id),
                );
            }
        },
        None => {},
    }
}

/// The session after the messages `msgs` were published one after the
/// other at the time `now`.
pub open spec fn after_publishing_all(session: SessionView, msgs: Seq<PublishView>, now: u64) -> SessionView
    decreases msgs.len(),
{
    if msgs.len() == 0 {
        session
    } else {
        after_publishing_all(session, msgs.drop_last(), now).after_publish(msgs.last(), now)
    }
}

/// What is sent to the session's client when the messages `msgs` are
/// published one after the other at the time `now`.
pub open spec fn deliveries_of_all(session: SessionView, msgs: Seq<PublishView>, now: u64) -> Seq<
    PublishView,
>
    decreases msgs.len(),
{
    if msgs.len() == 0 {
        Seq::empty()
    } else {
        let before = after_publishing_all(session, msgs.drop_last(), now);
        let sent = deliveries_of_all(session, msgs.drop_last(), now);
        match before.delivery_of(msgs.last()) {
            Some(msg) => sent.push(msg),
            None => sent,
        }
    }
}

/// Publishing messages changes neither whose session it is nor whether its
/// client is connected, whether it is persistent, or what it is subscribed
/// to.
pub proof fn lemma_publishing_keeps_client(session: SessionView, msgs: Seq<PublishView>, now: u64)
    ensures
        after_publishing_all(session, msgs, now).client_id == session.client_id,
        after_publishing_all(session, msgs, now).online == session.online,
        after_publishing_all(session, msgs, now).persistent == session.persistent,
        after_publishing_all(session, msgs, now).subscriptions == session.subscriptions,
        after_publishing_all(session, msgs, now).will == session.will,
        after_publishing_all(session, msgs, now).received == session.received,
    decreases msgs.len(),
{
    if msgs.len() > 0 {
        lemma_publishing_keeps_client(session, msgs.drop_last(), now);
    }
}

impl SessionView {
    /// The session as it is when its client comes back with the will
    /// `will`, before the queue is sent.
    pub open spec fn reopened(self, will: Option<WillView>) -> SessionView {
        SessionView { online: true, will, pending: Seq::empty(), ..self.after_going_offline() }
    }

    /// The messages that are waiting for the client when it comes back: the
    /// queue, and what it had not yet acknowledged.
    pub open spec fn backlog(self) -> Seq<PublishView> {
        self.after_going_offline().pending
    }

    /// The session after its client came back at the time `now` with the
    /// will `will`, and was sent what had been waiting for it.
    pub open spec fn after_resuming(self, will: Option<WillView>, now: u64) -> SessionView {
        after_publishing_all(self.reopened(will), self.backlog(), now)
    }

    /// The session after the clock has reached `now`. Only a connected
    /// client is sent anything again.
    pub open spec fn after_tick(self, now: u64) -> SessionView {
        if self.online {
            SessionView { in_flight: entries_after_tick(self.in_flight, now, self.config), ..self }
        } else {
            self
        }
    }
}

impl Session {
    /// The session of a client that has just connected.
    pub fn new(client_id: String, persistent: bool, will: Option<WillMessage>, config: RetransmitConfig) -> (session:
        Session)
        ensures
            session@ == (SessionView {
                client_id: client_id@,
                persistent,
                online: true,
                subscriptions: Seq::empty(),
                pending: Seq::empty(),
                config,
                in_flight: Seq::empty(),
                will: optional_will_view(will),
                last_packet_id: 0,
                received: Seq::empty(),
            }),
    {
        let session = Session {
            client_id,
            persistent,
            online: true,
            subscriptions: Vec::new(),
            pending: Vec::new(),
            in_flight: Retransmitter::new(config),
            will,
            last_packet_id: 0,
            received: Vec::new(),
        };
        assert(session@.subscriptions =~= Seq::empty());
        assert(session@.pending =~= Seq::empty());
        session
    }

    /// States what every session satisfies: each publish that its client
    /// has not yet acknowledged carries a packet id, and no two carry the
    /// same.
    pub fn check_well_formed(&self)
        ensures
            pending_wf(self@.in_flight),
    {
        self.in_flight.check_well_formed();
    }

    pub fn get_client_id(&self) -> (id: &str)
        ensures
            id@ == self@.client_id,
    {
        self.client_id.as_str()
    }

    pub fn is_online(&self) -> (online: bool)
        ensures
            online == self@.online,
    {
        self.online
    }

    pub fn is_persistent(&self) -> (persistent: bool)
        ensures
            persistent == self@.persistent,
    {
        self.persistent
    }

    pub fn get_will(&self) -> (will: &Option<WillMessage>)
        ensures
            optional_will_view(*will) == self@.will,
    {
        &self.will
    }

    /// How many messages wait for the client to come back.
    pub fn pending_count(&self) -> (n: usize)
        ensures
            n == self@.pending.len(),
    {
        self.pending.len()
    }

    /// How many publishes the client has not yet acknowledged.
    pub fn in_flight_count(&self) -> (n: usize)
        ensures
            n == self@.in_flight.len(),
    {
        self.in_flight.len()
    }

    /// Whether a QoS-1 publish with the packet id `packet_id` was taken in
    /// from the client.
    pub fn has_received(&self, packet_id: u16) -> (b: bool)
        ensures
            b == self@.received.contains(packet_id),
    {
        let mut i: usize = 0;
        while i < self.received.len()
            invariant
                i <= self.received@.len(),
                forall|j: int| 0 <= j < i ==> self.received@[j] != packet_id,
            decreases self.received@.len() - i,
        {
            if self.received[i] == packet_id {
                return true;
            }
            i = i + 1;
        }
        false
    }

    /// Records that a QoS-1 publish with the packet id `packet_id` was
    /// taken in from the client, and forgets the ids taken in half of all
    /// ids or more before it.
    pub fn note_received(&mut self, packet_id: u16)
        ensures
            final(self)@ == (SessionView {
                received: with_received(old(self)@.received, packet_id),
                ..old(self)@
            }),
            pending_wf(final(self)@.in_flight),
    {
        self.in_flight.check_well_formed();
        let mut source: Vec<u16> = Vec::new();
        std::mem::swap(&mut self.received, &mut source);
        let mut kept: Vec<u16> = Vec::new();
        let mut i: usize = 0;
        assert(source@.take(0) =~= Seq::empty());
        while i < source.len()
            invariant
                i <= source@.len(),
                kept@ == recent_before(source@.take(i as int), packet_id),
            decreases source@.len() - i,
        {
            proof {
                lemma_take_next(source@, i as int);
            }
            let earlier: u16 = source[i];
            let between: u16 = if packet_id >= earlier {
                packet_id - earlier
            } else {
                65_535 - (earlier - packet_id)
            };
            if earlier != packet_id && between < RECEIVED_WINDOW {
                kept.push(earlier);
            }
            i = i + 1;
        }
        assert(source@.take(i as int) =~= source@);
        kept.push(packet_id);
        self.received = kept;
    }

    /// The quality of service granted for `topic`, if it is subscribed.
    pub fn granted_for(&self, topic: &str) -> (r: Option<u8>)
        ensures
            r == subscription_qos(self@.subscriptions, topic@),
    {
        let ghost subs = self@.subscriptions;
        let mut i: usize = self.subscriptions.len();
        assert(subs.take(i as int) =~= subs);
        while i > 0
            invariant
                i <= self.subscriptions@.len(),
                subs == subscriptions_view(self.subscriptions@),
                subscription_qos(subs, topic@) == subscription_qos(subs.take(i as int), topic@),
            decreases i,
        {
            i = i - 1;
            proof {
                lemma_take_next(subs, i as int);
            }
            if same_text(self.subscriptions[i].0.as_str(), topic) {
                return Some(self.subscriptions[i].1);
            }
        }
        assert(subs.take(0) =~= Seq::empty());
        None
    }
}

impl Session {
    /// Takes out every subscription to `topic`.
    fn unsubscribe(&mut self, topic: &str)
        ensures
            final(self)@ == (SessionView {
                subscriptions: without_topic(old(self)@.subscriptions, topic@),
                ..old(self)@
            }),
            pending_wf(final(self)@.in_flight),
    {
        self.in_flight.check_well_formed();
        let mut source: Vec<(String, u8)> = Vec::new();
        std::mem::swap(&mut self.subscriptions, &mut source);
        let ghost before = subscriptions_view(source@);
        let mut kept: Vec<(String, u8)> = Vec::new();
        assert(subscriptions_view(kept@) =~= without_topic(before.take(0), topic@));
        for entry in it: source
            invariant
                it.seq() == source@,
                before == subscriptions_view(source@),
                subscriptions_view(kept@) == without_topic(
                    before.take(it.index() as int),
                    topic@,
                ),
        {
            proof {
                lemma_take_next(before, it.index() as int);
                assert(before[it.index() as int] == (entry.0@, entry.1));
                assert(subscriptions_view(kept@.push(entry)) =~= subscriptions_view(kept@).push(
                    (entry.0@, entry.1),
                ));
            }
            if !same_text(entry.0.as_str(), topic) {
                kept.push(entry);
            }
        }
        assert(before.take(before.len() as int) =~= before);
        self.subscriptions = kept;
    }

    /// Subscribes the client to `topic`, asking for the quality of service
    /// `requested`, and tells what is granted.
    pub fn subscribe_to(&mut self, topic: &str, requested: u8) -> (code: SubscribeReturnCode)
        ensures
            code == SubscribeReturnCode::granting(granted_qos(requested)),
            final(self)@ == (SessionView {
                subscriptions: with_subscription(old(self)@.subscriptions, (topic@, requested)),
                ..old(self)@
            }),
            pending_wf(final(self)@.in_flight),
    {
        self.in_flight.check_well_formed();
        self.unsubscribe(topic);
        let granted: u8 = if requested < BROKER_MAX_QOS {
            requested
        } else {
            BROKER_MAX_QOS
        };
        let ghost before = subscriptions_view(self.subscriptions@);
        self.subscriptions.push((topic.to_owned(), granted));
        assert(subscriptions_view(self.subscriptions@) =~= before.push((topic@, granted)));
        if granted == 0 {
            SubscribeReturnCode::QoS0
        } else {
            SubscribeReturnCode::QoS1
        }
    }

    /// Sends `msg` to the client, the subscription granting `sub_qos`.
    fn deliver(&mut self, msg: &PublishMessage, sub_qos: u8, now: u64) -> (sent: PublishMessage)
        ensures
            sent@ == old(self)@.forwarded(msg@, sub_qos),
            final(self)@ == old(self)@.after_delivery(msg@, sub_qos, now),
            pending_wf(final(self)@.in_flight),
    {
        self.in_flight.check_well_formed();
        let packet_id = mint_packet_id(self.last_packet_id);
        let sent = msg.forwarded(sub_qos, packet_id);
        if sent.get_qos() > 0 {
            self.last_packet_id = packet_id;
            self.in_flight.register(sent.duplicate(), now);
        }
        sent
    }

    /// Takes note of a message published at the time `now`, and hands back
    /// what is to be sent to the client, if anything.
    pub fn route(&mut self, msg: &PublishMessage, now: u64) -> (sent: Option<PublishMessage>)
        ensures
            final(self)@ == old(self)@.after_publish(msg@, now),
            match old(self)@.delivery_of(msg@) {
                Some(v) => sent matches Some(m) && m@ == v,
                None => sent is None,
            },
            pending_wf(final(self)@.in_flight),
    {
        self.in_flight.check_well_formed();
        match self.granted_for(msg.get_topic()) {
            None => None,
            Some(sub_qos) => {
                if self.online {
                    Some(self.deliver(msg, sub_qos, now))
                } else {
                    if self.persistent {
                        let copy = msg.duplicate();
                        proof {
                            lemma_views_push(self.pending@, copy);
                        }
                        self.pending.push(copy);
                    }
                    None
                }
            },
        }
    }

    /// Takes note of a PUBACK for the packet id `packet_id`.
    pub fn acknowledge(&mut self, packet_id: u16) -> (was_waiting: bool)
        ensures
            was_waiting == awaits(old(self)@.in_flight, packet_id),
            final(self)@ == (SessionView {
                in_flight: without_packet(old(self)@.in_flight, packet_id),
                ..old(self)@
            }),
            pending_wf(final(self)@.in_flight),
    {
        self.in_flight.acknowledge(packet_id)
    }

    /// Moves the clock to `now`. A connected client is sent again what it
    /// has not acknowledged in time, unless that is given up.
    pub fn tick(&mut self, now: u64) -> (outcome: TickOutcome)
        ensures
            final(self)@ == old(self)@.after_tick(now),
            views(outcome.resend@) == if old(self)@.online {
                resent_at(old(self)@.in_flight, now, old(self)@.config)
            } else {
                Seq::empty()
            },
            views(outcome.given_up@) == if old(self)@.online {
                given_up_at(old(self)@.in_flight, now, old(self)@.config)
            } else {
                Seq::empty()
            },
            pending_wf(final(self)@.in_flight),
            all_left(views(outcome.given_up@), final(self)@.in_flight),
    {
        self.in_flight.check_well_formed();
        if self.online {
            self.in_flight.tick(now)
        } else {
            let outcome = TickOutcome { resend: Vec::new(), given_up: Vec::new() };
            assert(views(outcome.resend@) =~= Seq::empty());
            assert(views(outcome.given_up@) =~= Seq::empty());
            outcome
        }
    }

    /// The connection was lost or closed.
    pub fn go_offline(&mut self)
        ensures
            final(self)@ == old(self)@.after_going_offline(),
            pending_wf(final(self)@.in_flight),
    {
        self.online = false;
        self.will = None;
        let unacknowledged = self.in_flight.drain();
        if self.persistent {
            let ghost queue = views(self.pending@);
            let ghost moved = views(unacknowledged@);
            for msg in it: unacknowledged
                invariant
                    it.seq() == unacknowledged@,
                    moved == views(unacknowledged@),
                    views(self.pending@) == queue + moved.take(it.index() as int),
                    self@ == (SessionView { pending: views(self.pending@), ..self@ }),
                    self.online == false,
                    self.will is None,
                    self.in_flight@.pending == Seq::<PendingView>::empty(),
                    self.in_flight@.config == old(self)@.config,
                    self.client_id == old(self).client_id,
                    self.persistent == old(self).persistent,
                    self.subscriptions == old(self).subscriptions,
                    self.last_packet_id == old(self).last_packet_id,
                    self.received == old(self).received,
            {
                proof {
                    lemma_take_next(moved, it.index() as int);
                    lemma_views_push(self.pending@, msg);
                    assert(moved[it.index() as int] == msg@);
                    assert((queue + moved.take(it.index() as int)).push(msg@) =~= queue
                        + moved.take(it.index() + 1));
                }
                self.pending.push(msg);
            }
            assert(moved.take(moved.len() as int) =~= moved);
        }
    }

    /// The client came back at the time `now` with the will `will`. What
    /// had been waiting for it is handed back, to be sent.
    pub fn resume(&mut self, will: Option<WillMessage>, now: u64) -> (sent: Vec<PublishMessage>)
        ensures
            final(self)@ == old(self)@.after_resuming(optional_will_view(will), now),
            views(sent@) == deliveries_of_all(
                old(self)@.reopened(optional_will_view(will)),
                old(self)@.backlog(),
                now,
            ),
            pending_wf(final(self)@.in_flight),
    {
        self.go_offline();
        let mut backlog: Vec<PublishMessage> = Vec::new();
        std::mem::swap(&mut self.pending, &mut backlog);
        self.online = true;
        self.will = will;
        let ghost start = self@;
        let ghost msgs = views(backlog@);
        assert(start.pending =~= Seq::<PublishView>::empty());
        assert(start == old(self)@.reopened(optional_will_view(will)));
        assert(msgs == old(self)@.backlog());
        let mut sent: Vec<PublishMessage> = Vec::new();
        assert(msgs.take(0) =~= Seq::empty());
        assert(views(sent@) =~= deliveries_of_all(start, msgs.take(0), now));
        for msg in it: backlog
            invariant
                it.seq() == backlog@,
                msgs == views(backlog@),
                self@ == after_publishing_all(start, msgs.take(it.index() as int), now),
                views(sent@) == deliveries_of_all(start, msgs.take(it.index() as int), now),
        {
            proof {
                lemma_take_next(msgs, it.index() as int);
                assert(msgs[it.index() as int] == msg@);
            }
            match self.route(&msg, now) {
                Some(out) => {
                    proof {
                        lemma_views_push(sent@, out);
                    }
                    sent.push(out);
                },
                None => {},
            }
        }
        assert(msgs.take(msgs.len() as int) =~= msgs);
        self.in_flight.check_well_formed();
        sent
    }
}

/// Whether two texts are the same.
pub fn same_text(a: &str, b: &str) -> (same: bool)
    ensures
        same == (a@ == b@),
{
    let left: String = a.to_owned();
    let right: String = b.to_owned();
    left == right
}

} // verus!
