//! Keeping track of QoS-1 publishes until they are acknowledged: each one
//! waits for its PUBACK until a deadline, is sent again when the deadline
//! passes, with a longer wait each time, and is given up after a number of
//! tries.
//!
//! Time is a number of milliseconds handed in by the caller.

use crate::mqtt::messages::publish_flags::PublishFlags;
use crate::mqtt::messages::publish_message::{PublishMessage, PublishView};
use crate::views::{lemma_take_next, lemma_views_push, views};
use vstd::prelude::*;

verus! {

/// How long to wait for an acknowledgement and how often to try again.
#[derive(Debug, Clone, Copy, PartialEq, Eq, Structural)]
pub struct RetransmitConfig {
    /// The wait before the first retransmission.
    pub initial_timeout: u64,
    /// The longest wait between two retransmissions.
    pub max_timeout: u64,
    /// How many times a publish is sent again before it is given up.
    pub max_retries: u8,
}

impl RetransmitConfig {
    /// The wait that follows a wait of `timeout`: twice as long, but no
    /// longer than the longest wait.
    pub open spec fn next_timeout(self, timeout: u64) -> u64 {
        if 2 * timeout >= self.max_timeout {
            self.max_timeout
        } else {
            (2 * timeout) as u64
        }
    }

    /// Ten seconds at first, sixty at most, five retransmissions.
    pub fn standard() -> (config: Self)
        ensures
            config == (RetransmitConfig {
                initial_timeout: 10_000,
                max_timeout: 60_000,
                max_retries: 5,
            }),
    {
        RetransmitConfig { initial_timeout: 10_000, max_timeout: 60_000, max_retries: 5 }
    }

    pub fn following_timeout(&self, timeout: u64) -> (next: u64)
        ensures
            next == self.next_timeout(timeout),
    {
        if timeout >= self.max_timeout / 2 + 1 || 2 * timeout >= self.max_timeout {
            self.max_timeout
        } else {
            2 * timeout
        }
    }
}

/// The moment that lies `timeout` after `now`, or the end of time if that
/// is sooner.
pub open spec fn deadline_after(now: u64, timeout: u64) -> u64 {
    if now + timeout > u64::MAX {
        u64::MAX
    } else {
        (now + timeout) as u64
    }
}

pub fn deadline_from(now: u64, timeout: u64) -> (deadline: u64)
    ensures
        deadline == deadline_after(now, timeout),
{
    if timeout > u64::MAX - now {
        u64::MAX
    } else {
        now + timeout
    }
}

/// A publish that awaits its acknowledgement.
#[derive(Debug)]
pub struct PendingPublish {
    pub msg: PublishMessage,
    pub deadline: u64,
    pub timeout: u64,
    pub retries: u8,
}

pub struct PendingView {
    pub msg: PublishView,
    pub deadline: u64,
    pub timeout: u64,
    pub retries: u8,
}

impl View for PendingPublish {
    type V = PendingView;

    open spec fn view(&self) -> PendingView {
        PendingView {
            msg: self.msg@,
            deadline: self.deadline,
            timeout: self.timeout,
            retries: self.retries,
        }
    }
}

/// A message marked as a repeated delivery.
pub open spec fn marked_duplicate(msg: PublishView) -> PublishView {
    PublishView { flags: PublishFlags { dup: true, ..msg.flags }, ..msg }
}

impl PendingView {
    /// Whether the deadline has passed at the time `now`.
    pub open spec fn is_due(self, now: u64) -> bool {
        self.deadline <= now
    }

    /// Whether the publish is given up at the time `now`: its deadline has
    /// passed and it was already sent again as often as allowed.
    pub open spec fn is_exhausted(self, now: u64, config: RetransmitConfig) -> bool {
        self.is_due(now) && self.retries >= config.max_retries
    }

    /// Whether the publish is sent again at the time `now`.
    pub open spec fn is_resent(self, now: u64, config: RetransmitConfig) -> bool {
        self.is_due(now) && self.retries < config.max_retries
    }

    /// The entry after it was sent again at the time `now`.
    pub open spec fn retried(self, now: u64, config: RetransmitConfig) -> PendingView {
        PendingView {
            msg: marked_duplicate(self.msg),
            deadline: deadline_after(now, config.next_timeout(self.timeout)),
            timeout: config.next_timeout(self.timeout),
            retries: (self.retries + 1) as u8,
        }
    }

    /// The entry after the clock has reached `now`, for one that is not
    /// given up.
    pub open spec fn after_tick(self, now: u64, config: RetransmitConfig) -> PendingView {
        if self.is_due(now) {
            self.retried(now, config)
        } else {
            self
        }
    }
}

/// The entries that do not carry the packet id `id`, in their order.
pub open spec fn without_packet(entries: Seq<PendingView>, id: u16) -> Seq<PendingView>
    decreases entries.len(),
{
    if entries.len() == 0 {
        Seq::empty()
    } else if entries.last().msg.packet_id == Some(id) {
        without_packet(entries.drop_last(), id)
    } else {
        without_packet(entries.drop_last(), id).push(entries.last())
    }
}

/// Whether some entry carries the packet id `id`.
pub open spec fn awaits(entries: Seq<PendingView>, id: u16) -> bool {
    exists|i: int| 0 <= i < entries.len() && (#[trigger] entries[i]).msg.packet_id == Some(id)
}

/// The entries that are left once the clock has reached `now`: those given
/// up are gone, those whose deadline has passed were sent again.
pub open spec fn entries_after_tick(entries: Seq<PendingView>, now: u64, config: RetransmitConfig) -> Seq<
    PendingView,
>
    decreases entries.len(),
{
    if entries.len() == 0 {
        Seq::empty()
    } else if entries.last().is_exhausted(now, config) {
        entries_after_tick(entries.drop_last(), now, config)
    } else {
        entries_after_tick(entries.drop_last(), now, config).push(
            entries.last().after_tick(now, config),
        )
    }
}

/// The messages to send again once the clock has reached `now`, in the
/// order of their entries, each marked as a repeated delivery.
pub open spec fn resent_at(entries: Seq<PendingView>, now: u64, config: RetransmitConfig) -> Seq<
    PublishView,
>
    decreases entries.len(),
{
    if entries.len() == 0 {
        Seq::empty()
    } else if entries.last().is_resent(now, config) {
        resent_at(entries.drop_last(), now, config).push(marked_duplicate(entries.last().msg))
    } else {
        resent_at(entries.drop_last(), now, config)
    }
}

/// The messages given up once the clock has reached `now`, in the order of
/// their entries.
pub open spec fn given_up_at(entries: Seq<PendingView>, now: u64, config: RetransmitConfig) -> Seq<
    PublishView,
>
    decreases entries.len(),
{
    if entries.len() == 0 {
        Seq::empty()
    } else if entries.last().is_exhausted(now, config) {
        given_up_at(entries.drop_last(), now, config).push(entries.last().msg)
    } else {
        given_up_at(entries.drop_last(), now, config)
    }
}

/// The messages of the entries, in their order.
pub open spec fn messages_of(entries: Seq<PendingView>) -> Seq<PublishView> {
    Seq::new(entries.len(), |i: int| entries[i].msg)
}

/// No two entries carry the same packet id.
pub open spec fn packet_ids_distinct(entries: Seq<PendingView>) -> bool {
    forall|i: int, j: int|
        0 <= i < entries.len() && 0 <= j < entries.len() && i != j ==> (
        #[trigger] entries[i]).msg.packet_id != (#[trigger] entries[j]).msg.packet_id
}

/// Every entry carries a packet id.
pub open spec fn all_have_ids(entries: Seq<PendingView>) -> bool {
    forall|i: int| 0 <= i < entries.len() ==> (#[trigger] entries[i]).msg.packet_id is Some
}

/// What holds of the publishes that await their acknowledgement at all
/// times: each carries a packet id, and no two carry the same.
pub open spec fn pending_wf(entries: Seq<PendingView>) -> bool {
    packet_ids_distinct(entries) && all_have_ids(entries)
}

/// What is left after removing a packet id: the entries with another id,
/// each of which was there before.
pub proof fn lemma_without_packet(entries: Seq<PendingView>, id: u16)
    ensures
        !awaits(without_packet(entries, id), id),
        without_packet(entries, id).len() <= entries.len(),
        forall|other: u16|
            other != id ==> (awaits(without_packet(entries, id), other) <==> awaits(entries, other)),
        packet_ids_distinct(entries) ==> packet_ids_distinct(without_packet(entries, id)),
        pending_wf(entries) ==> pending_wf(without_packet(entries, id)),
        forall|k: int|
            0 <= k < without_packet(entries, id).len() ==> entries.contains(
                #[trigger] without_packet(entries, id)[k],
            ),
        !awaits(entries, id) ==> without_packet(entries, id) == entries,
    decreases entries.len(),
{
    let out = without_packet(entries, id);
    if entries.len() > 0 {
        let head = entries.drop_last();
        let last = entries.last();
        let rest = without_packet(head, id);
        lemma_without_packet(head, id);
        assert forall|k: int| 0 <= k < out.len() implies entries.contains(#[trigger] out[k]) by {
            if k < rest.len() {
                assert(out[k] == rest[k]);
                assert(head.contains(rest[k]));
                let i = choose|i: int| 0 <= i < head.len() && head[i] == rest[k];
                assert(entries[i] == rest[k]);
            } else {
                assert(entries[entries.len() - 1] == out[k]);
            }
        }
        assert(!awaits(out, id)) by {
            if awaits(out, id) {
                let i = choose|i: int|
                    0 <= i < out.len() && (#[trigger] out[i]).msg.packet_id == Some(id);
                if i < rest.len() {
                    assert(rest[i] == out[i]);
                }
            }
        }
        assert forall|other: u16| other != id implies (awaits(out, other) <==> awaits(
            entries,
            other,
        )) by {
            if awaits(out, other) {
                let i = choose|i: int|
                    0 <= i < out.len() && (#[trigger] out[i]).msg.packet_id == Some(other);
                assert(entries.contains(out[i]));
                let j = choose|j: int| 0 <= j < entries.len() && entries[j] == out[i];
                assert(entries[j].msg.packet_id == Some(other));
            }
            if awaits(entries, other) {
                let i = choose|i: int|
                    0 <= i < entries.len() && (#[trigger] entries[i]).msg.packet_id == Some(other);
                if i < head.len() {
                    assert(head[i] == entries[i]);
                    assert(awaits(head, other));
                    let j = choose|j: int|
                        0 <= j < rest.len() && (#[trigger] rest[j]).msg.packet_id == Some(other);
                    assert(out[j] == rest[j]);
                } else {
                    assert(out[out.len() - 1] == last);
                }
            }
        }
        if packet_ids_distinct(entries) {
            assert(packet_ids_distinct(head)) by {
                assert forall|i: int, j: int|
                    0 <= i < head.len() && 0 <= j < head.len() && i != j implies (
                #[trigger] head[i]).msg.packet_id != (#[trigger] head[j]).msg.packet_id by {
                    assert(head[i] == entries[i] && head[j] == entries[j]);
                }
            }
            assert forall|i: int, j: int|
                0 <= i < out.len() && 0 <= j < out.len() && i != j implies (
            #[trigger] out[i]).msg.packet_id != (#[trigger] out[j]).msg.packet_id by {
                if i < rest.len() && j < rest.len() {
                    assert(out[i] == rest[i] && out[j] == rest[j]);
                } else {
                    let (a, b) = if i < rest.len() {
                        (i, j)
                    } else {
                        (j, i)
                    };
                    assert(out[a] == rest[a]);
                    assert(head.contains(rest[a]));
                    let h = choose|h: int| 0 <= h < head.len() && head[h] == rest[a];
                    assert(entries[h] == rest[a]);
                    assert(entries[entries.len() - 1] == out[b]);
                }
            }
        }
        if !awaits(entries, id) {
            assert(!awaits(head, id)) by {
                if awaits(head, id) {
                    let i = choose|i: int|
                        0 <= i < head.len() && (#[trigger] head[i]).msg.packet_id == Some(id);
                    assert(entries[i] == head[i]);
                }
            }
            assert(entries[entries.len() - 1] == last);
            assert(out =~= entries);
        }
    }
}

/// Packet ids stay unique among the publishes that await their
/// acknowledgement when one more starts to wait: it takes the place of any
/// publish that was waiting under its packet id.
pub proof fn lemma_register_keeps_ids_distinct(
    entries: Seq<PendingView>,
    entry: PendingView,
    id: u16,
)
    requires
        packet_ids_distinct(entries),
        entry.msg.packet_id == Some(id),
    ensures
        packet_ids_distinct(without_packet(entries, id).push(entry)),
        all_have_ids(entries) ==> all_have_ids(without_packet(entries, id).push(entry)),
{
    lemma_without_packet(entries, id);
    let kept = without_packet(entries, id);
    let out = kept.push(entry);
    assert forall|i: int, j: int| 0 <= i < out.len() && 0 <= j < out.len() && i != j implies (
    #[trigger] out[i]).msg.packet_id != (#[trigger] out[j]).msg.packet_id by {
        if i < kept.len() && j < kept.len() {
            assert(out[i] == kept[i] && out[j] == kept[j]);
        } else {
            let k = if i < kept.len() {
                i
            } else {
                j
            };
            assert(out[k] == kept[k]);
            if kept[k].msg.packet_id == Some(id) {
                assert(awaits(kept, id));
            }
        }
    }
}

/// Every QoS-1 publish is accounted for: when the clock moves on, a publish
/// that awaits its acknowledgement either goes on waiting for it, with its
/// id unchanged, or is reported as given up. Nothing vanishes in silence.
pub proof fn lemma_tick_accounts_for_every_publish(
    entries: Seq<PendingView>,
    now: u64,
    config: RetransmitConfig,
    i: int,
)
    requires
        0 <= i < entries.len(),
    ensures
        entries[i].is_exhausted(now, config) ==> given_up_at(entries, now, config).contains(
            entries[i].msg,
        ),
        !entries[i].is_exhausted(now, config) ==> entries_after_tick(
            entries,
            now,
            config,
        ).contains(entries[i].after_tick(now, config)),
        entries[i].is_resent(now, config) ==> resent_at(entries, now, config).contains(
            marked_duplicate(entries[i].msg),
        ),
        entries[i].after_tick(now, config).msg.packet_id == entries[i].msg.packet_id,
    decreases entries.len(),
{
    let head = entries.drop_last();
    let last = entries.last();
    if i < entries.len() - 1 {
        lemma_tick_accounts_for_every_publish(head, now, config, i);
        assert(head[i] == entries[i]);
        let e = entries[i];
        if e.is_exhausted(now, config) {
            let g = given_up_at(head, now, config);
            let k = choose|k: int| 0 <= k < g.len() && g[k] == e.msg;
            assert(given_up_at(entries, now, config)[k] == e.msg);
        } else {
            let t = entries_after_tick(head, now, config);
            let k = choose|k: int| 0 <= k < t.len() && t[k] == e.after_tick(now, config);
            assert(entries_after_tick(entries, now, config)[k] == e.after_tick(now, config));
        }
        if e.is_resent(now, config) {
            let r = resent_at(head, now, config);
            let k = choose|k: int| 0 <= k < r.len() && r[k] == marked_duplicate(e.msg);
            assert(resent_at(entries, now, config)[k] == marked_duplicate(e.msg));
        }
    } else {
        assert(entries[i] == last);
        if last.is_exhausted(now, config) {
            let g = given_up_at(entries, now, config);
            assert(g[g.len() - 1] == last.msg);
        } else {
            let t = entries_after_tick(entries, now, config);
            assert(t[t.len() - 1] == last.after_tick(now, config));
        }
        if last.is_resent(now, config) {
            let r = resent_at(entries, now, config);
            assert(r[r.len() - 1] == marked_duplicate(last.msg));
        }
    }
}

/// A publish that is given up awaits its acknowledgement no longer: once
/// the clock has moved on, no entry carries its packet id.
pub proof fn lemma_given_up_is_no_longer_awaited(
    entries: Seq<PendingView>,
    now: u64,
    config: RetransmitConfig,
    i: int,
)
    requires
        pending_wf(entries),
        0 <= i < entries.len(),
        entries[i].is_exhausted(now, config),
    ensures
        given_up_at(entries, now, config).contains(entries[i].msg),
        entries[i].msg.packet_id matches Some(id) && !awaits(
            entries_after_tick(entries, now, config),
            id,
        ),
{
    lemma_tick_accounts_for_every_publish(entries, now, config, i);
    lemma_tick_keeps_entries(entries, now, config);
    let out = entries_after_tick(entries, now, config);
    let id = entries[i].msg.packet_id->Some_0;
    if awaits(out, id) {
        let k = choose|k: int| 0 <= k < out.len() && (#[trigger] out[k]).msg.packet_id == Some(id);
        let j = choose|j: int|
            0 <= j < entries.len() && !(#[trigger] entries[j]).is_exhausted(now, config) && out[k]
                == entries[j].after_tick(now, config);
        assert(entries[j].msg.packet_id == entries[i].msg.packet_id);
    }
}

/// Whatever is reported as given up was waiting and had used up its
/// tries.
pub proof fn lemma_given_up_were_exhausted(
    entries: Seq<PendingView>,
    now: u64,
    config: RetransmitConfig,
)
    ensures
        forall|k: int|
            0 <= k < given_up_at(entries, now, config).len() ==> exists|i: int|
                0 <= i < entries.len() && (#[trigger] entries[i]).is_exhausted(now, config)
                    && (#[trigger] given_up_at(entries, now, config)[k]) == entries[i].msg,
    decreases entries.len(),
{
    let out = given_up_at(entries, now, config);
    if entries.len() > 0 {
        let head = entries.drop_last();
        let rest = given_up_at(head, now, config);
        lemma_given_up_were_exhausted(head, now, config);
        assert forall|k: int| 0 <= k < out.len() implies exists|i: int|
            0 <= i < entries.len() && (#[trigger] entries[i]).is_exhausted(now, config) && (
            #[trigger] out[k]) == entries[i].msg by {
            if k < rest.len() {
                assert(out[k] == rest[k]);
                let i = choose|i: int|
                    0 <= i < head.len() && (#[trigger] head[i]).is_exhausted(now, config)
                        && rest[k] == head[i].msg;
                assert(entries[i] == head[i]);
            } else {
                assert(entries[entries.len() - 1].msg == out[k]);
            }
        }
    }
}

/// Whether none of the messages `given_up` is awaited any more among
/// `left`: each carries a packet id that no entry of `left` carries.
pub open spec fn all_left(given_up: Seq<PublishView>, left: Seq<PendingView>) -> bool {
    forall|k: int|
        0 <= k < given_up.len() ==> (#[trigger] given_up[k]).packet_id is Some && !awaits(
            left,
            given_up[k].packet_id->Some_0,
        )
}

/// Every publish that is reported as given up awaits its acknowledgement
/// no longer.
pub proof fn lemma_given_up_all_left(entries: Seq<PendingView>, now: u64, config: RetransmitConfig)
    requires
        pending_wf(entries),
    ensures
        all_left(given_up_at(entries, now, config), entries_after_tick(entries, now, config)),
{
    let out = given_up_at(entries, now, config);
    lemma_given_up_were_exhausted(entries, now, config);
    assert forall|k: int| 0 <= k < out.len() implies (#[trigger] out[k]).packet_id is Some
        && !awaits(entries_after_tick(entries, now, config), out[k].packet_id->Some_0) by {
        let i = choose|i: int|
            0 <= i < entries.len() && (#[trigger] entries[i]).is_exhausted(now, config) && out[k]
                == entries[i].msg;
        lemma_given_up_is_no_longer_awaited(entries, now, config, i);
    }
}

/// The entry after it was found due and sent again at each of `times`, in
/// turn.
pub open spec fn after_resends(entry: PendingView, config: RetransmitConfig, times: Seq<u64>) -> PendingView
    decreases times.len(),
{
    if times.len() == 0 {
        entry
    } else {
        after_resends(entry, config, times.drop_last()).retried(times.last(), config)
    }
}

/// A publish that is never acknowledged is sent again as often as allowed
/// and no more: after that many resends, whenever they happened, it has
/// used up its tries, still carries its packet id, and the next time its
/// deadline has passed it is given up.
pub proof fn lemma_given_up_after_max_retries(
    entry: PendingView,
    config: RetransmitConfig,
    times: Seq<u64>,
    now: u64,
)
    requires
        entry.retries <= config.max_retries,
        times.len() == config.max_retries - entry.retries,
        after_resends(entry, config, times).deadline <= now,
    ensures
        after_resends(entry, config, times).retries == config.max_retries,
        after_resends(entry, config, times).msg.packet_id == entry.msg.packet_id,
        after_resends(entry, config, times).is_exhausted(now, config),
        !after_resends(entry, config, times).is_resent(now, config),
{
    lemma_resends_count(entry, config, times);
}

/// Each resend counts as one try and leaves the packet id as it is.
pub proof fn lemma_resends_count(entry: PendingView, config: RetransmitConfig, times: Seq<u64>)
    requires
        entry.retries + times.len() <= config.max_retries,
    ensures
        after_resends(entry, config, times).retries == entry.retries + times.len(),
        after_resends(entry, config, times).msg.packet_id == entry.msg.packet_id,
        times.len() > 0 ==> after_resends(entry, config, times).msg.flags.dup,
    decreases times.len(),
{
    if times.len() > 0 {
        lemma_resends_count(entry, config, times.drop_last());
    }
}

/// Moving the clock on drops publishes only by giving them up: whatever is
/// left was waiting before, under the same packet id, and was sent again at
/// most once more, never more often than allowed.
pub proof fn lemma_tick_keeps_entries(entries: Seq<PendingView>, now: u64, config: RetransmitConfig)
    ensures
        forall|k: int|
            0 <= k < entries_after_tick(entries, now, config).len() ==> exists|i: int|
                0 <= i < entries.len() && !(#[trigger] entries[i]).is_exhausted(now, config)
                    && (#[trigger] entries_after_tick(entries, now, config)[k])
                    == entries[i].after_tick(now, config),
        packet_ids_distinct(entries) ==> packet_ids_distinct(
            entries_after_tick(entries, now, config),
        ),
        pending_wf(entries) ==> pending_wf(entries_after_tick(entries, now, config)),
        (forall|i: int| 0 <= i < entries.len() ==> (#[trigger] entries[i]).retries
            <= config.max_retries) ==> (forall|k: int|
            0 <= k < entries_after_tick(entries, now, config).len() ==> (
            #[trigger] entries_after_tick(entries, now, config)[k]).retries <= config.max_retries),
    decreases entries.len(),
{
    let out = entries_after_tick(entries, now, config);
    if entries.len() > 0 {
        let head = entries.drop_last();
        let last = entries.last();
        let rest = entries_after_tick(head, now, config);
        lemma_tick_keeps_entries(head, now, config);
        assert(entries[entries.len() - 1] == last);
        assert forall|k: int| 0 <= k < out.len() implies exists|i: int|
            0 <= i < entries.len() && !(#[trigger] entries[i]).is_exhausted(now, config) && (
            #[trigger] out[k]) == entries[i].after_tick(now, config) by {
            if k < rest.len() {
                assert(out[k] == rest[k]);
                let i = choose|i: int|
                    0 <= i < head.len() && !(#[trigger] head[i]).is_exhausted(now, config)
                        && rest[k] == head[i].after_tick(now, config);
                assert(entries[i] == head[i]);
            } else {
                assert(out[k] == entries[entries.len() - 1].after_tick(now, config));
            }
        }
        if packet_ids_distinct(entries) {
            assert(packet_ids_distinct(head)) by {
                assert forall|i: int, j: int|
                    0 <= i < head.len() && 0 <= j < head.len() && i != j implies (
                #[trigger] head[i]).msg.packet_id != (#[trigger] head[j]).msg.packet_id by {
                    assert(head[i] == entries[i] && head[j] == entries[j]);
                }
            }
            assert forall|a: int, b: int|
                0 <= a < out.len() && 0 <= b < out.len() && a != b implies (
            #[trigger] out[a]).msg.packet_id != (#[trigger] out[b]).msg.packet_id by {
                if a < rest.len() && b < rest.len() {
                    assert(out[a] == rest[a] && out[b] == rest[b]);
                } else {
                    let (x, y) = if a < rest.len() {
                        (a, b)
                    } else {
                        (b, a)
                    };
                    assert(out[x] == rest[x]);
                    let i = choose|i: int|
                        0 <= i < head.len() && !(#[trigger] head[i]).is_exhausted(now, config)
                            && rest[x] == head[i].after_tick(now, config);
                    assert(entries[i] == head[i]);
                    assert(out[y] == last.after_tick(now, config));
                    assert(entries[i].msg.packet_id != entries[entries.len() - 1].msg.packet_id);
                }
            }
        }
        if all_have_ids(entries) {
            assert forall|k: int| 0 <= k < out.len() implies (#[trigger] out[k]).msg.packet_id
                is Some by {
                let i = choose|i: int|
                    0 <= i < entries.len() && !(#[trigger] entries[i]).is_exhausted(now, config)
                        && out[k] == entries[i].after_tick(now, config);
                assert(entries[i].msg.packet_id is Some);
            }
        }
        if forall|i: int| 0 <= i < entries.len() ==> (#[trigger] entries[i]).retries
            <= config.max_retries {
            assert forall|i: int| 0 <= i < head.len() implies (#[trigger] head[i]).retries
                <= config.max_retries by {
                assert(head[i] == entries[i]);
            }
            assert forall|k: int| 0 <= k < out.len() implies (#[trigger] out[k]).retries
                <= config.max_retries by {
                if k < rest.len() {
                    assert(out[k] == rest[k]);
                }
            }
        }
    }
}

/// What moving the clock on asks of the caller.
#[derive(Debug)]
pub struct TickOutcome {
    /// Messages to send again, marked as repeated deliveries.
    pub resend: Vec<PublishMessage>,
    /// Messages given up: they were sent as often as allowed and never
    /// acknowledged.
    pub given_up: Vec<PublishMessage>,
}

/// The publishes of one sender that await their acknowledgement.
#[derive(Debug)]
pub struct Retransmitter {
    config: RetransmitConfig,
    pending: Vec<PendingPublish>,
}

pub struct RetransmitterView {
    pub config: RetransmitConfig,
    pub pending: Seq<PendingView>,
}

impl View for Retransmitter {
    type V = RetransmitterView;

    closed spec fn view(&self) -> RetransmitterView {
        RetransmitterView { config: self.config, pending: views(self.pending@) }
    }
}

impl Retransmitter {
    #[verifier::type_invariant]
    spec fn well_formed(self) -> bool {
        pending_wf(self@.pending)
    }

    /// A retransmitter that awaits nothing.
    pub fn new(config: RetransmitConfig) -> (r: Self)
        ensures
            r@ == (RetransmitterView { config, pending: Seq::empty() }),
    {
        let r = Retransmitter { config, pending: Vec::new() };
        assert(r@.pending =~= Seq::empty());
        r
    }

    /// States what every retransmitter satisfies: each publish that awaits
    /// its acknowledgement carries a packet id, and no two carry the same.
    pub fn check_well_formed(&self)
        ensures
            pending_wf(self@.pending),
    {
        proof {
            use_type_invariant(self);
        }
    }

    pub fn get_config(&self) -> (config: RetransmitConfig)
        ensures
            config == self@.config,
    {
        self.config
    }

    /// How many publishes await their acknowledgement.
    pub fn len(&self) -> (n: usize)
        ensures
            n == self@.pending.len(),
    {
        self.pending.len()
    }

    /// Whether a publish with the packet id `id` awaits its
    /// acknowledgement.
    pub fn is_waiting_for(&self, id: u16) -> (b: bool)
        ensures
            b == awaits(self@.pending, id),
    {
        let mut i: usize = 0;
        while i < self.pending.len()
            invariant
                i <= self.pending@.len(),
                self@.pending == views(self.pending@),
                forall|j: int| 0 <= j < i ==> (#[trigger] self@.pending[j]).msg.packet_id != Some(id),
            decreases self.pending@.len() - i,
        {
            let found = self.pending[i].msg.get_packet_id();
            assert(self@.pending[i as int] == self.pending@[i as int]@);
            match found {
                Some(other) => {
                    if other == id {
                        return true;
                    }
                },
                None => {},
            }
            i = i + 1;
        }
        false
    }

    /// The entries of `source` that do not carry the packet id `id`.
    fn without(source: Vec<PendingPublish>, id: u16) -> (kept: Vec<PendingPublish>)
        ensures
            views(kept@) == without_packet(views(source@), id),
    {
        let ghost before = views(source@);
        let mut kept: Vec<PendingPublish> = Vec::new();
        assert(views(kept@) =~= without_packet(before.take(0), id));
        for entry in it: source
            invariant
                it.seq() == source@,
                before == views(source@),
                views(kept@) == without_packet(before.take(it.index() as int), id),
        {
            proof {
                lemma_take_next(before, it.index() as int);
                lemma_views_push(kept@, entry);
                assert(before[it.index() as int] == entry@);
            }
            let matches: bool = match entry.msg.get_packet_id() {
                Some(other) => other == id,
                None => false,
            };
            if !matches {
                kept.push(entry);
            }
        }
        assert(before.take(before.len() as int) =~= before);
        kept
    }

    /// Starts waiting for the acknowledgement of `msg`, sent at the time
    /// `now`. It replaces any publish that was waiting under the same packet
    /// id. A message without packet id needs no acknowledgement and is not
    /// taken.
    pub fn register(&mut self, msg: PublishMessage, now: u64) -> (taken: bool)
        ensures
            taken == (msg@.packet_id is Some),
            !taken ==> final(self)@ == old(self)@,
            msg@.packet_id matches Some(id) ==> final(self)@ == (RetransmitterView {
                pending: without_packet(old(self)@.pending, id).push(
                    PendingView {
                        msg: msg@,
                        deadline: deadline_after(now, old(self)@.config.initial_timeout),
                        timeout: old(self)@.config.initial_timeout,
                        retries: 0,
                    },
                ),
                ..old(self)@
            }),
            pending_wf(final(self)@.pending),
    {
        proof {
            use_type_invariant(&*self);
        }
        match msg.get_packet_id() {
            None => false,
            Some(id) => {
                let ghost before = self@.pending;
                let mut source: Vec<PendingPublish> = Vec::new();
                std::mem::swap(&mut self.pending, &mut source);
                let mut kept = Self::without(source, id);
                let entry = PendingPublish {
                    msg,
                    deadline: deadline_from(now, self.config.initial_timeout),
                    timeout: self.config.initial_timeout,
                    retries: 0,
                };
                proof {
                    lemma_views_push(kept@, entry);
                    lemma_register_keeps_ids_distinct(before, entry@, id);
                }
                kept.push(entry);
                self.pending = kept;
                true
            },
        }
    }

    /// Takes note of the acknowledgement of the packet id `id`: the publish
    /// that carried it waits no longer. Tells whether one was waiting.
    pub fn acknowledge(&mut self, id: u16) -> (was_waiting: bool)
        ensures
            was_waiting == awaits(old(self)@.pending, id),
            final(self)@ == (RetransmitterView {
                pending: without_packet(old(self)@.pending, id),
                ..old(self)@
            }),
            pending_wf(final(self)@.pending),
            !awaits(final(self)@.pending, id),
    {
        proof {
            use_type_invariant(&*self);
            lemma_without_packet(self@.pending, id);
        }
        let was_waiting = self.is_waiting_for(id);
        let mut source: Vec<PendingPublish> = Vec::new();
        std::mem::swap(&mut self.pending, &mut source);
        let kept = Self::without(source, id);
        self.pending = kept;
        was_waiting
    }

    /// Moves the clock to `now`. Every publish whose deadline has passed is
    /// sent again, with a longer wait, or given up if it was already sent
    /// again as often as allowed. What is given up is reported and waits no
    /// longer.
    pub fn tick(&mut self, now: u64) -> (outcome: TickOutcome)
        ensures
            final(self)@ == (RetransmitterView {
                pending: entries_after_tick(old(self)@.pending, now, old(self)@.config),
                ..old(self)@
            }),
            views(outcome.resend@) == resent_at(old(self)@.pending, now, old(self)@.config),
            views(outcome.given_up@) == given_up_at(old(self)@.pending, now, old(self)@.config),
            pending_wf(final(self)@.pending),
            all_left(views(outcome.given_up@), final(self)@.pending),
    {
        proof {
            use_type_invariant(&*self);
            lemma_tick_keeps_entries(self@.pending, now, self.config);
            lemma_given_up_all_left(self@.pending, now, self.config);
        }
        let config = self.config;
        let mut source: Vec<PendingPublish> = Vec::new();
        std::mem::swap(&mut self.pending, &mut source);
        let ghost before = views(source@);
        let mut kept: Vec<PendingPublish> = Vec::new();
        let mut resend: Vec<PublishMessage> = Vec::new();
        let mut given_up: Vec<PublishMessage> = Vec::new();
        assert(before.take(0) =~= Seq::empty());
        assert(views(kept@) =~= entries_after_tick(before.take(0), now, config));
        assert(views(resend@) =~= resent_at(before.take(0), now, config));
        assert(views(given_up@) =~= given_up_at(before.take(0), now, config));
        for entry in it: source
            invariant
                it.seq() == source@,
                before == views(source@),
                views(kept@) == entries_after_tick(before.take(it.index() as int), now, config),
                views(resend@) == resent_at(before.take(it.index() as int), now, config),
                views(given_up@) == given_up_at(before.take(it.index() as int), now, config),
        {
            proof {
                lemma_take_next(before, it.index() as int);
                assert(before[it.index() as int] == entry@);
            }
            if entry.deadline > now {
                proof {
                    lemma_views_push(kept@, entry);
                }
                kept.push(entry);
            } else if entry.retries >= config.max_retries {
                proof {
                    lemma_views_push(given_up@, entry.msg);
                }
                given_up.push(entry.msg);
            } else {
                let again = entry.msg.as_duplicate();
                let timeout = config.following_timeout(entry.timeout);
                let next = PendingPublish {
                    msg: again.duplicate(),
                    deadline: deadline_from(now, timeout),
                    timeout,
                    retries: entry.retries + 1,
                };
                proof {
                    lemma_views_push(kept@, next);
                    lemma_views_push(resend@, again);
                }
                kept.push(next);
                resend.push(again);
            }
        }
        assert(before.take(before.len() as int) =~= before);
        self.pending = kept;
        TickOutcome { resend, given_up }
    }

    /// Stops waiting for everything and hands back the messages that were
    /// waiting, in their order.
    pub fn drain(&mut self) -> (msgs: Vec<PublishMessage>)
        ensures
            final(self)@ == (RetransmitterView { pending: Seq::empty(), ..old(self)@ }),
            views(msgs@) == messages_of(old(self)@.pending),
            pending_wf(final(self)@.pending),
    {
        proof {
            use_type_invariant(&*self);
        }
        let mut source: Vec<PendingPublish> = Vec::new();
        std::mem::swap(&mut self.pending, &mut source);
        let ghost before = views(source@);
        let mut msgs: Vec<PublishMessage> = Vec::new();
        for entry in it: source
            invariant
                it.seq() == source@,
                before == views(source@),
                msgs@.len() == it.index(),
                forall|k: int| 0 <= k < msgs@.len() ==> (#[trigger] msgs@[k])@ == before[k].msg,
        {
            assert(before[it.index() as int] == entry@);
            msgs.push(entry.msg);
        }
        assert(views(msgs@) =~= messages_of(before));
        assert(views(self.pending@) =~= Seq::empty());
        msgs
    }
}

} // verus!
