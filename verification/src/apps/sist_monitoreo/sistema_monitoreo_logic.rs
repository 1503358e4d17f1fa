use crate::apps::incident_data::incident::{Incident, IncidentView};
use crate::apps::incident_data::incident_info::IncidentInfo;
use crate::apps::incident_data::incident_source::IncidentSource;
use crate::apps::sist_dron::dron_current_info::{DronCurrentInfo, DronCurrentInfoView};
use crate::apps::sist_dron::dron_state::DronState;
use crate::id_list::{copy_ids, insert_id, lemma_push_distinct, with_id};
use vstd::prelude::*;

verus! {

/// How many drones must reach an incident for it to count as resolved.
pub const DRONES_TO_RESOLVE: usize = 2;

/// An open incident together with the drones seen managing it.
#[derive(Debug)]
pub struct IncidentWithDrones {
    incident: Incident,
    drones: Vec<u8>,
}

/// An open incident and its drones as plain values.
pub struct IncidentWithDronesView {
    pub incident: IncidentView,
    pub drones: Seq<u8>,
}

impl View for IncidentWithDrones {
    type V = IncidentWithDronesView;

    closed spec fn view(&self) -> IncidentWithDronesView {
        IncidentWithDronesView { incident: self.incident@, drones: self.drones@ }
    }
}

impl IncidentWithDronesView {
    /// An incident that is still open: not resolved, and seen by fewer
    /// drones than it takes to resolve it, none counted twice.
    pub open spec fn is_open(self) -> bool {
        &&& !self.incident.resolved
        &&& self.drones.no_duplicates()
        &&& self.drones.len() < DRONES_TO_RESOLVE
    }

    /// Whether what a drone says of itself counts towards this incident:
    /// the drone is at the place of an incident with this incident's id.
    pub open spec fn concerns(self, dron: DronCurrentInfoView) -> bool {
        dron.state == DronState::ManagingIncident && dron.inc_id_to_resolve == Some(
            self.incident.id,
        )
    }

    /// The entry after the monitor has heard `dron`.
    pub open spec fn observe(self, dron: DronCurrentInfoView) -> IncidentWithDronesView {
        if self.concerns(dron) {
            IncidentWithDronesView { drones: with_id(self.drones, dron.id), ..self }
        } else {
            self
        }
    }

    /// Whether enough distinct drones were seen at the incident.
    pub open spec fn has_quorum(self) -> bool {
        self.drones.len() >= DRONES_TO_RESOLVE
    }
}

/// The entries that stay open after the monitor has heard `dron`, in
/// their order.
pub open spec fn still_open(entries: Seq<IncidentWithDronesView>, dron: DronCurrentInfoView) -> Seq<
    IncidentWithDronesView,
>
    decreases entries.len(),
{
    if entries.len() == 0 {
        Seq::empty()
    } else {
        let rest = still_open(entries.drop_last(), dron);
        let entry = entries.last().observe(dron);
        if entry.has_quorum() {
            rest
        } else {
            rest.push(entry)
        }
    }
}

/// The incidents that become resolved when the monitor hears `dron`, in
/// their order, each marked as resolved.
pub open spec fn newly_resolved(entries: Seq<IncidentWithDronesView>, dron: DronCurrentInfoView) -> Seq<
    IncidentView,
>
    decreases entries.len(),
{
    if entries.len() == 0 {
        Seq::empty()
    } else {
        let rest = newly_resolved(entries.drop_last(), dron);
        let entry = entries.last().observe(dron);
        if entry.has_quorum() {
            rest.push(IncidentView { resolved: true, ..entry.incident })
        } else {
            rest
        }
    }
}

/// No two entries are about the same incident.
pub open spec fn distinct_incidents(entries: Seq<IncidentWithDronesView>) -> bool {
    forall|i: int, j: int|
        0 <= i < entries.len() && 0 <= j < entries.len() && i != j ==> (
        #[trigger] entries[i]).incident.info() != (#[trigger] entries[j]).incident.info()
}

/// What holds of the monitor's table at all times.
pub open spec fn tracker_wf(entries: Seq<IncidentWithDronesView>) -> bool {
    &&& distinct_incidents(entries)
    &&& forall|i: int| 0 <= i < entries.len() ==> (#[trigger] entries[i]).is_open()
}

/// Whether the table has an entry for the incident `info`.
pub open spec fn is_tracked(entries: Seq<IncidentWithDronesView>, info: IncidentInfo) -> bool {
    exists|i: int| 0 <= i < entries.len() && (#[trigger] entries[i]).incident.info() == info
}

/// An incident becomes resolved only once two distinct drones were seen
/// managing it: every incident that hearing `dron` resolves was open in the
/// table and, with `dron` counted, has been seen by at least two different
/// drones, each of them at the place of an incident with its id.
pub proof fn lemma_resolved_only_with_quorum(
    entries: Seq<IncidentWithDronesView>,
    dron: DronCurrentInfoView,
    k: int,
)
    requires
        tracker_wf(entries),
        0 <= k < newly_resolved(entries, dron).len(),
    ensures
        newly_resolved(entries, dron)[k].resolved,
        exists|i: int|
            {
                &&& 0 <= i < entries.len()
                &&& !(#[trigger] entries[i]).incident.resolved
                &&& newly_resolved(entries, dron)[k] == (IncidentView {
                    resolved: true,
                    ..entries[i].incident
                })
                &&& entries[i].concerns(dron)
                &&& entries[i].observe(dron).drones.no_duplicates()
                &&& entries[i].observe(dron).drones.len() >= 2
                &&& entries[i].observe(dron).drones.contains(dron.id)
            },
    decreases entries.len(),
{
    let last = entries.last();
    let head = entries.drop_last();
    let entry = last.observe(dron);
    let rest = newly_resolved(head, dron);
    assert(tracker_wf(head)) by {
        assert forall|i: int| 0 <= i < head.len() implies (#[trigger] head[i]).is_open() by {
            assert(head[i] == entries[i]);
        }
        assert forall|i: int, j: int|
            0 <= i < head.len() && 0 <= j < head.len() && i != j implies (
        #[trigger] head[i]).incident.info() != (#[trigger] head[j]).incident.info() by {
            assert(head[i] == entries[i] && head[j] == entries[j]);
        }
    }
    if k < rest.len() {
        lemma_resolved_only_with_quorum(head, dron, k);
        let i = choose|i: int|
            {
                &&& 0 <= i < head.len()
                &&& !(#[trigger] head[i]).incident.resolved
                &&& rest[k] == (IncidentView { resolved: true, ..head[i].incident })
                &&& head[i].concerns(dron)
                &&& head[i].observe(dron).drones.no_duplicates()
                &&& head[i].observe(dron).drones.len() >= 2
                &&& head[i].observe(dron).drones.contains(dron.id)
            };
        assert(entries[i] == head[i]);
    } else {
        let i = entries.len() - 1;
        assert(entries[i] == last);
        assert(last.is_open());
        assert(entry.has_quorum());
        if !last.drones.contains(dron.id) {
            lemma_push_distinct(last.drones, dron.id);
        }
    }
}

/// What the monitoring station knows about open incidents.
#[derive(Debug)]
pub struct MonitoreoLogic {
    incidents: Vec<IncidentWithDrones>,
    last_incident_id: u8,
}

/// The monitor's knowledge as plain values.
pub struct MonitoreoLogicView {
    pub incidents: Seq<IncidentWithDronesView>,
    pub last_incident_id: u8,
}

impl View for MonitoreoLogic {
    type V = MonitoreoLogicView;

    closed spec fn view(&self) -> MonitoreoLogicView {
        MonitoreoLogicView {
            incidents: Seq::new(self.incidents@.len(), |i: int| self.incidents@[i]@),
            last_incident_id: self.last_incident_id,
        }
    }
}

/// The id that follows `last`: ids run from 1 to 255 and start over, since
/// 0 names no incident.
pub open spec fn next_incident_id(last: u8) -> u8 {
    if last == 255 {
        1
    } else {
        (last + 1) as u8
    }
}

impl MonitoreoLogic {
    #[verifier::type_invariant]
    spec fn well_formed(self) -> bool {
        tracker_wf(self@.incidents)
    }

    /// A monitor that knows of no incident.
    pub fn new() -> (logic: Self)
        ensures
            logic@ == (MonitoreoLogicView { incidents: Seq::empty(), last_incident_id: 0 }),
    {
        let logic = MonitoreoLogic { incidents: Vec::new(), last_incident_id: 0 };
        assert(logic@.incidents =~= Seq::empty());
        logic
    }

    /// States what every monitor satisfies.
    pub fn check_well_formed(&self)
        ensures
            tracker_wf(self@.incidents),
    {
        proof {
            use_type_invariant(self);
        }
    }

    /// The id for the next incident that an operator raises.
    pub fn get_next_incident_id(&mut self) -> (id: u8)
        ensures
            id == next_incident_id(old(self)@.last_incident_id),
            id != 0,
            final(self)@ == (MonitoreoLogicView { last_incident_id: id, ..old(self)@ }),
    {
        proof {
            use_type_invariant(&*self);
        }
        let id: u8 = if self.last_incident_id == 255 {
            1
        } else {
            self.last_incident_id + 1
        };
        self.last_incident_id = id;
        id
    }

    /// How many incidents are open.
    pub fn open_incidents(&self) -> (n: usize)
        ensures
            n == self@.incidents.len(),
    {
        self.incidents.len()
    }

    /// Where the incident `info` stands in the table, if it is there.
    fn position_of(&self, info: IncidentInfo) -> (r: Option<usize>)
        ensures
            match r {
                Some(i) => i < self@.incidents.len() && self@.incidents[i as int].incident.info()
                    == info,
                None => !is_tracked(self@.incidents, info),
            },
    {
        let mut i: usize = 0;
        while i < self.incidents.len()
            invariant
                i <= self.incidents@.len(),
                self@.incidents.len() == self.incidents@.len(),
                forall|j: int| 0 <= j < i ==> (#[trigger] self@.incidents[j]).incident.info() != info,
            decreases self.incidents@.len() - i,
        {
            assert(self@.incidents[i as int] == self.incidents@[i as int]@);
            if self.incidents[i].incident.get_info() == info {
                return Some(i);
            }
            i = i + 1;
        }
        None
    }

    /// Whether the incident `info` is open.
    pub fn is_open(&self, info: IncidentInfo) -> (b: bool)
        ensures
            b == is_tracked(self@.incidents, info),
    {
        self.position_of(info).is_some()
    }

    /// Starts keeping track of an incident that is not resolved and not yet
    /// known. Any other incident leaves the table as it is.
    pub fn add_incident(&mut self, incident: &Incident)
        ensures
            final(self)@ == (MonitoreoLogicView {
                incidents: if incident@.resolved || is_tracked(
                    old(self)@.incidents,
                    incident@.info(),
                ) {
                    old(self)@.incidents
                } else {
                    old(self)@.incidents.push(
                        IncidentWithDronesView { incident: incident@, drones: Seq::empty() },
                    )
                },
                ..old(self)@
            }),
    {
        proof {
            use_type_invariant(&*self);
        }
        if incident.is_resolved() || self.position_of(incident.get_info()).is_some() {
            return ;
        }
        let ghost before = self@.incidents;
        let mut updated: Vec<IncidentWithDrones> = Vec::new();
        let mut i: usize = 0;
        while i < self.incidents.len()
            invariant
                i <= self.incidents@.len(),
                before == self@.incidents,
                before.len() == self.incidents@.len(),
                updated@.len() == i,
                forall|k: int| 0 <= k < i ==> (#[trigger] updated@[k])@ == before[k],
            decreases self.incidents@.len() - i,
        {
            assert(before[i as int] == self.incidents@[i as int]@);
            updated.push(
                IncidentWithDrones {
                    incident: self.incidents[i].incident,
                    drones: copy_ids(&self.incidents[i].drones),
                },
            );
            i = i + 1;
        }
        updated.push(IncidentWithDrones { incident: *incident, drones: Vec::new() });
        proof {
            let after = Seq::new(updated@.len(), |k: int| updated@[k]@);
            let added = IncidentWithDronesView { incident: incident@, drones: Seq::empty() };
            assert(after =~= before.push(added));
            assert forall|i: int, j: int|
                0 <= i < after.len() && 0 <= j < after.len() && i != j implies (
            #[trigger] after[i]).incident.info() != (#[trigger] after[j]).incident.info() by {
                if i < before.len() && j < before.len() {
                    assert(before[i].incident.info() != before[j].incident.info());
                } else if i < before.len() {
                    assert(before[i].incident.info() != incident@.info());
                } else {
                    assert(before[j].incident.info() != incident@.info());
                }
            }
        }
        self.incidents = updated;
    }

    /// Takes note of an incident heard on the incidents topic. Incidents
    /// raised by an operator are known since they were raised; those of the
    /// detector are first heard of here.
    pub fn handle_incident_message(&mut self, incident: &Incident)
        ensures
            final(self)@ == (MonitoreoLogicView {
                incidents: if incident@.source == IncidentSource::Manual || incident@.resolved
                    || is_tracked(old(self)@.incidents, incident@.info()) {
                    old(self)@.incidents
                } else {
                    old(self)@.incidents.push(
                        IncidentWithDronesView { incident: incident@, drones: Seq::empty() },
                    )
                },
                ..old(self)@
            }),
    {
        if incident.get_source() != IncidentSource::Manual {
            self.add_incident(incident);
        }
    }

    /// Takes note of what a drone publishes about itself.
    ///
    /// A drone at the place of an incident counts, once, towards every open
    /// incident with that id. Each incident that two drones have reached
    /// leaves the table and comes back marked as resolved, to be published.
    pub fn handle_drone_message(&mut self, dron: &DronCurrentInfo) -> (resolved: Vec<Incident>)
        ensures
            final(self)@ == (MonitoreoLogicView {
                incidents: still_open(old(self)@.incidents, dron@),
                ..old(self)@
            }),
            resolved@.len() == newly_resolved(old(self)@.incidents, dron@).len(),
            forall|k: int|
                0 <= k < resolved@.len() ==> (#[trigger] resolved@[k])@ == newly_resolved(
                    old(self)@.incidents,
                    dron@,
                )[k],
    {
        proof {
            use_type_invariant(&*self);
        }
        let ghost before = self@.incidents;
        let concerned: Option<u8> = if dron.get_state() == DronState::ManagingIncident {
            dron.get_inc_id_to_resolve()
        } else {
            None
        };
        let mut kept: Vec<IncidentWithDrones> = Vec::new();
        let mut resolved: Vec<Incident> = Vec::new();
        let mut i: usize = 0;
        assert(before.take(0) =~= Seq::empty());
        while i < self.incidents.len()
            invariant
                i <= self.incidents@.len(),
                before == self@.incidents,
                before.len() == self.incidents@.len(),
                tracker_wf(before),
                concerned == (if dron@.state == DronState::ManagingIncident {
                    dron@.inc_id_to_resolve
                } else {
                    None
                }),
                kept@.len() == still_open(before.take(i as int), dron@).len(),
                forall|k: int|
                    0 <= k < kept@.len() ==> (#[trigger] kept@[k])@ == still_open(
                        before.take(i as int),
                        dron@,
                    )[k],
                resolved@.len() == newly_resolved(before.take(i as int), dron@).len(),
                forall|k: int|
                    0 <= k < resolved@.len() ==> (#[trigger] resolved@[k])@ == newly_resolved(
                        before.take(i as int),
                        dron@,
                    )[k],
            decreases self.incidents@.len() - i,
        {
            let ghost entry = before[i as int];
            assert(entry == self.incidents@[i as int]@);
            assert(entry.is_open());
            assert(before.take(i + 1).drop_last() =~= before.take(i as int));
            assert(before.take(i + 1).last() == entry);
            let mut incident = self.incidents[i].incident;
            let mut drones = copy_ids(&self.incidents[i].drones);
            if concerned == Some(incident.get_id()) {
                insert_id(&mut drones, dron.get_id());
            }
            assert(drones@ == entry.observe(dron@).drones);
            if drones.len() >= DRONES_TO_RESOLVE {
                incident.set_resolved();
                resolved.push(incident);
            } else {
                kept.push(IncidentWithDrones { incident, drones });
            }
            i = i + 1;
        }
        proof {
            assert(before.take(i as int) =~= before);
            let after = Seq::new(kept@.len(), |k: int| kept@[k]@);
            assert(after =~= still_open(before, dron@));
            lemma_still_open_wf(before, dron@);
        }
        self.incidents = kept;
        resolved
    }
}

/// The entries that stay open form a well-formed table, and each of them
/// comes from an entry of the table before.
pub proof fn lemma_still_open_wf(entries: Seq<IncidentWithDronesView>, dron: DronCurrentInfoView)
    requires
        tracker_wf(entries),
    ensures
        tracker_wf(still_open(entries, dron)),
        forall|k: int|
            0 <= k < still_open(entries, dron).len() ==> exists|i: int|
                0 <= i < entries.len() && (#[trigger] entries[i]).incident == (
                #[trigger] still_open(entries, dron)[k]).incident,
    decreases entries.len(),
{
    if entries.len() > 0 {
        let head = entries.drop_last();
        let last = entries.last();
        assert forall|i: int| 0 <= i < head.len() implies (#[trigger] head[i]).is_open() by {
            assert(head[i] == entries[i]);
        }
        assert forall|i: int, j: int|
            0 <= i < head.len() && 0 <= j < head.len() && i != j implies (
        #[trigger] head[i]).incident.info() != (#[trigger] head[j]).incident.info() by {
            assert(head[i] == entries[i] && head[j] == entries[j]);
        }
        lemma_still_open_wf(head, dron);
        let rest = still_open(head, dron);
        let out = still_open(entries, dron);
        let entry = last.observe(dron);
        assert(last == entries[entries.len() - 1]);
        assert(last.is_open());
        if !last.drones.contains(dron.id) {
            lemma_push_distinct(last.drones, dron.id);
        }
        assert forall|k: int| 0 <= k < out.len() implies exists|i: int|
            0 <= i < entries.len() && (#[trigger] entries[i]).incident == (#[trigger] out[k]).incident by {
            if k < rest.len() {
                assert(out[k] == rest[k]);
                let i = choose|i: int|
                    0 <= i < head.len() && (#[trigger] head[i]).incident == rest[k].incident;
                assert(entries[i] == head[i]);
            } else {
                assert(entries[entries.len() - 1].incident == out[k].incident);
            }
        }
        assert forall|k: int| 0 <= k < out.len() implies (#[trigger] out[k]).is_open() by {
            if k < rest.len() {
                assert(out[k] == rest[k]);
            }
        }
        assert forall|a: int, b: int|
            0 <= a < out.len() && 0 <= b < out.len() && a != b implies (
        #[trigger] out[a]).incident.info() != (#[trigger] out[b]).incident.info() by {
            if a < rest.len() && b < rest.len() {
                assert(out[a] == rest[a] && out[b] == rest[b]);
            } else if a < rest.len() {
                assert(out[a] == rest[a]);
                let i = choose|i: int|
                    0 <= i < head.len() && (#[trigger] head[i]).incident == rest[a].incident;
                assert(entries[i] == head[i]);
                assert(entries[i].incident.info() != entries[entries.len() - 1].incident.info());
            } else {
                assert(out[b] == rest[b]);
                let i = choose|i: int|
                    0 <= i < head.len() && (#[trigger] head[i]).incident == rest[b].incident;
                assert(entries[i] == head[i]);
                assert(entries[i].incident.info() != entries[entries.len() - 1].incident.info());
            }
        }
    }
}

} // verus!
