use crate::apps::incident_data::incident::Incident;
use crate::apps::sist_camaras::camera::{Camera, CameraView};
use crate::apps::sist_camaras::camera_state::CameraState;
use crate::id_list::{
    contains_id, lemma_push_distinct, lemma_without_distinct, with_id, without_id,
};
use vstd::prelude::*;

verus! {

/// Whether some camera of `cams` has the id `id`.
pub open spec fn has_camera(cams: Seq<CameraView>, id: u8) -> bool {
    exists|i: int| 0 <= i < cams.len() && (#[trigger] cams[i]).id == id
}

/// No two cameras share an id.
pub open spec fn distinct_ids(cams: Seq<CameraView>) -> bool {
    forall|i: int, j: int|
        0 <= i < cams.len() && 0 <= j < cams.len() && i != j ==> (#[trigger] cams[i]).id != (
        #[trigger] cams[j]).id
}

/// Bordering is mutual: a camera names another as bordering exactly when
/// the other names it.
pub open spec fn borders_symmetric(cams: Seq<CameraView>) -> bool {
    forall|i: int, j: int|
        0 <= i < cams.len() && 0 <= j < cams.len() ==> ((#[trigger] cams[i]).border_cameras.contains(
            (#[trigger] cams[j]).id,
        ) <==> cams[j].border_cameras.contains(cams[i].id))
}

/// Every id named as bordering is the id of a camera of the table.
pub open spec fn borders_closed(cams: Seq<CameraView>) -> bool {
    forall|i: int, b: u8|
        0 <= i < cams.len() && (#[trigger] cams[i].border_cameras.contains(b)) ==> has_camera(
            cams,
            b,
        )
}

/// What holds of the cameras of a table at all times.
pub open spec fn table_wf(cams: Seq<CameraView>) -> bool {
    &&& distinct_ids(cams)
    &&& borders_symmetric(cams)
    &&& borders_closed(cams)
    &&& forall|i: int|
        0 <= i < cams.len() ==> {
            &&& (#[trigger] cams[i]).wf()
            &&& !cams[i].deleted
            &&& cams[i].state_matches_incidents()
        }
}

/// Whether the camera at `path[i]` names the camera at `path[i + 1]` as
/// bordering.
pub open spec fn wakes_next(cams: Seq<CameraView>, path: Seq<int>, i: int) -> bool {
    cams[path[i]].border_cameras.contains(cams[path[i + 1]].id)
}

/// Whether `path` is a way by which an incident that lies within the
/// range of the cameras `in_range` wakes cameras up: it starts at a camera
/// in range, and each of its cameras names the next as bordering.
pub open spec fn is_cascade(cams: Seq<CameraView>, in_range: Seq<u8>, path: Seq<int>) -> bool {
    &&& path.len() > 0
    &&& forall|i: int| 0 <= i < path.len() ==> 0 <= #[trigger] path[i] < cams.len()
    &&& in_range.contains(cams[path[0]].id)
    &&& forall|i: int| 0 <= i < path.len() - 1 ==> #[trigger] wakes_next(cams, path, i)
}

/// Whether the camera at `c` attends to an incident that lies within the
/// range of the cameras `in_range`: the incident wakes up the cameras in
/// range, these wake up the cameras that border them, and so on.
pub open spec fn follows(cams: Seq<CameraView>, in_range: Seq<u8>, c: int) -> bool {
    exists|path: Seq<int>| #[trigger] is_cascade(cams, in_range, path) && path.last() == c
}

/// The camera after it has learnt of the incident `inc_id`: a resolved
/// incident is dropped; a new one is taken up if the camera attends to
/// it.
pub open spec fn after_incident(
    camera: CameraView,
    inc_id: u8,
    resolved: bool,
    attends: bool,
) -> CameraView {
    if resolved {
        if camera.incs_being_managed.contains(inc_id) {
            CameraView {
                state: CameraView::state_for(without_id(camera.incs_being_managed, inc_id)),
                incs_being_managed: without_id(camera.incs_being_managed, inc_id),
                ..camera
            }
        } else {
            camera
        }
    } else if attends {
        CameraView {
            state: CameraState::Active,
            incs_being_managed: with_id(camera.incs_being_managed, inc_id),
            ..camera
        }
    } else {
        camera
    }
}

/// A camera in range attends to the incident.
pub proof fn lemma_cascade_start(cams: Seq<CameraView>, in_range: Seq<u8>, c: int)
    requires
        0 <= c < cams.len(),
        in_range.contains(cams[c].id),
    ensures
        follows(cams, in_range, c),
{
    let path = seq![c];
    assert(is_cascade(cams, in_range, path));
    assert(path.last() == c);
}

/// A camera named as bordering by a camera that attends to the incident
/// attends to it too.
pub proof fn lemma_cascade_next(cams: Seq<CameraView>, in_range: Seq<u8>, a: int, c: int)
    requires
        0 <= c < cams.len(),
        follows(cams, in_range, a),
        cams[a].border_cameras.contains(cams[c].id),
    ensures
        follows(cams, in_range, c),
{
    let path = choose|path: Seq<int>| #[trigger]
        is_cascade(cams, in_range, path) && path.last() == a;
    let longer = path.push(c);
    assert forall|i: int| 0 <= i < longer.len() - 1 implies #[trigger] wakes_next(
        cams,
        longer,
        i,
    ) by {
        if i < path.len() - 1 {
            assert(wakes_next(cams, path, i));
            assert(longer[i] == path[i] && longer[i + 1] == path[i + 1]);
        }
    }
    assert forall|i: int| 0 <= i < longer.len() implies 0 <= #[trigger] longer[i] < cams.len() by {
        if i < path.len() {
            assert(longer[i] == path[i]);
        }
    }
    assert(longer[0] == path[0]);
    assert(is_cascade(cams, in_range, longer));
    assert(longer.last() == c);
}

/// A way that is longer than one camera is a way to its last camera but
/// one, followed by one more step.
pub proof fn lemma_cascade_before(cams: Seq<CameraView>, in_range: Seq<u8>, path: Seq<int>)
    requires
        is_cascade(cams, in_range, path),
        path.len() > 1,
    ensures
        is_cascade(cams, in_range, path.drop_last()),
        follows(cams, in_range, path[path.len() - 2]),
        cams[path[path.len() - 2]].border_cameras.contains(cams[path.last()].id),
{
    let shorter = path.drop_last();
    assert forall|i: int| 0 <= i < shorter.len() implies 0 <= #[trigger] shorter[i]
        < cams.len() by {
        assert(shorter[i] == path[i]);
    }
    assert forall|i: int| 0 <= i < shorter.len() - 1 implies #[trigger] wakes_next(
        cams,
        shorter,
        i,
    ) by {
        assert(wakes_next(cams, path, i));
        assert(shorter[i] == path[i] && shorter[i + 1] == path[i + 1]);
    }
    assert(shorter[0] == path[0]);
    assert(is_cascade(cams, in_range, shorter));
    assert(shorter.last() == path[path.len() - 2]);
    assert(wakes_next(cams, path, path.len() - 2));
}

/// How many cameras are not marked.
pub open spec fn unmarked(marks: Seq<bool>) -> nat
    decreases marks.len(),
{
    if marks.len() == 0 {
        0
    } else {
        unmarked(marks.drop_last()) + if marks.last() {
            0nat
        } else {
            1nat
        }
    }
}

/// Marking one more camera leaves one camera less unmarked.
pub proof fn lemma_mark(marks: Seq<bool>, i: int)
    requires
        0 <= i < marks.len(),
        !marks[i],
    ensures
        unmarked(marks.update(i, true)) + 1 == unmarked(marks),
    decreases marks.len(),
{
    let after = marks.update(i, true);
    if i == marks.len() - 1 {
        assert(after.drop_last() =~= marks.drop_last());
    } else {
        lemma_mark(marks.drop_last(), i);
        assert(after.drop_last() =~= marks.drop_last().update(i, true));
    }
}

/// Marks that hold every camera in range and every camera that a marked
/// one names as bordering hold every camera that the incident wakes up.
pub proof fn lemma_closed_marks_cover(
    cams: Seq<CameraView>,
    in_range: Seq<u8>,
    marks: Seq<bool>,
    path: Seq<int>,
)
    requires
        marks.len() == cams.len(),
        forall|c: int| 0 <= c < cams.len() && in_range.contains(cams[c].id) ==> #[trigger] marks[c],
        forall|a: int, c: int|
            0 <= a < cams.len() && 0 <= c < cams.len() && #[trigger] marks[a]
                && cams[a].border_cameras.contains(cams[c].id) ==> #[trigger] marks[c],
        is_cascade(cams, in_range, path),
    ensures
        marks[path.last()],
    decreases path.len(),
{
    if path.len() > 1 {
        lemma_cascade_before(cams, in_range, path);
        lemma_closed_marks_cover(cams, in_range, marks, path.drop_last());
        let a = path[path.len() - 2];
        let c = path.last();
        assert(path.drop_last().last() == a);
        assert(0 <= path[path.len() - 1] < cams.len());
        assert(marks[a]);
    } else {
        assert(0 <= path[0] < cams.len());
    }
}

/// A camera that learns of an incident stays well formed, keeps its id, its
/// bordering cameras and its place, and stays active exactly when it
/// manages an incident.
pub proof fn lemma_after_incident(camera: CameraView, inc_id: u8, resolved: bool, attends: bool)
    requires
        camera.wf(),
    ensures
        after_incident(camera, inc_id, resolved, attends).wf(),
        after_incident(camera, inc_id, resolved, attends).id == camera.id,
        after_incident(camera, inc_id, resolved, attends).border_cameras
            == camera.border_cameras,
        after_incident(camera, inc_id, resolved, attends).deleted == camera.deleted,
        camera.state_matches_incidents() ==> after_incident(
            camera,
            inc_id,
            resolved,
            attends,
        ).state_matches_incidents(),
        resolved ==> !after_incident(
            camera,
            inc_id,
            resolved,
            attends,
        ).incs_being_managed.contains(inc_id),
{
    let incs = camera.incs_being_managed;
    if incs.contains(inc_id) {
        lemma_without_distinct(incs, inc_id);
    } else {
        lemma_push_distinct(incs, inc_id);
    }
}

/// The camera after the camera `id` has joined the table: it names the
/// newcomer as bordering when it is one of the cameras `near` it.
pub open spec fn after_arrival(camera: CameraView, id: u8, near: Seq<u8>) -> CameraView {
    if near.contains(camera.id) {
        CameraView { border_cameras: with_id(camera.border_cameras, id), ..camera }
    } else {
        camera
    }
}

/// The camera after the camera `id` has left the table.
pub open spec fn after_departure(camera: CameraView, id: u8) -> CameraView {
    CameraView { border_cameras: without_id(camera.border_cameras, id), ..camera }
}

/// Where the camera `id` stands in `cams`.
pub open spec fn position_of_camera(cams: Seq<CameraView>, id: u8) -> int {
    choose|i: int| 0 <= i < cams.len() && (#[trigger] cams[i]).id == id
}

/// The table without the camera `id`: the others keep their order and
/// forget it as a bordering camera.
pub open spec fn without_camera(cams: Seq<CameraView>, id: u8) -> Seq<CameraView> {
    let p = position_of_camera(cams, id);
    Seq::new(
        (cams.len() - 1) as nat,
        |k: int|
            after_departure(
                cams[if k < p {
                    k
                } else {
                    k + 1
                }],
                id,
            ),
    )
}

/// The cameras of the system, with the rules by which they wake up and go
/// back to sleep.
#[derive(Debug)]
pub struct CamerasLogic {
    cameras: Vec<Camera>,
}

impl View for CamerasLogic {
    type V = Seq<CameraView>;

    closed spec fn view(&self) -> Seq<CameraView> {
        Seq::new(self.cameras@.len(), |i: int| self.cameras@[i]@)
    }
}

/// A camera attends to an incident exactly when it is in range itself or
/// is named as bordering by a camera that attends to it.
pub proof fn lemma_follows_is_cascade(cams: Seq<CameraView>, c: int, in_range: Seq<u8>)
    requires
        0 <= c < cams.len(),
    ensures
        follows(cams, in_range, c) <==> (in_range.contains(cams[c].id) || exists|a: int|
            0 <= a < cams.len() && #[trigger] follows(cams, in_range, a)
                && cams[a].border_cameras.contains(cams[c].id)),
{
    if follows(cams, in_range, c) && !in_range.contains(cams[c].id) {
        let path = choose|path: Seq<int>| #[trigger]
            is_cascade(cams, in_range, path) && path.last() == c;
        lemma_cascade_before(cams, in_range, path);
        let a = path[path.len() - 2];
        assert(0 <= path[path.len() - 2] < cams.len());
        assert(follows(cams, in_range, a) && cams[a].border_cameras.contains(cams[c].id));
    }
    if exists|a: int|
        0 <= a < cams.len() && #[trigger] follows(cams, in_range, a)
            && cams[a].border_cameras.contains(cams[c].id) {
        let a = choose|a: int|
            0 <= a < cams.len() && #[trigger] follows(cams, in_range, a)
                && cams[a].border_cameras.contains(cams[c].id);
        lemma_cascade_next(cams, in_range, a, c);
    }
    if in_range.contains(cams[c].id) {
        lemma_cascade_start(cams, in_range, c);
    }
}

/// In every table, bordering is symmetric: `b` is among the bordering
/// cameras of `a` exactly when `a` is among those of `b`.
pub proof fn lemma_border_symmetric(cams: Seq<CameraView>, a: int, b: int)
    requires
        table_wf(cams),
        0 <= a < cams.len(),
        0 <= b < cams.len(),
    ensures
        cams[a].border_cameras.contains(cams[b].id) <==> cams[b].border_cameras.contains(
            cams[a].id,
        ),
{
}

/// In every table, a camera is active exactly when it manages an incident.
pub proof fn lemma_active_iff_managing(cams: Seq<CameraView>, k: int)
    requires
        table_wf(cams),
        0 <= k < cams.len(),
    ensures
        cams[k].state == CameraState::Active <==> cams[k].incs_being_managed.len() > 0,
{
}

impl CamerasLogic {
    #[verifier::type_invariant]
    spec fn well_formed(self) -> bool {
        table_wf(self@)
    }

    /// A table without cameras.
    pub fn new() -> (logic: Self)
        ensures
            logic@ == Seq::<CameraView>::empty(),
    {
        let logic = CamerasLogic { cameras: Vec::new() };
        assert(logic@ =~= Seq::<CameraView>::empty());
        logic
    }

    /// States what every table satisfies.
    pub fn check_well_formed(&self)
        ensures
            table_wf(self@),
    {
        proof {
            use_type_invariant(self);
        }
    }

    pub fn len(&self) -> (n: usize)
        ensures
            n == self@.len(),
    {
        self.cameras.len()
    }

    /// The cameras of the table, in their order.
    pub fn get_cameras(&self) -> (cameras: &Vec<Camera>)
        ensures
            cameras@.len() == self@.len(),
            forall|i: int| 0 <= i < cameras@.len() ==> (#[trigger] cameras@[i])@ == self@[i],
    {
        &self.cameras
    }

    /// Where the camera `id` stands in the table, if it is there.
    pub fn position_of(&self, id: u8) -> (r: Option<usize>)
        ensures
            match r {
                Some(i) => i < self@.len() && self@[i as int].id == id,
                None => !has_camera(self@, id),
            },
    {
        let mut i: usize = 0;
        while i < self.cameras.len()
            invariant
                i <= self.cameras@.len(),
                self@.len() == self.cameras@.len(),
                forall|j: int| 0 <= j < i ==> (#[trigger] self@[j]).id != id,
            decreases self.cameras@.len() - i,
        {
            if self.cameras[i].get_id() == id {
                return Some(i);
            }
            i = i + 1;
        }
        None
    }

    /// Whether a camera that borders the camera at `i` is marked.
    fn has_marked_neighbour(&self, i: usize, marks: &Vec<bool>) -> (b: bool)
        requires
            i < self@.len(),
            marks@.len() == self@.len(),
        ensures
            b == exists|a: int|
                0 <= a < self@.len() && #[trigger] marks@[a] && self@[a].border_cameras.contains(
                    self@[i as int].id,
                ),
    {
        proof {
            use_type_invariant(self);
        }
        let ghost cams = self@;
        assert(cams[i as int] == self.cameras@[i as int]@);
        let border = self.cameras[i].get_bordering_cams();
        let mut j: usize = 0;
        while j < border.len()
            invariant
                j <= border@.len(),
                i < cams.len(),
                cams == self@,
                table_wf(cams),
                marks@.len() == cams.len(),
                border@ == cams[i as int].border_cameras,
                forall|k: int, a: int|
                    0 <= k < j && 0 <= a < cams.len() && (#[trigger] cams[a]).id
                        == #[trigger] border@[k] ==> !marks@[a],
            decreases border@.len() - j,
        {
            assert(cams[i as int].border_cameras.contains(border@[j as int]));
            match self.position_of(border[j]) {
                Some(p) => {
                    if marks[p] {
                        assert(cams[p as int].border_cameras.contains(cams[i as int].id));
                        return true;
                    }
                    assert forall|a: int|
                        0 <= a < cams.len() && (#[trigger] cams[a]).id
                            == border@[j as int] implies !marks@[a] by {
                        assert(cams[a].id == cams[p as int].id);
                    }
                },
                None => {},
            }
            j = j + 1;
        }
        assert forall|a: int|
            0 <= a < cams.len() && #[trigger] marks@[a] implies !cams[a].border_cameras.contains(
            cams[i as int].id,
        ) by {
            if cams[a].border_cameras.contains(cams[i as int].id) {
                assert(cams[i as int].border_cameras.contains(cams[a].id));
                let k = choose|k: int| 0 <= k < border@.len() && border@[k] == cams[a].id;
                assert(cams[a].id == border@[k]);
            }
        }
        false
    }

    /// Tells, for each camera of the table, whether it attends to an
    /// incident that lies within the range of the cameras `in_range`.
    pub fn attending(&self, in_range: &Vec<u8>) -> (marks: Vec<bool>)
        ensures
            marks@.len() == self@.len(),
            forall|c: int|
                0 <= c < self@.len() ==> #[trigger] marks@[c] == follows(self@, in_range@, c),
    {
        let ghost cams = self@;
        let n = self.cameras.len();
        let mut marks: Vec<bool> = Vec::new();
        let mut i: usize = 0;
        while i < n
            invariant
                i <= n,
                n == self.cameras@.len(),
                cams == self@,
                cams.len() == n,
                marks@.len() == i,
                forall|c: int|
                    0 <= c < i ==> #[trigger] marks@[c] == in_range@.contains(cams[c].id),
            decreases n - i,
        {
            assert(cams[i as int] == self.cameras@[i as int]@);
            marks.push(contains_id(in_range, self.cameras[i].get_id()));
            i = i + 1;
        }
        assert forall|c: int| 0 <= c < n && #[trigger] marks@[c] implies follows(
            cams,
            in_range@,
            c,
        ) by {
            lemma_cascade_start(cams, in_range@, c);
        }
        let mut changed: bool = true;
        while changed
            invariant
                cams == self@,
                cams.len() == n,
                marks@.len() == n,
                forall|c: int| 0 <= c < n && #[trigger] marks@[c] ==> follows(cams, in_range@, c),
                forall|c: int|
                    0 <= c < n && in_range@.contains(cams[c].id) ==> #[trigger] marks@[c],
                !changed ==> forall|a: int, c: int|
                    0 <= a < n && 0 <= c < n && #[trigger] marks@[a]
                        && cams[a].border_cameras.contains(cams[c].id) ==> #[trigger] marks@[c],
            decreases unmarked(marks@), changed as int,
        {
            let ghost start = marks@;
            changed = false;
            let mut c: usize = 0;
            while c < n
                invariant
                    c <= n,
                    cams == self@,
                    cams.len() == n,
                    marks@.len() == n,
                    start.len() == n,
                    forall|k: int|
                        0 <= k < n && #[trigger] marks@[k] ==> follows(cams, in_range@, k),
                    forall|k: int|
                        0 <= k < n && in_range@.contains(cams[k].id) ==> #[trigger] marks@[k],
                    changed ==> unmarked(marks@) < unmarked(start),
                    !changed ==> marks@ == start,
                    !changed ==> forall|a: int, k: int|
                        0 <= a < n && 0 <= k < c && #[trigger] marks@[a]
                            && cams[a].border_cameras.contains(cams[k].id) ==> #[trigger] marks@[k],
                decreases n - c,
            {
                if !marks[c] && self.has_marked_neighbour(c, &marks) {
                    proof {
                        let a = choose|a: int|
                            0 <= a < n && #[trigger] marks@[a]
                                && cams[a].border_cameras.contains(cams[c as int].id);
                        lemma_cascade_next(cams, in_range@, a, c as int);
                        lemma_mark(marks@, c as int);
                    }
                    marks.set(c, true);
                    changed = true;
                }
                c = c + 1;
            }
        }
        proof {
            assert forall|c: int| 0 <= c < n implies #[trigger] marks@[c] == follows(
                cams,
                in_range@,
                c,
            ) by {
                if follows(cams, in_range@, c) {
                    let path = choose|path: Seq<int>| #[trigger]
                        is_cascade(cams, in_range@, path) && path.last() == c;
                    lemma_closed_marks_cover(cams, in_range@, marks@, path);
                }
            }
        }
        marks
    }

    /// Takes note of an incident. `in_range` names the cameras within whose
    /// range the incident lies.
    ///
    /// A new incident wakes up the cameras in range, the cameras that border
    /// them, those that border these, and so on; a resolved one is dropped
    /// by every camera, and a camera left without incident goes back to
    /// saving mode. The ids of the
    /// cameras whose state changed come back, to be published.
    pub fn manage_incident(&mut self, incident: &Incident, in_range: &Vec<u8>) -> (changed: Vec<u8>)
        ensures
            table_wf(final(self)@),
            final(self)@.len() == old(self)@.len(),
            forall|k: int|
                0 <= k < old(self)@.len() ==> #[trigger] final(self)@[k] == after_incident(
                    old(self)@[k],
                    incident@.id,
                    incident@.resolved,
                    follows(old(self)@, in_range@, k),
                ),
            changed@.no_duplicates(),
            forall|id: u8|
                changed@.contains(id) <==> exists|k: int|
                    0 <= k < old(self)@.len() && (#[trigger] old(self)@[k]).id == id && old(
                        self,
                    )@[k].state != final(self)@[k].state,
    {
        proof {
            use_type_invariant(&*self);
        }
        let inc_id = incident.get_id();
        let resolved = incident.is_resolved();
        let ghost before = self@;
        let attends = self.attending(in_range);
        let mut updated: Vec<Camera> = Vec::new();
        let mut changed: Vec<u8> = Vec::new();
        let mut i: usize = 0;
        while i < self.cameras.len()
            invariant
                i <= self.cameras@.len(),
                before == self@,
                before.len() == self.cameras@.len(),
                table_wf(before),
                inc_id == incident@.id,
                resolved == incident@.resolved,
                attends@.len() == before.len(),
                forall|k: int|
                    0 <= k < before.len() ==> #[trigger] attends@[k] == follows(
                        before,
                        in_range@,
                        k,
                    ),
                updated@.len() == i,
                forall|k: int|
                    0 <= k < i ==> (#[trigger] updated@[k])@ == after_incident(before[k], inc_id, resolved, follows(before, in_range@, k)),
                changed@.no_duplicates(),
                forall|id: u8|
                    changed@.contains(id) <==> exists|k: int|
                        0 <= k < i && (#[trigger] before[k]).id == id && before[k].state
                            != after_incident(before[k], inc_id, resolved, follows(before, in_range@, k)).state,
            decreases self.cameras@.len() - i,
        {
            let mut camera = self.cameras[i].duplicate();
            let ghost old_camera = camera@;
            assert(old_camera == before[i as int]);
            let old_state = camera.get_state();
            if resolved {
                camera.remove_from_incs_being_managed(inc_id);
            } else if attends[i] {
                camera.append_to_incs_being_managed(inc_id);
            }
            assert(camera@ == after_incident(
                old_camera,
                inc_id,
                resolved,
                follows(before, in_range@, i as int),
            ));
            let ghost old_changed = changed@;
            if camera.get_state() != old_state {
                proof {
                    if old_changed.contains(old_camera.id) {
                        let k = choose|k: int|
                            0 <= k < i && (#[trigger] before[k]).id == old_camera.id;
                        assert(before[k].id == before[i as int].id);
                    }
                    lemma_push_distinct(old_changed, old_camera.id);
                }
                changed.push(camera.get_id());
            }
            updated.push(camera);
            i = i + 1;
            assert forall|id: u8| changed@.contains(id) <==> exists|k: int|
                0 <= k < i && (#[trigger] before[k]).id == id && before[k].state != after_incident(before[k], inc_id, resolved, follows(before, in_range@, k)).state by {
                let moved = |k: int|
                    before[k].state != after_incident(before[k], inc_id, resolved, follows(before, in_range@, k)).state;
                if changed@.contains(id) {
                    if old_changed.contains(id) {
                        let k = choose|k: int|
                            0 <= k < i - 1 && (#[trigger] before[k]).id == id && moved(k);
                        assert(0 <= k < i && before[k].id == id && moved(k));
                    } else {
                        assert(before[i - 1].id == id && moved(i - 1));
                    }
                }
                if exists|k: int| 0 <= k < i && (#[trigger] before[k]).id == id && moved(k) {
                    let k = choose|k: int| 0 <= k < i && (#[trigger] before[k]).id == id && moved(k);
                    if k < i - 1 {
                        assert(old_changed.contains(id));
                    }
                }
            }
        }
        proof {
            let after = Seq::new(updated@.len(), |k: int| updated@[k]@);
            assert forall|k: int| 0 <= k < after.len() implies #[trigger] after[k]
                == after_incident(before[k], inc_id, resolved, follows(before, in_range@, k)) by {
                assert(updated@[k]@ == after_incident(before[k], inc_id, resolved, follows(before, in_range@, k)));
            }
            assert forall|k: int| 0 <= k < after.len() implies (#[trigger] after[k]).id
                == before[k].id && after[k].border_cameras == before[k].border_cameras
                && after[k].wf() && !after[k].deleted && after[k].state_matches_incidents() by {
                lemma_after_incident(before[k], inc_id, resolved, follows(before, in_range@, k));
            }
            assert forall|k: int, b: u8|
                0 <= k < after.len() && (#[trigger] after[k].border_cameras.contains(
                    b,
                )) implies has_camera(after, b) by {
                assert(before[k].border_cameras.contains(b));
                let a = choose|a: int| 0 <= a < before.len() && (#[trigger] before[a]).id == b;
                assert(after[a].id == b);
            }
            assert(table_wf(after));
        }
        self.cameras = updated;
        changed
    }

    /// Adds a camera to the table. `near` names the cameras that lie within
    /// bordering distance of it; the newcomer and each of them then name
    /// each other as bordering. An id that is already taken is refused.
    pub fn add_camera(&mut self, id: u8, latitude: u64, longitude: u64, range: u8, near: &Vec<u8>) -> (added:
        bool)
        ensures
            table_wf(final(self)@),
            added == !has_camera(old(self)@, id),
            !added ==> final(self)@ == old(self)@,
            added ==> {
                &&& final(self)@.len() == old(self)@.len() + 1
                &&& forall|k: int|
                    0 <= k < old(self)@.len() ==> #[trigger] final(self)@[k] == after_arrival(
                        old(self)@[k],
                        id,
                        near@,
                    )
                &&& final(self)@.last() == (CameraView {
                    border_cameras: final(self)@.last().border_cameras,
                    ..Camera::fresh(id, latitude, longitude, range)
                })
                &&& forall|b: u8|
                    #[trigger] final(self)@.last().border_cameras.contains(b) <==> (has_camera(
                        old(self)@,
                        b,
                    ) && near@.contains(b))
            },
    {
        proof {
            use_type_invariant(&*self);
        }
        if self.position_of(id).is_some() {
            return false;
        }
        let ghost before = self@;
        let mut newcomer = Camera::new(id, latitude, longitude, range);
        let mut updated: Vec<Camera> = Vec::new();
        let mut i: usize = 0;
        while i < self.cameras.len()
            invariant
                i <= self.cameras@.len(),
                before == self@,
                before.len() == self.cameras@.len(),
                table_wf(before),
                !has_camera(before, id),
                updated@.len() == i,
                forall|k: int|
                    0 <= k < i ==> (#[trigger] updated@[k])@ == after_arrival(before[k], id, near@),
                newcomer@ == (CameraView {
                    border_cameras: newcomer@.border_cameras,
                    ..Camera::fresh(id, latitude, longitude, range)
                }),
                newcomer@.wf(),
                forall|b: u8|
                    #[trigger] newcomer@.border_cameras.contains(b) <==> (exists|k: int|
                        0 <= k < i && (#[trigger] before[k]).id == b) && near@.contains(b),
            decreases self.cameras@.len() - i,
        {
            let mut camera = self.cameras[i].duplicate();
            assert(camera@ == before[i as int]);
            let ghost old_border = newcomer@.border_cameras;
            assert(forall|b: u8| #[trigger]
                old_border.contains(b) <==> (exists|k: int|
                    0 <= k < i && (#[trigger] before[k]).id == b) && near@.contains(b));
            if contains_id(near, camera.get_id()) {
                assert(before[i as int].id != id);
                proof {
                    if old_border.contains(camera@.id) {
                        let k = choose|k: int|
                            0 <= k < i && (#[trigger] before[k]).id == camera@.id;
                        assert(before[k].id == before[i as int].id);
                    }
                    lemma_push_distinct(old_border, camera@.id);
                    camera@.lemma_wf_fits(id);
                    newcomer@.lemma_wf_fits(camera@.id);
                }
                camera.mutually_add_if_bordering(&mut newcomer, true);
            }
            updated.push(camera);
            i = i + 1;
            assert forall|b: u8| #[trigger]
                newcomer@.border_cameras.contains(b) <==> (exists|k: int|
                    0 <= k < i && (#[trigger] before[k]).id == b) && near@.contains(b) by {
                assert(old_border.contains(b) <==> (exists|k: int|
                    0 <= k < i - 1 && (#[trigger] before[k]).id == b) && near@.contains(b));
                if newcomer@.border_cameras.contains(b) {
                    if old_border.contains(b) {
                        let k = choose|k: int| 0 <= k < i - 1 && (#[trigger] before[k]).id == b;
                        assert(0 <= k < i && before[k].id == b);
                    } else {
                        assert(before[i - 1].id == b);
                    }
                }
                if (exists|k: int| 0 <= k < i && (#[trigger] before[k]).id == b) && near@.contains(
                    b,
                ) {
                    let k = choose|k: int| 0 <= k < i && (#[trigger] before[k]).id == b;
                    if k < i - 1 {
                        assert(old_border.contains(b));
                    }
                }
            }
        }
        let ghost arrived = newcomer@;
        updated.push(newcomer);
        proof {
            let after = Seq::new(updated@.len(), |k: int| updated@[k]@);
            let n = before.len() as int;
            assert(after[n] == arrived);
            assert forall|k: int| 0 <= k < n implies #[trigger] after[k] == after_arrival(
                before[k],
                id,
                near@,
            ) by {
                assert(updated@[k]@ == after_arrival(before[k], id, near@));
            }
            Self::lemma_arrival_keeps_table(before, after, id, near@);
        }
        self.cameras = updated;
        true
    }

    /// A table stays well formed when a camera joins it.
    proof fn lemma_arrival_keeps_table(
        before: Seq<CameraView>,
        after: Seq<CameraView>,
        id: u8,
        near: Seq<u8>,
    )
        requires
            table_wf(before),
            !has_camera(before, id),
            after.len() == before.len() + 1,
            forall|k: int|
                0 <= k < before.len() ==> #[trigger] after[k] == after_arrival(before[k], id, near),
            after.last().id == id,
            after.last().wf(),
            !after.last().deleted,
            after.last().state_matches_incidents(),
            forall|b: u8|
                #[trigger] after.last().border_cameras.contains(b) <==> (has_camera(before, b)
                    && near.contains(b)),
        ensures
            table_wf(after),
    {
        let n = before.len() as int;
        assert forall|k: int| 0 <= k < n implies (#[trigger] after[k]).id == before[k].id
            && after[k].wf() && !after[k].deleted && after[k].state_matches_incidents() && (
        forall|b: u8|
            after[k].border_cameras.contains(b) <==> (before[k].border_cameras.contains(b) || (b
                == id && near.contains(before[k].id)))) by {
            let c = before[k];
            assert(c.id != id);
            if near.contains(c.id) && !c.border_cameras.contains(id) {
                lemma_push_distinct(c.border_cameras, id);
            }
        }
        assert forall|i: int, j: int|
            0 <= i < after.len() && 0 <= j < after.len() && i != j implies (#[trigger] after[i]).id
            != (#[trigger] after[j]).id by {
            if i < n && j < n {
                assert(before[i].id != before[j].id);
            } else if i < n {
                assert(before[i].id != id);
            } else {
                assert(before[j].id != id);
            }
        }
        assert forall|i: int, j: int| 0 <= i < after.len() && 0 <= j < after.len() implies ((
        #[trigger] after[i]).border_cameras.contains((#[trigger] after[j]).id)
            <==> after[j].border_cameras.contains(after[i].id)) by {
            if i < n && j < n {
                assert(before[i].border_cameras.contains(before[j].id)
                    <==> before[j].border_cameras.contains(before[i].id));
                assert(before[i].id != id && before[j].id != id);
            } else if i < n {
                assert(before[i].id != id);
                if before[i].border_cameras.contains(id) {
                    assert(has_camera(before, id));
                }
                assert(has_camera(before, before[i].id));
            } else if j < n {
                assert(before[j].id != id);
                if before[j].border_cameras.contains(id) {
                    assert(has_camera(before, id));
                }
                assert(has_camera(before, before[j].id));
            } else {
            }
        }
        assert forall|k: int, b: u8|
            0 <= k < after.len() && (#[trigger] after[k].border_cameras.contains(
                b,
            )) implies has_camera(after, b) by {
            if k < n && b == id {
                assert(after[n].id == id);
            } else {
                if k < n {
                    assert(before[k].border_cameras.contains(b));
                }
                assert(has_camera(before, b));
                let a = choose|a: int| 0 <= a < before.len() && (#[trigger] before[a]).id == b;
                assert(after[a].id == b);
            }
        }
    }

    /// Takes the camera `id` out of the table and hands it back marked as
    /// deleted, to be published. No camera names it as bordering any more.
    pub fn delete_camera(&mut self, id: u8) -> (removed: Option<Camera>)
        ensures
            table_wf(final(self)@),
            match removed {
                None => !has_camera(old(self)@, id) && final(self)@ == old(self)@,
                Some(camera) => has_camera(old(self)@, id) && camera@ == (CameraView {
                    deleted: true,
                    ..old(self)@[position_of_camera(old(self)@, id)]
                }) && final(self)@ == without_camera(old(self)@, id),
            },
    {
        proof {
            use_type_invariant(&*self);
        }
        let p: usize = match self.position_of(id) {
            Some(p) => p,
            None => {
                return None;
            },
        };
        let ghost before = self@;
        let mut removed = self.cameras[p].duplicate();
        removed.delete_camera();
        let mut updated: Vec<Camera> = Vec::new();
        let mut i: usize = 0;
        while i < self.cameras.len()
            invariant
                i <= self.cameras@.len(),
                p < self.cameras@.len(),
                before == self@,
                before.len() == self.cameras@.len(),
                table_wf(before),
                updated@.len() == if i <= p {
                    i as int
                } else {
                    i - 1
                },
                forall|k: int|
                    0 <= k < i && k < p ==> (#[trigger] updated@[k])@ == after_departure(
                        before[k],
                        id,
                    ),
                forall|k: int|
                    p <= k < i - 1 ==> (#[trigger] updated@[k])@ == after_departure(
                        before[k + 1],
                        id,
                    ),
            decreases self.cameras@.len() - i,
        {
            if i != p {
                let mut camera = self.cameras[i].duplicate();
                assert(camera@ == before[i as int]);
                camera.remove_bordering_id(id);
                updated.push(camera);
            }
            i = i + 1;
        }
        proof {
            let after = Seq::new(updated@.len(), |k: int| updated@[k]@);
            assert forall|k: int| 0 <= k < p implies #[trigger] after[k] == after_departure(
                before[k],
                id,
            ) by {
                assert(updated@[k]@ == after_departure(before[k], id));
            }
            assert forall|k: int| p <= k < after.len() implies #[trigger] after[k]
                == after_departure(before[k + 1], id) by {
                assert(updated@[k]@ == after_departure(before[k + 1], id));
            }
            Self::lemma_departure_keeps_table(before, after, p as int);
            let q = position_of_camera(before, id);
            assert(before[p as int].id == id);
            assert(before[q].id == before[p as int].id);
            assert(q == p);
            assert(after =~= without_camera(before, id));
        }
        self.cameras = updated;
        Some(removed)
    }

    /// A table stays well formed when a camera leaves it.
    proof fn lemma_departure_keeps_table(before: Seq<CameraView>, after: Seq<CameraView>, p: int)
        requires
            table_wf(before),
            0 <= p < before.len(),
            after.len() == before.len() - 1,
            forall|k: int|
                0 <= k < p ==> #[trigger] after[k] == after_departure(before[k], before[p].id),
            forall|k: int|
                p <= k < after.len() ==> #[trigger] after[k] == after_departure(
                    before[k + 1],
                    before[p].id,
                ),
        ensures
            table_wf(after),
    {
        let id = before[p].id;
        let origin = |k: int| if k < p { k } else { k + 1 };
        assert forall|k: int| 0 <= k < after.len() implies {
            let o = origin(k);
            &&& 0 <= o < before.len()
            &&& o != p
            &&& (#[trigger] after[k]) == after_departure(before[o], id)
            &&& after[k].id == before[o].id
            &&& after[k].id != id
            &&& after[k].wf()
            &&& !after[k].deleted
            &&& after[k].state_matches_incidents()
            &&& forall|b: u8|
                after[k].border_cameras.contains(b) <==> (before[o].border_cameras.contains(b) && b
                    != id)
        } by {
            let o = origin(k);
            let c = before[o];
            assert(c.id != before[p].id);
            lemma_without_distinct(c.border_cameras, id);
        }
        assert forall|i: int, j: int|
            0 <= i < after.len() && 0 <= j < after.len() && i != j implies (#[trigger] after[i]).id
            != (#[trigger] after[j]).id by {
            assert(before[origin(i)].id != before[origin(j)].id);
        }
        assert forall|i: int, j: int| 0 <= i < after.len() && 0 <= j < after.len() implies ((
        #[trigger] after[i]).border_cameras.contains((#[trigger] after[j]).id)
            <==> after[j].border_cameras.contains(after[i].id)) by {
            assert(before[origin(i)].border_cameras.contains(before[origin(j)].id)
                <==> before[origin(j)].border_cameras.contains(before[origin(i)].id));
        }
        assert forall|k: int, b: u8|
            0 <= k < after.len() && (#[trigger] after[k].border_cameras.contains(
                b,
            )) implies has_camera(after, b) by {
            assert(before[origin(k)].border_cameras.contains(b));
            assert(has_camera(before, b));
            let a = choose|a: int| 0 <= a < before.len() && (#[trigger] before[a]).id == b;
            assert(a != p);
            let back = if a < p {
                a
            } else {
                a - 1
            };
            assert(origin(back) == a);
            assert(after[back].id == b);
        }
    }

    /// The camera `id`, if it is in the table.
    pub fn get_camera(&self, id: u8) -> (r: Option<&Camera>)
        ensures
            match r {
                Some(camera) => has_camera(self@, id) && camera@ == self@[position_of_camera(
                    self@,
                    id,
                )] && camera@.id == id,
                None => !has_camera(self@, id),
            },
    {
        proof {
            use_type_invariant(self);
        }
        match self.position_of(id) {
            Some(i) => {
                assert(self@[i as int] == self.cameras@[i as int]@);
                proof {
                    let p = position_of_camera(self@, id);
                    assert(self@[p].id == self@[i as int].id);
                }
                Some(&self.cameras[i])
            },
            None => None,
        }
    }
}

} // verus!
