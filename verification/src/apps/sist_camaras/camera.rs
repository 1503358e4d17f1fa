use crate::apps::payload_error::PayloadError;
use crate::apps::sist_camaras::camera_state::CameraState;
use crate::encoding::{lemma_u64_be_value, push_bytes, push_u64, read_be_u64, u64_be, u64_of_be};
use crate::id_list::{
    contains_id, copy_ids, first_position, insert_id, lemma_distinct_ids_bounded,
    lemma_push_distinct, lemma_some_first_position, lemma_without_distinct, remove_id, with_id,
    without_id,
};
use vstd::prelude::*;

verus! {

/// One camera of the camera system.
///
/// Coordinates are kept as the bit patterns of IEEE-754 doubles (degrees).
/// Whether a point lies within the camera's range, or another camera within
/// bordering distance, is decided by the caller and handed in.
#[derive(Debug, PartialEq, Eq)]
pub struct Camera {
    id: u8,
    latitude: u64,
    longitude: u64,
    state: CameraState,
    range: u8,
    border_cameras: Vec<u8>,
    deleted: bool,
    incs_being_managed: Vec<u8>,
}

/// A camera as plain values.
pub struct CameraView {
    pub id: u8,
    pub latitude: u64,
    pub longitude: u64,
    pub state: CameraState,
    pub range: u8,
    pub border_cameras: Seq<u8>,
    pub deleted: bool,
    pub incs_being_managed: Seq<u8>,
}

/// The most bordering cameras that a camera can name: their number
/// travels in one byte.
pub const MAX_BORDER_CAMERAS: usize = 255;

/// Whether a list of bordering cameras can name `id`: it does already, or
/// it has room for one more.
pub open spec fn can_name(list: Seq<u8>, id: u8) -> bool {
    list.contains(id) || list.len() < MAX_BORDER_CAMERAS
}

impl CameraView {
    /// What holds of every camera: its bordering cameras can be counted in
    /// one byte, and no incident is managed twice.
    pub open spec fn fits(self) -> bool {
        &&& self.border_cameras.len() <= MAX_BORDER_CAMERAS
        &&& self.incs_being_managed.no_duplicates()
    }

    /// What holds of a camera in the table of the camera system: it does
    /// not border itself, and neither list names an id twice.
    pub open spec fn wf(self) -> bool {
        &&& self.border_cameras.no_duplicates()
        &&& !self.border_cameras.contains(self.id)
        &&& self.incs_being_managed.no_duplicates()
    }

    /// A camera of the table has room for every bordering camera it does
    /// not name yet.
    pub proof fn lemma_wf_fits(self, id: u8)
        requires
            self.wf(),
            id != self.id,
        ensures
            self.fits(),
            can_name(self.border_cameras, id),
    {
        lemma_distinct_ids_bounded(self.border_cameras, self.id);
        if !self.border_cameras.contains(id) {
            lemma_push_distinct(self.border_cameras, id);
            lemma_distinct_ids_bounded(self.border_cameras.push(id), self.id);
        }
    }

    /// The state that a byte stands for: active if it is 1, saving mode
    /// otherwise.
    pub open spec fn state_of_byte(byte: u8) -> CameraState {
        if byte == 1 {
            CameraState::Active
        } else {
            CameraState::SavingMode
        }
    }

    /// The camera is active exactly when it manages at least one incident.
    pub open spec fn state_matches_incidents(self) -> bool {
        self.state == CameraState::Active <==> self.incs_being_managed.len() > 0
    }

    /// The state a camera has when it manages the incidents `incs`.
    pub open spec fn state_for(incs: Seq<u8>) -> CameraState {
        if incs.len() > 0 {
            CameraState::Active
        } else {
            CameraState::SavingMode
        }
    }

    /// Id, latitude, longitude, state, range, number of bordering cameras,
    /// their ids, deleted. The incidents being managed do not travel.
    pub open spec fn encode(self) -> Seq<u8> {
        seq![self.id] + u64_be(self.latitude) + u64_be(self.longitude) + seq![
            self.state.code(),
            self.range,
            self.border_cameras.len() as u8,
        ] + self.border_cameras + seq![if self.deleted {
            1u8
        } else {
            0u8
        }]
    }

    /// The camera that the bytes spell, if they are not cut short: bytes
    /// past the layout are not looked at, the camera is deleted exactly
    /// when the byte for it is 1, and it comes out managing no incident.
    pub open spec fn decode(b: Seq<u8>) -> Result<CameraView, PayloadError> {
        if b.len() < 21 || b.len() < 21 + b[19] {
            Err(PayloadError::WrongLength)
        } else {
            Ok(
                CameraView {
                    id: b[0],
                    latitude: u64_of_be(b.subrange(1, 9)),
                    longitude: u64_of_be(b.subrange(9, 17)),
                    state: Self::state_of_byte(b[17]),
                    range: b[18],
                    border_cameras: b.subrange(20, 20 + b[19]),
                    deleted: b[20 + b[19]] == 1,
                    incs_being_managed: Seq::empty(),
                },
            )
        }
    }

    /// Decoding an encoded camera gives it back, managing no incident.
    pub proof fn lemma_decode_encode(self)
        requires
            self.border_cameras.len() <= MAX_BORDER_CAMERAS,
        ensures
            Self::decode(self.encode()) == Ok::<CameraView, PayloadError>(
                CameraView { incs_being_managed: Seq::empty(), ..self },
            ),
    {
        let b = self.encode();
        assert(b.subrange(1, 9) =~= u64_be(self.latitude));
        assert(b.subrange(9, 17) =~= u64_be(self.longitude));
        assert(b[19] == self.border_cameras.len());
        assert(b.subrange(20, 20 + b[19]) =~= self.border_cameras);
        lemma_u64_be_value(self.latitude);
        lemma_u64_be_value(self.longitude);
    }
}

impl View for Camera {
    type V = CameraView;

    closed spec fn view(&self) -> CameraView {
        CameraView {
            id: self.id,
            latitude: self.latitude,
            longitude: self.longitude,
            state: self.state,
            range: self.range,
            border_cameras: self.border_cameras@,
            deleted: self.deleted,
            incs_being_managed: self.incs_being_managed@,
        }
    }
}

impl Camera {
    #[verifier::type_invariant]
    spec fn well_formed(self) -> bool {
        self@.fits()
    }

    /// What a newly made camera is: in saving mode, with no bordering
    /// camera and no incident.
    pub open spec fn fresh(id: u8, latitude: u64, longitude: u64, range: u8) -> CameraView {
        CameraView {
            id,
            latitude,
            longitude,
            state: CameraState::SavingMode,
            range,
            border_cameras: Seq::empty(),
            deleted: false,
            incs_being_managed: Seq::empty(),
        }
    }

    /// A camera in saving mode, with no bordering camera and no incident.
    pub fn new(id: u8, latitude: u64, longitude: u64, range: u8) -> (camera: Self)
        ensures
            camera@ == Self::fresh(id, latitude, longitude, range),
            camera@.wf(),
            camera@.state_matches_incidents(),
    {
        Camera {
            id,
            latitude,
            longitude,
            state: CameraState::SavingMode,
            range,
            border_cameras: Vec::new(),
            deleted: false,
            incs_being_managed: Vec::new(),
        }
    }

    /// States what every camera satisfies.
    pub fn check_well_formed(&self)
        ensures
            self@.fits(),
    {
        proof {
            use_type_invariant(self);
        }
    }

    pub fn to_bytes(&self) -> (bytes: Vec<u8>)
        ensures
            self@.fits(),
            bytes@ == self@.encode(),
    {
        proof {
            use_type_invariant(self);
        }
        let mut bytes: Vec<u8> = Vec::new();
        bytes.push(self.id);
        push_u64(&mut bytes, self.latitude);
        push_u64(&mut bytes, self.longitude);
        bytes.push(self.state.to_byte());
        bytes.push(self.range);
        bytes.push(self.border_cameras.len() as u8);
        push_bytes(&mut bytes, self.border_cameras.as_slice());
        bytes.push(if self.deleted { 1 } else { 0 });
        assert(bytes@ =~= self@.encode());
        bytes
    }

    pub fn from_bytes(bytes: &[u8]) -> (r: Result<Camera, PayloadError>)
        ensures
            match CameraView::decode(bytes@) {
                Ok(v) => r matches Ok(camera) && camera@ == v,
                Err(e) => r == Err::<Camera, PayloadError>(e),
            },
    {
        if bytes.len() < 21 {
            return Err(PayloadError::WrongLength);
        }
        let border_len: usize = bytes[19] as usize;
        if bytes.len() < 21 + border_len {
            return Err(PayloadError::WrongLength);
        }
        let state = if bytes[17] == 1 {
            CameraState::Active
        } else {
            CameraState::SavingMode
        };
        let mut border_cameras: Vec<u8> = Vec::new();
        let mut i: usize = 0;
        while i < border_len
            invariant
                i <= border_len <= 255,
                bytes@.len() >= 21 + border_len,
                border_cameras@ == bytes@.subrange(20, 20 + i),
            decreases border_len - i,
        {
            border_cameras.push(bytes[20 + i]);
            i = i + 1;
            assert(border_cameras@ =~= bytes@.subrange(20, 20 + i));
        }
        let latitude = read_be_u64(bytes, 1);
        let longitude = read_be_u64(bytes, 9);
        Ok(
            Camera {
                id: bytes[0],
                latitude,
                longitude,
                state,
                range: bytes[18],
                border_cameras,
                deleted: bytes[20 + border_len] == 1,
                incs_being_managed: Vec::new(),
            },
        )
    }

    pub fn get_id(&self) -> (id: u8)
        ensures
            id == self@.id,
    {
        self.id
    }

    /// The latitude, as the bit pattern of a double.
    pub fn get_latitude(&self) -> (latitude: u64)
        ensures
            latitude == self@.latitude,
    {
        self.latitude
    }

    /// The longitude, as the bit pattern of a double.
    pub fn get_longitude(&self) -> (longitude: u64)
        ensures
            longitude == self@.longitude,
    {
        self.longitude
    }

    pub fn get_range(&self) -> (range: u8)
        ensures
            range == self@.range,
    {
        self.range
    }

    pub fn get_state(&self) -> (state: CameraState)
        ensures
            state == self@.state,
    {
        self.state
    }

    /// The ids of the bordering cameras.
    pub fn get_bordering_cams(&self) -> (ids: &Vec<u8>)
        ensures
            ids@ == self@.border_cameras,
            ids@.len() <= MAX_BORDER_CAMERAS,
    {
        proof {
            use_type_invariant(self);
        }
        &self.border_cameras
    }

    /// The camera's id and the ids of the incidents it manages.
    pub fn get_id_e_incs_for_debug_display(&self) -> (r: (u8, Vec<u8>))
        ensures
            r.0 == self@.id,
            r.1@ == self@.incs_being_managed,
    {
        (self.id, copy_ids(&self.incs_being_managed))
    }

    pub fn is_not_deleted(&self) -> (b: bool)
        ensures
            b == !self@.deleted,
    {
        !self.deleted
    }

    /// Marks the camera as deleted. It stays deleted.
    pub fn delete_camera(&mut self)
        ensures
            final(self)@ == (CameraView { deleted: true, ..old(self)@ }),
    {
        proof {
            use_type_invariant(&*self);
        }
        self.deleted = true;
    }

    /// Starts managing the incident `inc_id`, which makes the camera
    /// active. A deleted camera accepts no incident.
    pub fn append_to_incs_being_managed(&mut self, inc_id: u8)
        ensures
            old(self)@.deleted ==> final(self)@ == old(self)@,
            !old(self)@.deleted ==> final(self)@ == (CameraView {
                state: CameraState::Active,
                incs_being_managed: with_id(old(self)@.incs_being_managed, inc_id),
                ..old(self)@
            }),
            old(self)@.state_matches_incidents() ==> final(self)@.state_matches_incidents(),
            forall|x: u8|
                final(self)@.incs_being_managed.contains(x) <==> (old(self)@.incs_being_managed.contains(x) || (x == inc_id && !old(self)@.deleted)),
    {
        proof {
            use_type_invariant(&*self);
            if self.incs_being_managed@.contains(inc_id) {
                assert(with_id(self.incs_being_managed@, inc_id) == self.incs_being_managed@);
            } else {
                lemma_push_distinct(self.incs_being_managed@, inc_id);
            }
        }
        if !self.deleted {
            proof {
                if !self.incs_being_managed@.contains(inc_id) {
                    lemma_push_distinct(self.incs_being_managed@, inc_id);
                }
            }
            let mut incs = copy_ids(&self.incs_being_managed);
            insert_id(&mut incs, inc_id);
            self.incs_being_managed = incs;
            self.state = CameraState::Active;
        }
    }

    /// Stops managing the incident `inc_id`. A camera that was managing it
    /// and is left with no incident goes back to saving mode.
    pub fn remove_from_incs_being_managed(&mut self, inc_id: u8)
        ensures
            !old(self)@.incs_being_managed.contains(inc_id) ==> final(self)@ == old(self)@,
            old(self)@.incs_being_managed.contains(inc_id) ==> final(self)@ == (CameraView {
                state: CameraView::state_for(without_id(old(self)@.incs_being_managed, inc_id)),
                incs_being_managed: without_id(old(self)@.incs_being_managed, inc_id),
                ..old(self)@
            }),
            old(self)@.state_matches_incidents() ==> final(self)@.state_matches_incidents(),
            forall|x: u8|
                final(self)@.incs_being_managed.contains(x) <==> (old(self)@.incs_being_managed.contains(x) && x != inc_id),
    {
        proof {
            use_type_invariant(&*self);
        }
        if contains_id(&self.incs_being_managed, inc_id) {
            proof {
                lemma_without_distinct(self.incs_being_managed@, inc_id);
            }
            let mut incs = copy_ids(&self.incs_being_managed);
            remove_id(&mut incs, inc_id);
            self.incs_being_managed = incs;
            if self.incs_being_managed.len() == 0 {
                self.state = CameraState::SavingMode;
            } else {
                self.state = CameraState::Active;
            }
        }
    }

    /// Whether two cameras are recorded as bordering each other when they
    /// lie within bordering distance: they are two cameras, and each list
    /// can name the other. If one list is full, neither camera is added.
    pub open spec fn records_bordering(mine: CameraView, theirs: CameraView, in_range: bool) -> bool {
        &&& in_range
        &&& mine.id != theirs.id
        &&& can_name(mine.border_cameras, theirs.id)
        &&& can_name(theirs.border_cameras, mine.id)
    }

    /// Records that `self` and `candidate_bordering` border each other, when
    /// they do: `in_range` tells whether the two cameras lie within bordering
    /// distance. Each then has the other in its list, once and at the end if
    /// it was not there. This is done for both cameras or for neither: where
    /// one of the lists is full and lacks the other camera, both stay as
    /// they are.
    pub fn mutually_add_if_bordering(&mut self, candidate_bordering: &mut Camera, in_range: bool)
        ensures
            ({
                let adds = Self::records_bordering(
                    old(self)@,
                    old(candidate_bordering)@,
                    in_range,
                );
                &&& final(self)@ == (CameraView {
                    border_cameras: if adds {
                        with_id(old(self)@.border_cameras, old(candidate_bordering)@.id)
                    } else {
                        old(self)@.border_cameras
                    },
                    ..old(self)@
                })
                &&& final(candidate_bordering)@ == (CameraView {
                    border_cameras: if adds {
                        with_id(old(candidate_bordering)@.border_cameras, old(self)@.id)
                    } else {
                        old(candidate_bordering)@.border_cameras
                    },
                    ..old(candidate_bordering)@
                })
            }),
            (old(self)@.border_cameras.contains(old(candidate_bordering)@.id) <==> old(candidate_bordering)@.border_cameras.contains(old(self)@.id)) ==> (final(self)@.border_cameras.contains(
                final(candidate_bordering)@.id,
            ) <==> final(candidate_bordering)@.border_cameras.contains(final(self)@.id)),
    {
        proof {
            use_type_invariant(&*self);
            use_type_invariant(&*candidate_bordering);
            let mine = self.border_cameras@;
            let theirs = candidate_bordering.border_cameras@;
            assert(mine.push(candidate_bordering.id)[mine.len() as int] == candidate_bordering.id);
            assert(theirs.push(self.id)[theirs.len() as int] == self.id);
        }
        if !in_range || self.id == candidate_bordering.id {
            return ;
        }
        let mine_can = self.border_cameras.len() < MAX_BORDER_CAMERAS || contains_id(
            &self.border_cameras,
            candidate_bordering.id,
        );
        let theirs_can = candidate_bordering.border_cameras.len() < MAX_BORDER_CAMERAS
            || contains_id(&candidate_bordering.border_cameras, self.id);
        if mine_can && theirs_can {
            let mut mine = copy_ids(&self.border_cameras);
            insert_id(&mut mine, candidate_bordering.id);
            self.border_cameras = mine;
            let mut theirs = copy_ids(&candidate_bordering.border_cameras);
            insert_id(&mut theirs, self.id);
            candidate_bordering.border_cameras = theirs;
        }
    }

    /// Forgets `camera_to_delete` as a bordering camera, if it was one.
    pub fn remove_from_list_if_bordering(&mut self, camera_to_delete: &Camera)
        ensures
            final(self)@ == (CameraView {
                border_cameras: without_id(old(self)@.border_cameras, camera_to_delete@.id),
                ..old(self)@
            }),
    {
        proof {
            use_type_invariant(&*self);
        }
        self.remove_bordering_id(camera_to_delete.id);
    }

    /// Forgets the camera `id` as a bordering camera, if it was one.
    pub fn remove_bordering_id(&mut self, id: u8)
        ensures
            final(self)@ == (CameraView {
                border_cameras: without_id(old(self)@.border_cameras, id),
                ..old(self)@
            }),
    {
        proof {
            use_type_invariant(&*self);
            let s = self.border_cameras@;
            if s.contains(id) {
                let k = choose|k: int| 0 <= k < s.len() && s[k] == id;
                lemma_some_first_position(s, id, k);
                s.remove_ensures(first_position(s, id));
            }
        }
        let mut border = copy_ids(&self.border_cameras);
        remove_id(&mut border, id);
        self.border_cameras = border;
    }

    /// A copy of this camera.
    pub fn duplicate(&self) -> (copy: Camera)
        ensures
            copy@ == self@,
    {
        proof {
            use_type_invariant(self);
        }
        Camera {
            id: self.id,
            latitude: self.latitude,
            longitude: self.longitude,
            state: self.state,
            range: self.range,
            border_cameras: copy_ids(&self.border_cameras),
            deleted: self.deleted,
            incs_being_managed: copy_ids(&self.incs_being_managed),
        }
    }
}

impl Clone for Camera {
    fn clone(&self) -> (copy: Self)
        ensures
            copy@ == self@,
    {
        self.duplicate()
    }
}

} // verus!
