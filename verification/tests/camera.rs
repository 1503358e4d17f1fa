use rustx::apps::incident_data::incident::Incident;
use rustx::apps::incident_data::incident_source::IncidentSource;
use rustx::apps::payload_error::PayloadError;
use rustx::apps::sist_camaras::camera::Camera;
use rustx::apps::sist_camaras::camera_state::CameraState;
use rustx::apps::sist_camaras::sistema_camaras_logic::CamerasLogic;

/// Whether two points lie within `range` ten-millionths of a degree of
/// each other.
fn within(a: (f64, f64), b: (f64, f64), range: f64) -> bool {
    let lat_dist = a.0 - b.0;
    let long_dist = a.1 - b.1;
    let rad = f64::sqrt(lat_dist.powi(2) + long_dist.powi(2));
    rad <= range / 10000000.0
}

fn position(camera: &Camera) -> (f64, f64) {
    (
        f64::from_bits(camera.get_latitude()),
        f64::from_bits(camera.get_longitude()),
    )
}

fn bordering(a: &Camera, b: &Camera) -> bool {
    within(position(a), position(b), 5.0)
}

fn camera(id: u8, lat: f64, lon: f64, range: u8) -> Camera {
    Camera::new(id, lat.to_bits(), lon.to_bits(), range)
}

#[test]
fn test_1_camera_to_y_from_bytes() {
    let camera = camera(12, 3.0, 4.0, 5);

    let bytes = camera.to_bytes();

    let camera_reconstruida = Camera::from_bytes(&bytes).unwrap();

    assert_eq!(camera_reconstruida, camera);
}

#[test]
fn test_2_camaras_cercanas_son_lindantes() {
    let lat = -34.6037344;
    let lon = -58.3861838;
    let range = 10;
    let incr = 0.0000005;
    let mut cam_1 = camera(1, lat, lon, range);

    let mut cam_2 = camera(2, lat + incr, lon, range);

    let in_range = bordering(&cam_1, &cam_2);
    cam_1.mutually_add_if_bordering(&mut cam_2, in_range);

    assert!(cam_1.get_bordering_cams().contains(&cam_2.get_id()));
    assert!(cam_2.get_bordering_cams().contains(&cam_1.get_id()));
}

#[test]
fn test_3_camaras_lejanas_no_son_lindantes() {
    let lat = -34.6037344;
    let lon = -58.3861838;
    let range = 10;
    let incr = 0.0000005;
    let mut cam_1 = camera(1, lat, lon, range);

    let mut cam_2 = camera(2, lat + 10.0 * incr, lon, range);

    let in_range = bordering(&cam_1, &cam_2);
    cam_1.mutually_add_if_bordering(&mut cam_2, in_range);

    assert!(!cam_1.get_bordering_cams().contains(&cam_2.get_id()));
    assert!(!cam_2.get_bordering_cams().contains(&cam_1.get_id()));
}

#[test]
fn camera_bytes_follow_the_layout() {
    let mut cam = camera(1, -34.6037, -58.3861, 10);
    let mut other = camera(9, 0.0, 0.0, 1);
    let mut third = camera(200, 0.0, 0.0, 1);
    cam.mutually_add_if_bordering(&mut other, true);
    cam.mutually_add_if_bordering(&mut third, true);
    cam.append_to_incs_being_managed(7);
    let mut expected = vec![1u8];
    expected.extend_from_slice(&(-34.6037f64).to_be_bytes());
    expected.extend_from_slice(&(-58.3861f64).to_be_bytes());
    expected.extend_from_slice(&[1, 10, 2, 9, 200, 0]);
    assert_eq!(cam.to_bytes(), expected);
    assert_eq!(cam.to_bytes().len(), 23);
}

#[test]
fn camera_round_trip_drops_the_incidents() {
    let mut cam = camera(1, 1.5, -2.5, 10);
    let mut other = camera(2, 0.0, 0.0, 1);
    cam.mutually_add_if_bordering(&mut other, true);
    cam.append_to_incs_being_managed(7);
    cam.delete_camera();
    let back = Camera::from_bytes(&cam.to_bytes()).unwrap();
    assert_eq!(back.get_id(), 1);
    assert_eq!(f64::from_bits(back.get_latitude()), 1.5);
    assert_eq!(f64::from_bits(back.get_longitude()), -2.5);
    assert_eq!(back.get_range(), 10);
    assert_eq!(back.get_state(), CameraState::Active);
    assert_eq!(back.get_bordering_cams(), &vec![2]);
    assert!(!back.is_not_deleted());
    assert_eq!(back.get_id_e_incs_for_debug_display(), (1, vec![]));
}

#[test]
fn camera_payload_that_is_cut_short_is_refused() {
    let bytes = camera(1, 1.0, 2.0, 3).to_bytes();
    assert_eq!(bytes.len(), 21);
    assert_eq!(
        Camera::from_bytes(&bytes[..20]),
        Err(PayloadError::WrongLength)
    );
    assert_eq!(Camera::from_bytes(&[]), Err(PayloadError::WrongLength));
    let mut announced = bytes.clone();
    announced[19] = 1;
    assert_eq!(
        Camera::from_bytes(&announced),
        Err(PayloadError::WrongLength)
    );
    announced.push(0);
    let back = Camera::from_bytes(&announced).unwrap();
    assert_eq!(back.get_bordering_cams(), &vec![0]);
    assert!(back.is_not_deleted());
}

#[test]
fn camera_payload_is_read_as_far_as_the_layout_goes() {
    let cam = camera(1, 1.0, 2.0, 3);
    let bytes = cam.to_bytes();
    let mut longer = bytes.clone();
    longer.extend_from_slice(&[9, 9, 9]);
    assert_eq!(Camera::from_bytes(&longer).unwrap(), cam);

    let mut deleted = bytes.clone();
    deleted[20] = 1;
    assert!(!Camera::from_bytes(&deleted).unwrap().is_not_deleted());
    let mut other = bytes.clone();
    other[20] = 2;
    assert!(Camera::from_bytes(&other).unwrap().is_not_deleted());

    let mut active = bytes.clone();
    active[17] = 1;
    assert_eq!(
        Camera::from_bytes(&active).unwrap().get_state(),
        CameraState::Active
    );
    let mut unknown = bytes.clone();
    unknown[17] = 2;
    assert_eq!(
        Camera::from_bytes(&unknown).unwrap().get_state(),
        CameraState::SavingMode
    );
}

#[test]
fn camera_border_list_is_read_as_it_comes() {
    let bytes = camera(1, 1.0, 2.0, 3).to_bytes();
    let mut listed = bytes.clone();
    listed[19] = 3;
    listed.splice(20..20, [5, 5, 1]);
    let back = Camera::from_bytes(&listed).unwrap();
    assert_eq!(back.get_bordering_cams(), &vec![5, 5, 1]);
    assert_eq!(back.get_id(), 1);
    assert_eq!(back.get_range(), 3);
    assert!(back.is_not_deleted());
    assert_eq!(back.to_bytes(), listed);

    let mut back = back;
    let other = camera(5, 0.0, 0.0, 1);
    back.remove_from_list_if_bordering(&other);
    assert_eq!(back.get_bordering_cams(), &vec![5, 1]);
    back.remove_bordering_id(5);
    back.remove_bordering_id(5);
    assert_eq!(back.get_bordering_cams(), &vec![1]);
}

#[test]
fn camera_with_a_full_border_list_takes_no_more() {
    let mut bytes = camera(0, 1.0, 2.0, 3).to_bytes();
    bytes[19] = 255;
    bytes.splice(20..20, vec![7u8; 255]);
    let mut full = Camera::from_bytes(&bytes).unwrap();
    assert_eq!(full.get_bordering_cams().len(), 255);
    let mut other = camera(9, 0.0, 0.0, 1);
    full.mutually_add_if_bordering(&mut other, true);
    assert_eq!(full.get_bordering_cams().len(), 255);
    assert!(other.get_bordering_cams().is_empty());
    assert_eq!(full.to_bytes(), bytes);
    other.mutually_add_if_bordering(&mut full, true);
    assert!(other.get_bordering_cams().is_empty());
    assert_eq!(full.get_bordering_cams().len(), 255);

    let mut own = camera(7, 1.0, 2.0, 3).to_bytes();
    own[19] = 255;
    own.splice(20..20, vec![7u8; 255]);
    let mut seven = Camera::from_bytes(&own).unwrap();
    let mut two = camera(2, 0.0, 0.0, 1);
    seven.mutually_add_if_bordering(&mut two, true);
    assert!(!seven.get_bordering_cams().contains(&2));
    assert!(!two.get_bordering_cams().contains(&7));

    let mut listed = camera(7, 1.0, 2.0, 3).to_bytes();
    listed[19] = 255;
    let mut ids = vec![9u8; 254];
    ids.push(2);
    listed.splice(20..20, ids);
    let mut seven = Camera::from_bytes(&listed).unwrap();
    seven.mutually_add_if_bordering(&mut two, true);
    assert_eq!(seven.get_bordering_cams().len(), 255);
    assert_eq!(two.get_bordering_cams(), &vec![7]);
}

#[test]
fn cameras_within_bordering_distance_end_with_each_other() {
    let mut a = camera(1, 0.0, 0.0, 1);
    let mut b = camera(2, 0.0, 0.0, 1);
    let mut c = camera(3, 0.0, 0.0, 1);
    a.mutually_add_if_bordering(&mut c, true);
    b.mutually_add_if_bordering(&mut c, false);
    assert!(b.get_bordering_cams().is_empty());
    assert_eq!(c.get_bordering_cams(), &vec![1]);
    a.mutually_add_if_bordering(&mut b, true);
    assert_eq!(a.get_bordering_cams().last(), Some(&2));
    assert_eq!(b.get_bordering_cams().last(), Some(&1));
    assert_eq!(a.get_bordering_cams(), &vec![3, 2]);
}

#[test]
fn camera_states_have_their_bytes() {
    assert_eq!(CameraState::SavingMode.to_byte(), 0);
    assert_eq!(CameraState::Active.to_byte(), 1);
    assert_eq!(CameraState::from_byte(0), Some(CameraState::SavingMode));
    assert_eq!(CameraState::from_byte(1), Some(CameraState::Active));
    assert_eq!(CameraState::from_byte(2), None);
}

#[test]
fn camera_is_active_exactly_while_it_manages_incidents() {
    let mut cam = camera(1, 0.0, 0.0, 1);
    assert_eq!(cam.get_state(), CameraState::SavingMode);
    cam.append_to_incs_being_managed(7);
    assert_eq!(cam.get_state(), CameraState::Active);
    cam.append_to_incs_being_managed(8);
    cam.append_to_incs_being_managed(7);
    assert_eq!(cam.get_id_e_incs_for_debug_display(), (1, vec![7, 8]));
    cam.remove_from_incs_being_managed(7);
    assert_eq!(cam.get_state(), CameraState::Active);
    cam.remove_from_incs_being_managed(9);
    assert_eq!(cam.get_state(), CameraState::Active);
    cam.remove_from_incs_being_managed(8);
    assert_eq!(cam.get_state(), CameraState::SavingMode);
    assert_eq!(cam.get_id_e_incs_for_debug_display(), (1, vec![]));
    cam.remove_from_incs_being_managed(8);
    assert_eq!(cam.get_state(), CameraState::SavingMode);
}

#[test]
fn deleted_camera_accepts_no_incident() {
    let mut cam = camera(1, 0.0, 0.0, 1);
    assert!(cam.is_not_deleted());
    cam.delete_camera();
    assert!(!cam.is_not_deleted());
    cam.append_to_incs_being_managed(7);
    assert_eq!(cam.get_state(), CameraState::SavingMode);
    assert_eq!(cam.get_id_e_incs_for_debug_display(), (1, vec![]));
}

#[test]
fn bordering_is_recorded_once_and_never_with_itself() {
    let mut a = camera(1, 0.0, 0.0, 1);
    let mut b = camera(2, 0.0, 0.0, 1);
    a.mutually_add_if_bordering(&mut b, true);
    b.mutually_add_if_bordering(&mut a, true);
    assert_eq!(a.get_bordering_cams(), &vec![2]);
    assert_eq!(b.get_bordering_cams(), &vec![1]);
    let mut twin = camera(1, 0.0, 0.0, 1);
    a.mutually_add_if_bordering(&mut twin, true);
    assert_eq!(a.get_bordering_cams(), &vec![2]);
    assert!(twin.get_bordering_cams().is_empty());
    a.remove_from_list_if_bordering(&b);
    assert!(a.get_bordering_cams().is_empty());
    a.remove_from_list_if_bordering(&b);
    assert!(a.get_bordering_cams().is_empty());
    b.remove_bordering_id(1);
    assert!(b.get_bordering_cams().is_empty());
}

#[test]
fn camera_clone_is_equal() {
    let mut cam = camera(1, 0.5, 0.25, 1);
    cam.append_to_incs_being_managed(3);
    assert_eq!(cam.clone(), cam);
    assert_eq!(cam.duplicate(), cam);
    cam.check_well_formed();
}

/// Adds a camera to the table, naming as near the cameras within bordering
/// distance.
fn add(logic: &mut CamerasLogic, known: &mut Vec<Camera>, new: Camera) -> bool {
    let near: Vec<u8> = known
        .iter()
        .filter(|c| bordering(c, &new))
        .map(|c| c.get_id())
        .collect();
    let added = logic.add_camera(
        new.get_id(),
        new.get_latitude(),
        new.get_longitude(),
        new.get_range(),
        &near,
    );
    if added {
        known.push(new);
    }
    added
}

fn in_range_of(known: &[Camera], incident: &Incident) -> Vec<u8> {
    let (lat, lon) = incident.get_position();
    let place = (f64::from_bits(lat), f64::from_bits(lon));
    known
        .iter()
        .filter(|c| within(position(c), place, c.get_range() as f64))
        .map(|c| c.get_id())
        .collect()
}

fn incident(id: u8, lat: f64, lon: f64) -> Incident {
    Incident::new(id, (lat.to_bits(), lon.to_bits()), IncidentSource::Manual)
}

#[test]
fn single_camera_single_incident() {
    let mut logic = CamerasLogic::new();
    let mut known = Vec::new();
    assert!(add(&mut logic, &mut known, camera(1, -34.6037, -58.3861, 10)));
    let inc = incident(7, -34.6037, -58.3861);
    let changed = logic.manage_incident(&inc, &in_range_of(&known, &inc));
    assert_eq!(changed, vec![1]);
    let cam = logic.get_camera(1).unwrap();
    assert_eq!(cam.get_state(), CameraState::Active);
    assert_eq!(cam.get_id_e_incs_for_debug_display(), (1, vec![7]));
    assert_eq!(cam.to_bytes()[17], 1);
}

#[test]
fn border_cascade() {
    let mut logic = CamerasLogic::new();
    let mut known = Vec::new();
    assert!(add(&mut logic, &mut known, camera(1, -34.6037344, -58.3861838, 1)));
    assert!(add(&mut logic, &mut known, camera(2, -34.60373465, -58.3861838, 1)));
    assert_eq!(logic.get_camera(1).unwrap().get_bordering_cams(), &vec![2]);
    assert_eq!(logic.get_camera(2).unwrap().get_bordering_cams(), &vec![1]);

    let inc = incident(7, -34.6037344, -58.3861838);
    let in_range = in_range_of(&known, &inc);
    assert_eq!(in_range, vec![1]);
    let changed = logic.manage_incident(&inc, &in_range);
    assert_eq!(changed, vec![1, 2]);
    assert_eq!(logic.get_camera(1).unwrap().get_state(), CameraState::Active);
    assert_eq!(logic.get_camera(2).unwrap().get_state(), CameraState::Active);
    assert_eq!(
        logic.get_camera(2).unwrap().get_id_e_incs_for_debug_display(),
        (2, vec![7])
    );

    let mut resolved = inc;
    resolved.set_resolved();
    let changed = logic.manage_incident(&resolved, &in_range);
    assert_eq!(changed, vec![1, 2]);
    assert_eq!(
        logic.get_camera(1).unwrap().get_state(),
        CameraState::SavingMode
    );
    assert_eq!(
        logic.get_camera(2).unwrap().get_state(),
        CameraState::SavingMode
    );
    logic.check_well_formed();
}

#[test]
fn cascade_runs_along_a_chain_of_bordering_cameras() {
    let mut logic = CamerasLogic::new();
    assert!(logic.add_camera(1, 0, 0, 1, &vec![]));
    assert!(logic.add_camera(2, 0, 0, 1, &vec![1]));
    assert!(logic.add_camera(3, 0, 0, 1, &vec![2]));
    assert!(logic.add_camera(4, 0, 0, 1, &vec![3]));
    assert!(logic.add_camera(5, 0, 0, 1, &vec![]));
    assert_eq!(
        logic.attending(&vec![4]),
        vec![true, true, true, true, false]
    );
    assert_eq!(
        logic.attending(&vec![]),
        vec![false, false, false, false, false]
    );
    assert_eq!(
        logic.attending(&vec![5, 9]),
        vec![false, false, false, false, true]
    );
    let inc = incident(7, 0.0, 0.0);
    assert_eq!(logic.manage_incident(&inc, &vec![1]), vec![1, 2, 3, 4]);
    assert_eq!(
        logic.get_camera(5).unwrap().get_state(),
        CameraState::SavingMode
    );
    for id in 1..=4u8 {
        assert_eq!(
            logic.get_camera(id).unwrap().get_id_e_incs_for_debug_display(),
            (id, vec![7])
        );
    }
    logic.delete_camera(2);
    let other = incident(8, 0.0, 0.0);
    assert_eq!(logic.manage_incident(&other, &vec![1]), Vec::<u8>::new());
    assert_eq!(
        logic.get_camera(1).unwrap().get_id_e_incs_for_debug_display(),
        (1, vec![7, 8])
    );
    assert_eq!(
        logic.get_camera(3).unwrap().get_id_e_incs_for_debug_display(),
        (3, vec![7])
    );
}

#[test]
fn camera_stays_active_while_another_incident_is_open() {
    let mut logic = CamerasLogic::new();
    assert!(logic.add_camera(1, 0, 0, 1, &vec![]));
    assert!(logic.add_camera(2, 0, 0, 1, &vec![]));
    let first = incident(7, 0.0, 0.0);
    let second = incident(8, 0.0, 0.0);
    assert_eq!(logic.manage_incident(&first, &vec![1]), vec![1]);
    assert_eq!(logic.manage_incident(&second, &vec![1, 2]), vec![2]);
    let mut done = first;
    done.set_resolved();
    assert_eq!(logic.manage_incident(&done, &vec![]), Vec::<u8>::new());
    assert_eq!(logic.get_camera(1).unwrap().get_state(), CameraState::Active);
    let mut done = second;
    done.set_resolved();
    assert_eq!(logic.manage_incident(&done, &vec![]), vec![1, 2]);
    assert_eq!(logic.len(), 2);
}

#[test]
fn incident_out_of_every_range_changes_nothing() {
    let mut logic = CamerasLogic::new();
    assert!(logic.add_camera(1, 0, 0, 1, &vec![]));
    let inc = incident(7, 50.0, 50.0);
    assert_eq!(logic.manage_incident(&inc, &vec![]), Vec::<u8>::new());
    assert_eq!(logic.manage_incident(&inc, &vec![9]), Vec::<u8>::new());
    assert_eq!(
        logic.get_camera(1).unwrap().get_state(),
        CameraState::SavingMode
    );
}

#[test]
fn table_refuses_an_id_twice() {
    let mut logic = CamerasLogic::new();
    assert!(logic.add_camera(1, 0, 0, 1, &vec![]));
    assert!(!logic.add_camera(1, 5, 5, 5, &vec![]));
    assert_eq!(logic.len(), 1);
    assert_eq!(logic.get_camera(1).unwrap().get_range(), 1);
    assert_eq!(logic.position_of(1), Some(0));
    assert_eq!(logic.get_cameras().len(), 1);
    assert_eq!(logic.get_cameras()[0].get_id(), 1);
    assert_eq!(logic.position_of(2), None);
    assert!(logic.get_camera(2).is_none());
}

#[test]
fn bordering_stays_symmetric_through_additions_and_deletions() {
    let mut logic = CamerasLogic::new();
    assert!(logic.add_camera(1, 0, 0, 1, &vec![]));
    assert!(logic.add_camera(2, 0, 0, 1, &vec![1, 77]));
    assert!(logic.add_camera(3, 0, 0, 1, &vec![1, 2]));
    assert!(logic.add_camera(4, 0, 0, 1, &vec![3]));
    let border = |logic: &CamerasLogic, id: u8| logic.get_camera(id).unwrap().get_bordering_cams().clone();
    assert_eq!(border(&logic, 1), vec![2, 3]);
    assert_eq!(border(&logic, 2), vec![1, 3]);
    assert_eq!(border(&logic, 3), vec![1, 2, 4]);
    assert_eq!(border(&logic, 4), vec![3]);
    for a in 1..=4u8 {
        for b in 1..=4u8 {
            assert_eq!(
                border(&logic, a).contains(&b),
                border(&logic, b).contains(&a)
            );
        }
    }

    let removed = logic.delete_camera(3).unwrap();
    assert!(!removed.is_not_deleted());
    assert_eq!(removed.get_id(), 3);
    assert_eq!(*removed.to_bytes().last().unwrap(), 1);
    assert_eq!(logic.len(), 3);
    assert_eq!(border(&logic, 1), vec![2]);
    assert_eq!(border(&logic, 2), vec![1]);
    assert_eq!(border(&logic, 4), Vec::<u8>::new());
    assert!(logic.delete_camera(3).is_none());
    assert!(logic.add_camera(3, 0, 0, 1, &vec![4]));
    assert_eq!(border(&logic, 4), vec![3]);
    assert_eq!(border(&logic, 3), vec![4]);
    logic.check_well_formed();
}
