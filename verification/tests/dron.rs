use rustx::apps::incident_data::incident::Incident;
use rustx::apps::incident_data::incident_source::IncidentSource;
use rustx::apps::payload_error::PayloadError;
use rustx::apps::sist_dron::dron::{Dron, DronStep};
use rustx::apps::sist_dron::dron_current_info::DronCurrentInfo;
use rustx::apps::sist_dron::dron_flying_info::DronFlyingInfo;
use rustx::apps::sist_dron::dron_state::DronState;
use rustx::apps::sist_dron::sist_dron_properties::SistDronProperties;
use rustx::apps::sist_monitoreo::sistema_monitoreo_logic::MonitoreoLogic;

fn properties() -> SistDronProperties {
    SistDronProperties {
        max_battery_lvl: 100,
        min_operational_battery_lvl: 20,
        range: 40.0f64.to_bits(),
        stay_at_inc_time: 200,
        speed: 60,
        range_center_lat: (-34.60f64).to_bits(),
        range_center_lon: (-58.38f64).to_bits(),
        mantainance_lat: (-34.30f64).to_bits(),
        mantainance_lon: (-58.30f64).to_bits(),
    }
}

fn incident(id: u8) -> Incident {
    Incident::new(
        id,
        ((-34.61f64).to_bits(), (-58.39f64).to_bits()),
        IncidentSource::Manual,
    )
}

fn resolved(id: u8) -> Incident {
    let mut inc = incident(id);
    inc.set_resolved();
    inc
}

const STAY: DronStep = DronStep { publish: false, fly_to: None, stay_for: None };
const PUBLISH: DronStep = DronStep { publish: true, fly_to: None, stay_for: None };
const MANAGE: DronStep = DronStep { publish: true, fly_to: None, stay_for: Some(200) };

fn fly(to: (u64, u64)) -> DronStep {
    DronStep { publish: true, fly_to: Some(to), stay_for: None }
}

#[test]
fn test_1_dron_se_inicia_con_id_y_estado_correctos() {
    let dron = Dron::new(1, properties());

    assert_eq!(dron.get_current_info().get_id(), 1);
    assert_eq!(
        dron.get_current_info().get_state(),
        DronState::ExpectingToRecvIncident
    );
}

#[test]
fn test_2_dron_se_inicia_con_posicion_correcta() {
    let dron = Dron::new(1, properties());

    assert_eq!(
        dron.get_current_info().get_current_position(),
        dron.get_properties().get_range_center_position()
    );
}

#[test]
fn test_1a_dron_to_y_from_bytes() {
    let dron = DronCurrentInfo::new(
        1,
        (-34.0f64).to_bits(),
        (-58.0f64).to_bits(),
        100,
        DronState::ExpectingToRecvIncident,
    );

    let bytes = dron.to_bytes();
    let reconstructed_dron = DronCurrentInfo::from_bytes(bytes);

    assert_eq!(reconstructed_dron.unwrap(), dron);
}

#[test]
fn test_1b_dron_to_y_from_bytes() {
    let mut dron = DronCurrentInfo::new(
        1,
        (-34.0f64).to_bits(),
        (-58.0f64).to_bits(),
        100,
        DronState::ExpectingToRecvIncident,
    );
    dron.set_inc_id_to_resolve(18);
    assert_eq!(dron.get_inc_id_to_resolve(), Some(18));

    let bytes = dron.to_bytes();
    let reconstructed_dron = DronCurrentInfo::from_bytes(bytes);

    assert_eq!(reconstructed_dron.unwrap(), dron);
}

#[test]
fn dron_starts_and_recharges_at_100_whatever_its_properties() {
    let mut odd = properties();
    odd.max_battery_lvl = 80;
    let mut dron = Dron::new(1, odd);
    assert_eq!(dron.get_current_info().get_battery_lvl(), 100);
    dron.handle_incident(&incident(7), true);
    dron.handle_battery(3);
    assert_eq!(dron.get_current_info().get_state(), DronState::Mantainance);
    dron.handle_arrival();
    assert_eq!(dron.get_current_info().get_battery_lvl(), 100);
}

#[test]
fn battery_use_lowers_the_level_but_not_below_zero() {
    let mut dron = Dron::new(1, properties());
    assert_eq!(dron.handle_battery_use(30), STAY);
    assert_eq!(dron.get_current_info().get_battery_lvl(), 70);
    dron.handle_incident(&incident(7), true);
    assert_eq!(dron.handle_battery_use(50), STAY);
    assert_eq!(dron.get_current_info().get_battery_lvl(), 20);
    let mantainance = dron.get_properties().get_mantainance_position();
    assert_eq!(dron.handle_battery_use(1), fly(mantainance));
    assert_eq!(dron.get_current_info().get_battery_lvl(), 19);
    assert_eq!(dron.handle_battery_use(200), STAY);
    assert_eq!(dron.get_current_info().get_battery_lvl(), 0);
}

#[test]
fn dron_starts_with_full_battery() {
    let dron = Dron::new(3, properties());
    assert_eq!(dron.get_current_info().get_battery_lvl(), 100);
    assert_eq!(dron.get_current_info().get_inc_id_to_resolve(), None);
    assert_eq!(dron.get_current_info().get_flying_info(), None);
    assert_eq!(dron.get_incident_position(), None);
}

#[test]
fn dron_info_bytes_follow_the_layout() {
    let mut info = DronCurrentInfo::new(
        4,
        (-34.0f64).to_bits(),
        (-58.0f64).to_bits(),
        77,
        DronState::ManagingIncident,
    );
    let mut expected = vec![4u8];
    expected.extend_from_slice(&(-34.0f64).to_be_bytes());
    expected.extend_from_slice(&(-58.0f64).to_be_bytes());
    expected.extend_from_slice(&[77, 3, 0, 0]);
    assert_eq!(info.to_bytes(), expected);

    info.set_inc_id_to_resolve(18);
    info.set_flying_info(DronFlyingInfo::new((0.6f64.to_bits(), (-0.8f64).to_bits()), 0x0102));
    let mut expected = vec![4u8];
    expected.extend_from_slice(&(-34.0f64).to_be_bytes());
    expected.extend_from_slice(&(-58.0f64).to_be_bytes());
    expected.extend_from_slice(&[77, 3, 18, 1]);
    expected.extend_from_slice(&0.6f64.to_be_bytes());
    expected.extend_from_slice(&(-0.8f64).to_be_bytes());
    expected.extend_from_slice(&[1, 2]);
    assert_eq!(info.to_bytes(), expected);
    assert_eq!(info.to_bytes().len(), 39);
}

#[test]
fn dron_info_with_flying_info_round_trips() {
    let mut info = DronCurrentInfo::new(
        4,
        1.25f64.to_bits(),
        2.5f64.to_bits(),
        10,
        DronState::ReturningToBase,
    );
    info.set_flying_info(DronFlyingInfo::new((1.0f64.to_bits(), 0.0f64.to_bits()), 65_535));
    let back = DronCurrentInfo::from_bytes(info.to_bytes()).unwrap();
    assert_eq!(back, info);
    let flying = back.get_flying_info().unwrap();
    assert_eq!(flying.get_speed(), 65_535);
    assert_eq!(f64::from_bits(flying.get_direction().0), 1.0);
    assert_eq!(f64::from_bits(flying.get_direction().1), 0.0);
    assert_eq!(back.get_battery_lvl(), 10);
    assert_eq!(back.get_state(), DronState::ReturningToBase);
}

#[test]
fn dron_info_id_zero_names_no_incident() {
    let mut info = DronCurrentInfo::new(1, 0, 0, 100, DronState::ExpectingToRecvIncident);
    info.set_inc_id_to_resolve(0);
    assert_eq!(info.get_inc_id_to_resolve(), None);
    info.set_inc_id_to_resolve(5);
    info.unset_inc_id_to_resolve();
    assert_eq!(info.get_inc_id_to_resolve(), None);
    assert_eq!(info.to_bytes()[19], 0);
}

#[test]
fn dron_info_setters_set() {
    let mut info = DronCurrentInfo::new(1, 0, 0, 100, DronState::ExpectingToRecvIncident);
    info.set_state(DronState::Mantainance);
    info.set_battery_lvl(15);
    info.set_current_position((7, 8));
    info.set_flying_info(DronFlyingInfo::new((1, 2), 3));
    assert_eq!(info.get_state(), DronState::Mantainance);
    assert_eq!(info.get_battery_lvl(), 15);
    assert_eq!(info.get_current_position(), (7, 8));
    assert!(info.get_flying_info().is_some());
    info.unset_flying_info();
    assert_eq!(info.get_flying_info(), None);
    assert_eq!(info.get_id(), 1);
}

#[test]
fn dron_info_payload_errors() {
    let info = DronCurrentInfo::new(1, 0, 0, 100, DronState::ExpectingToRecvIncident);
    let bytes = info.to_bytes();
    assert_eq!(
        DronCurrentInfo::from_bytes(bytes[..20].to_vec()),
        Err(PayloadError::WrongLength)
    );
    assert_eq!(
        DronCurrentInfo::from_bytes(vec![]),
        Err(PayloadError::WrongLength)
    );
    let mut announced = bytes.clone();
    announced[20] = 1;
    assert_eq!(
        DronCurrentInfo::from_bytes(announced.clone()),
        Err(PayloadError::WrongLength)
    );
    announced.extend_from_slice(&[0; 17]);
    assert_eq!(
        DronCurrentInfo::from_bytes(announced),
        Err(PayloadError::WrongLength)
    );
    let mut bad_state = bytes.clone();
    bad_state[18] = 0;
    assert_eq!(
        DronCurrentInfo::from_bytes(bad_state),
        Err(PayloadError::InvalidValue)
    );
}

#[test]
fn dron_info_payload_is_read_as_far_as_the_layout_goes() {
    let info = DronCurrentInfo::new(1, 0, 0, 100, DronState::ExpectingToRecvIncident);
    let bytes = info.to_bytes();
    let mut trailing = bytes.clone();
    trailing.extend_from_slice(&[7, 7]);
    assert_eq!(DronCurrentInfo::from_bytes(trailing), Ok(info));
    let mut other_flag = bytes.clone();
    other_flag[20] = 2;
    assert_eq!(DronCurrentInfo::from_bytes(other_flag), Ok(info));

    let mut flying = info;
    flying.set_flying_info(DronFlyingInfo::new((1, 2), 3));
    let mut longer = flying.to_bytes();
    longer.push(9);
    assert_eq!(DronCurrentInfo::from_bytes(longer), Ok(flying));
}

#[test]
fn dron_states_have_their_bytes() {
    let states = [
        DronState::ExpectingToRecvIncident,
        DronState::RespondingToIncident,
        DronState::ManagingIncident,
        DronState::ReturningToBase,
        DronState::Mantainance,
    ];
    for (i, state) in states.iter().enumerate() {
        assert_eq!(state.to_byte(), i as u8 + 1);
        assert_eq!(DronState::from_byte(i as u8 + 1), Some(*state));
    }
    assert_eq!(DronState::from_byte(0), None);
    assert_eq!(DronState::from_byte(6), None);
}

#[test]
fn idle_dron_takes_up_incident_in_range() {
    let mut dron = Dron::new(1, properties());
    let inc = incident(7);
    assert_eq!(dron.handle_incident(&inc, true), fly(inc.get_position()));
    let info = dron.get_current_info();
    assert_eq!(info.get_state(), DronState::RespondingToIncident);
    assert_eq!(info.get_inc_id_to_resolve(), Some(7));
    assert_eq!(dron.get_incident_position(), Some(inc.get_position()));
}

#[test]
fn dron_ignores_what_it_cannot_take_up() {
    let mut dron = Dron::new(1, properties());
    assert_eq!(dron.handle_incident(&incident(7), false), STAY);
    assert_eq!(dron.handle_incident(&resolved(7), true), STAY);
    assert_eq!(dron.handle_incident(&incident(0), true), STAY);
    assert_eq!(dron.handle_battery(19), STAY);
    assert_eq!(dron.handle_incident(&incident(7), true), STAY);
    assert_eq!(dron.handle_battery(20), STAY);
    assert_eq!(
        dron.handle_incident(&incident(7), true),
        fly(incident(7).get_position())
    );
    assert_eq!(dron.handle_incident(&incident(8), true), STAY);
    assert_eq!(dron.get_current_info().get_inc_id_to_resolve(), Some(7));
    assert_eq!(dron.handle_incident(&resolved(8), true), STAY);
    assert_eq!(
        dron.get_current_info().get_state(),
        DronState::RespondingToIncident
    );
}

#[test]
fn dron_dispatch_and_resolution() {
    let mut dron = Dron::new(1, properties());
    let inc = incident(7);
    let center = dron.get_properties().get_range_center_position();
    assert_eq!(dron.handle_incident(&inc, true), fly(inc.get_position()));
    dron.set_flying_info(DronFlyingInfo::new((1, 2), 60));
    assert!(dron.get_current_info().get_flying_info().is_some());

    assert_eq!(dron.handle_arrival(), MANAGE);
    assert_eq!(
        dron.get_current_info().get_state(),
        DronState::ManagingIncident
    );
    assert_eq!(
        dron.get_current_info().get_current_position(),
        inc.get_position()
    );
    assert_eq!(dron.get_current_info().get_flying_info(), None);
    assert_eq!(dron.handle_arrival(), STAY);

    assert_eq!(dron.handle_incident(&resolved(7), true), fly(center));
    assert_eq!(
        dron.get_current_info().get_state(),
        DronState::ReturningToBase
    );
    assert_eq!(dron.get_current_info().get_inc_id_to_resolve(), None);

    assert_eq!(dron.handle_arrival(), PUBLISH);
    assert_eq!(
        dron.get_current_info().get_state(),
        DronState::ExpectingToRecvIncident
    );
    assert_eq!(dron.get_current_info().get_current_position(), center);
    assert_eq!(dron.handle_arrival(), STAY);
}

#[test]
fn dron_on_its_way_turns_back_when_incident_is_resolved() {
    let mut dron = Dron::new(1, properties());
    dron.handle_incident(&incident(7), true);
    let center = dron.get_properties().get_range_center_position();
    assert_eq!(dron.handle_incident(&resolved(7), false), fly(center));
    assert_eq!(
        dron.get_current_info().get_state(),
        DronState::ReturningToBase
    );
    assert_eq!(dron.get_incident_position(), None);
}

#[test]
fn low_battery_detour() {
    let mut dron = Dron::new(1, properties());
    let inc = incident(7);
    let mantainance = dron.get_properties().get_mantainance_position();
    assert_eq!(dron.handle_battery(21), STAY);
    assert_eq!(dron.handle_incident(&inc, true), fly(inc.get_position()));

    assert_eq!(dron.handle_battery(19), fly(mantainance));
    assert_eq!(dron.get_current_info().get_state(), DronState::Mantainance);
    assert_eq!(dron.get_current_info().get_battery_lvl(), 19);
    assert_eq!(dron.get_current_info().get_inc_id_to_resolve(), Some(7));

    assert_eq!(dron.handle_arrival(), fly(inc.get_position()));
    assert_eq!(dron.get_current_info().get_battery_lvl(), 100);
    assert_eq!(
        dron.get_current_info().get_state(),
        DronState::RespondingToIncident
    );
    assert_eq!(dron.get_current_info().get_current_position(), mantainance);

    assert_eq!(dron.handle_arrival(), MANAGE);
    assert_eq!(
        dron.get_current_info().get_state(),
        DronState::ManagingIncident
    );
    assert_eq!(
        dron.get_current_info().get_current_position(),
        inc.get_position()
    );
}

#[test]
fn low_battery_detour_ends_at_base_when_incident_was_resolved() {
    let mut dron = Dron::new(1, properties());
    let inc = incident(7);
    let center = dron.get_properties().get_range_center_position();
    let mantainance = dron.get_properties().get_mantainance_position();
    dron.handle_incident(&inc, true);
    assert_eq!(dron.handle_battery(19), fly(mantainance));
    assert_eq!(dron.handle_incident(&resolved(7), true), STAY);
    assert_eq!(dron.get_current_info().get_inc_id_to_resolve(), None);
    assert_eq!(dron.get_current_info().get_state(), DronState::Mantainance);
    assert_eq!(dron.handle_arrival(), fly(center));
    assert_eq!(dron.get_current_info().get_battery_lvl(), 100);
    assert_eq!(
        dron.get_current_info().get_state(),
        DronState::ReturningToBase
    );
    assert_eq!(dron.handle_arrival(), PUBLISH);
    assert_eq!(
        dron.get_current_info().get_state(),
        DronState::ExpectingToRecvIncident
    );
}

#[test]
fn returning_dron_with_low_battery_recharges() {
    let mut dron = Dron::new(1, properties());
    let center = dron.get_properties().get_range_center_position();
    let mantainance = dron.get_properties().get_mantainance_position();
    dron.handle_incident(&incident(7), true);
    dron.handle_arrival();
    dron.handle_incident(&resolved(7), true);
    assert_eq!(dron.handle_battery(5), fly(mantainance));
    assert_eq!(dron.handle_arrival(), fly(center));
    assert_eq!(
        dron.get_current_info().get_state(),
        DronState::ReturningToBase
    );
}

#[test]
fn battery_of_a_dron_that_stands_still_is_only_recorded() {
    let mut dron = Dron::new(1, properties());
    dron.handle_incident(&incident(7), true);
    dron.handle_arrival();
    assert_eq!(dron.handle_battery(1), STAY);
    assert_eq!(
        dron.get_current_info().get_state(),
        DronState::ManagingIncident
    );
    assert_eq!(dron.get_current_info().get_battery_lvl(), 1);
}

/// What a drone publishes, as the monitor reads it.
fn published(dron: &Dron) -> DronCurrentInfo {
    DronCurrentInfo::from_bytes(dron.get_current_info().to_bytes()).unwrap()
}

#[test]
fn two_drones_resolve_an_incident() {
    let mut monitor = MonitoreoLogic::new();
    let mut first = Dron::new(1, properties());
    let mut second = Dron::new(2, properties());
    let center = properties().get_range_center_position();

    let id = monitor.get_next_incident_id();
    let inc = Incident::new(
        id,
        ((-34.61f64).to_bits(), (-58.39f64).to_bits()),
        IncidentSource::Manual,
    );
    monitor.add_incident(&inc);
    let heard = Incident::from_bytes(inc.to_bytes()).unwrap();

    for dron in [&mut first, &mut second] {
        assert_eq!(dron.handle_incident(&heard, true), fly(inc.get_position()));
        assert_eq!(published(dron).get_state(), DronState::RespondingToIncident);
        assert_eq!(published(dron).get_inc_id_to_resolve(), Some(id));
        assert!(monitor.handle_drone_message(&published(dron)).is_empty());
    }

    assert_eq!(first.handle_arrival(), MANAGE);
    assert_eq!(published(&first).get_state(), DronState::ManagingIncident);
    assert!(monitor.handle_drone_message(&published(&first)).is_empty());

    assert_eq!(second.handle_arrival(), MANAGE);
    let resolved = monitor.handle_drone_message(&published(&second));
    assert_eq!(resolved.len(), 1);
    assert!(resolved[0].is_resolved());
    let news = Incident::from_bytes(resolved[0].to_bytes()).unwrap();
    assert!(news.is_resolved());
    assert_eq!(news.get_id(), id);

    for dron in [&mut first, &mut second] {
        assert_eq!(dron.handle_incident(&news, true), fly(center));
        assert_eq!(published(dron).get_state(), DronState::ReturningToBase);
        assert!(monitor.handle_drone_message(&published(dron)).is_empty());
        assert_eq!(dron.handle_arrival(), PUBLISH);
        assert_eq!(
            published(dron).get_state(),
            DronState::ExpectingToRecvIncident
        );
        assert_eq!(published(dron).get_current_position(), center);
    }
    assert_eq!(monitor.open_incidents(), 0);
}
