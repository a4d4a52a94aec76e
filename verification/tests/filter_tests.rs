use rustegrate::filter::record_matches;
use rustegrate::models::TelemetryData;

fn sample() -> TelemetryData {
    TelemetryData {
        id: 1,
        driver_id: "d1".to_string(),
        session_id: "s1".to_string(),
        session_type: "Race".to_string(),
        track_name: "Monza".to_string(),
        car_name: "GT3".to_string(),
        speed: 0,
        rpm: 0,
        gear: 4,
        current_lap: 2,
        last_lap_time: None,
        best_lap_time: None,
        fuel_level: 0,
        throttle_position: 0,
        brake_position: 0,
        clutch_position: 0,
        steering_angle: 0,
        tire_temps_fl: 0,
        tire_temps_fr: 0,
        tire_temps_rl: 0,
        tire_temps_rr: 0,
        lateral_g: 0,
        longitudinal_g: 0,
        vertical_g: 0,
        track_position: 0,
        position_x: 0,
        position_y: 0,
        position_z: 0,
        timestamp: 500,
    }
}

#[test]
fn absent_predicates_are_vacuously_true() {
    let t = sample();
    assert!(record_matches(&t, None, None, None, None, None));
}

#[test]
fn start_time_bound_is_inclusive() {
    let t = sample();
    assert!(record_matches(&t, Some(500), None, None, None, None));
    assert!(record_matches(&t, Some(499), None, None, None, None));
    assert!(!record_matches(&t, Some(501), None, None, None, None));
}

#[test]
fn end_time_bound_is_inclusive() {
    let t = sample();
    assert!(record_matches(&t, None, Some(500), None, None, None));
    assert!(record_matches(&t, None, Some(501), None, None, None));
    assert!(!record_matches(&t, None, Some(499), None, None, None));
}

#[test]
fn track_filter_is_equality() {
    let t = sample();
    assert!(record_matches(&t, None, None, Some("Monza"), None, None));
    assert!(!record_matches(&t, None, None, Some("Spa"), None, None));
}

#[test]
fn car_filter_is_equality() {
    let t = sample();
    assert!(record_matches(&t, None, None, None, Some("GT3"), None));
    assert!(!record_matches(&t, None, None, None, Some("LMP2"), None));
}

#[test]
fn session_type_filter_is_equality() {
    let t = sample();
    assert!(record_matches(&t, None, None, None, None, Some("Race")));
    assert!(!record_matches(&t, None, None, None, None, Some("Practice")));
}

#[test]
fn match_is_the_conjunction_of_all_predicates() {
    let t = sample();
    assert!(record_matches(&t, Some(400), Some(600), Some("Monza"), Some("GT3"), Some("Race")));
    // one failing predicate fails the whole conjunction
    assert!(!record_matches(&t, Some(400), Some(600), Some("Monza"), Some("GT3"), Some("Practice")));
    assert!(!record_matches(&t, Some(600), Some(600), Some("Monza"), Some("GT3"), Some("Race")));
}
