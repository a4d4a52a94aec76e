use rustegrate::models::TelemetryData;
use rustegrate::storage::TelemetryStore;

fn record(id: u128, driver: &str, session: &str, timestamp: i64) -> TelemetryData {
    TelemetryData {
        id,
        driver_id: driver.to_string(),
        session_id: session.to_string(),
        session_type: "Race".to_string(),
        track_name: "Daytona".to_string(),
        car_name: "GT3".to_string(),
        speed: 0,
        rpm: 0,
        gear: 3,
        current_lap: 1,
        last_lap_time: None,
        best_lap_time: None,
        fuel_level: 0,
        throttle_position: 0,
        brake_position: 0,
        clutch_position: 0,
        steering_angle: 0,
        tire_temps_fl: 0,
        tire_temps_fr: 0,
        tire_temps_rl: 0,
        tire_temps_rr: 0,
        lateral_g: 0,
        longitudinal_g: 0,
        vertical_g: 0,
        track_position: 0,
        position_x: 0,
        position_y: 0,
        position_z: 0,
        timestamp,
    }
}

#[test]
fn unknown_owner_yields_empty() {
    let store = TelemetryStore::new();
    let out = store.get_by_driver("nobody", None, None, None, None, None, 10);
    assert!(out.is_empty());
}

#[test]
fn unknown_session_yields_empty() {
    let store = TelemetryStore::new();
    let out = store.get_by_session("no-session", 10);
    assert!(out.is_empty());
}

#[test]
fn add_returns_the_record_id() {
    let mut store = TelemetryStore::new();
    let r = store.add(record(7, "d1", "s1", 100));
    assert_eq!(r, Ok(7));
}

#[test]
fn insertion_order_is_preserved() {
    let mut store = TelemetryStore::new();
    // out of temporal order on purpose: the store must not re-sort
    store.add(record(1, "d1", "s1", 300)).unwrap();
    store.add(record(2, "d1", "s1", 100)).unwrap();
    store.add(record(3, "d1", "s1", 200)).unwrap();
    let out = store.get_by_driver("d1", None, None, None, None, None, 10);
    let ids: Vec<u128> = out.iter().map(|t| t.id).collect();
    assert_eq!(ids, vec![1, 2, 3]);
}

#[test]
fn insert_isolation_between_owners() {
    let mut store = TelemetryStore::new();
    store.add(record(1, "b", "s1", 100)).unwrap();
    let before = store.get_by_driver("b", None, None, None, None, None, 10);
    for k in 0..5u128 {
        store.add(record(10 + k, "a", "s2", 100)).unwrap();
    }
    let after = store.get_by_driver("b", None, None, None, None, None, 10);
    assert_eq!(before, after);
}

#[test]
fn limit_zero_yields_empty() {
    let mut store = TelemetryStore::new();
    store.add(record(1, "d1", "s1", 100)).unwrap();
    let out = store.get_by_driver("d1", None, None, None, None, None, 0);
    assert!(out.is_empty());
    let out = store.get_by_session("s1", 0);
    assert!(out.is_empty());
}

#[test]
fn limit_caps_the_result() {
    let mut store = TelemetryStore::new();
    for k in 0..6u128 {
        store.add(record(k, "d1", "s1", k as i64)).unwrap();
    }
    let out = store.get_by_driver("d1", None, None, None, None, None, 4);
    let ids: Vec<u128> = out.iter().map(|t| t.id).collect();
    assert_eq!(ids, vec![0, 1, 2, 3]);
    let out = store.get_by_session("s1", 2);
    let ids: Vec<u128> = out.iter().map(|t| t.id).collect();
    assert_eq!(ids, vec![0, 1]);
}

#[test]
fn time_bounds_are_inclusive() {
    let mut store = TelemetryStore::new();
    store.add(record(1, "d1", "s1", 100)).unwrap();
    store.add(record(2, "d1", "s1", 200)).unwrap();
    store.add(record(3, "d1", "s1", 300)).unwrap();
    let out = store.get_by_driver("d1", Some(100), Some(200), None, None, None, 10);
    let ids: Vec<u128> = out.iter().map(|t| t.id).collect();
    assert_eq!(ids, vec![1, 2]);
}

#[test]
fn attribute_filters_are_conjunctive() {
    let mut store = TelemetryStore::new();
    let mut a = record(1, "d1", "s1", 100);
    a.track_name = "Monza".to_string();
    a.car_name = "GT3".to_string();
    let mut b = record(2, "d1", "s1", 100);
    b.track_name = "Monza".to_string();
    b.car_name = "LMP2".to_string();
    let mut c = record(3, "d1", "s1", 100);
    c.track_name = "Spa".to_string();
    c.car_name = "GT3".to_string();
    store.add(a).unwrap();
    store.add(b).unwrap();
    store.add(c).unwrap();
    let both = store.get_by_driver("d1", None, None, Some("Monza"), Some("GT3"), None, 10);
    let ids: Vec<u128> = both.iter().map(|t| t.id).collect();
    assert_eq!(ids, vec![1]);
    // removing one constraint can only grow the result
    let track_only = store.get_by_driver("d1", None, None, Some("Monza"), None, None, 10);
    let ids: Vec<u128> = track_only.iter().map(|t| t.id).collect();
    assert_eq!(ids, vec![1, 2]);
    let none = store.get_by_driver("d1", None, None, None, None, None, 10);
    assert_eq!(none.len(), 3);
}

#[test]
fn get_by_id_finds_the_record() {
    let mut store = TelemetryStore::new();
    store.add(record(5, "d1", "s1", 100)).unwrap();
    store.add(record(6, "d2", "s2", 200)).unwrap();
    let t = store.get_by_id(6).unwrap();
    assert_eq!(t.id, 6);
    assert_eq!(t.driver_id, "d2");
    assert!(store.get_by_id(99).is_none());
}

#[test]
fn three_records_delete_middle_cutoff() {
    // insert t1 < t2 < t3, delete older than t2: one removed, t2 and t3 stay
    let mut store = TelemetryStore::new();
    store.add(record(1, "d1", "s1", 100)).unwrap();
    store.add(record(2, "d1", "s1", 200)).unwrap();
    store.add(record(3, "d1", "s1", 300)).unwrap();
    let removed = store.delete_old_records("d1", 200);
    assert_eq!(removed, 1);
    let out = store.get_by_driver("d1", None, None, None, None, None, 10);
    let ts: Vec<i64> = out.iter().map(|t| t.timestamp).collect();
    assert_eq!(ts, vec![200, 300]);
    assert!(store.get_by_id(1).is_none());
    let by_session = store.get_by_session("s1", 10);
    let ids: Vec<u128> = by_session.iter().map(|t| t.id).collect();
    assert_eq!(ids, vec![2, 3]);
}

#[test]
fn delete_count_matches_history_shrinkage() {
    let mut store = TelemetryStore::new();
    for k in 0..8u128 {
        store.add(record(k, "d1", "s1", k as i64 * 10)).unwrap();
    }
    let before = store.get_by_driver("d1", None, None, None, None, None, 100).len();
    let removed = store.delete_old_records("d1", 45);
    let after = store.get_by_driver("d1", None, None, None, None, None, 100).len();
    assert_eq!(removed, before - after);
    assert_eq!(removed, 5);
}

#[test]
fn delete_unknown_owner_returns_zero() {
    let mut store = TelemetryStore::new();
    store.add(record(1, "d1", "s1", 100)).unwrap();
    assert_eq!(store.delete_old_records("ghost", 1000), 0);
    assert_eq!(store.get_by_driver("d1", None, None, None, None, None, 10).len(), 1);
}

#[test]
fn deletion_keeps_other_owners_session_entries() {
    let mut store = TelemetryStore::new();
    store.add(record(1, "d1", "shared", 100)).unwrap();
    store.add(record(2, "d2", "shared", 100)).unwrap();
    let removed = store.delete_old_records("d1", 500);
    assert_eq!(removed, 1);
    let by_session = store.get_by_session("shared", 10);
    let ids: Vec<u128> = by_session.iter().map(|t| t.id).collect();
    assert_eq!(ids, vec![2]);
}

#[test]
fn session_query_spans_owners_in_insertion_order() {
    let mut store = TelemetryStore::new();
    store.add(record(1, "d1", "s1", 100)).unwrap();
    store.add(record(2, "d2", "s1", 50)).unwrap();
    let out = store.get_by_session("s1", 10);
    let ids: Vec<u128> = out.iter().map(|t| t.id).collect();
    assert_eq!(ids, vec![1, 2]);
}

#[test]
fn sequential_inserts_lose_no_writes() {
    let mut store = TelemetryStore::new();
    for k in 0..50u128 {
        assert_eq!(store.add(record(k, "d1", "s1", k as i64)), Ok(k));
    }
    let out = store.get_by_driver("d1", None, None, None, None, None, 100);
    assert_eq!(out.len(), 50);
    for (k, t) in out.iter().enumerate() {
        assert_eq!(t.id, k as u128);
    }
}

#[test]
fn tracks_and_cars_are_distinct_sets() {
    let mut store = TelemetryStore::new();
    let mut a = record(1, "d1", "s1", 100);
    a.track_name = "Monza".to_string();
    a.car_name = "GT3".to_string();
    let mut b = record(2, "d2", "s2", 100);
    b.track_name = "Monza".to_string();
    b.car_name = "LMP2".to_string();
    let mut c = record(3, "d1", "s1", 100);
    c.track_name = "Spa".to_string();
    c.car_name = "GT3".to_string();
    store.add(a).unwrap();
    store.add(b).unwrap();
    store.add(c).unwrap();
    let mut tracks = store.get_tracks();
    tracks.sort();
    assert_eq!(tracks, vec!["Monza".to_string(), "Spa".to_string()]);
    let mut cars = store.get_cars();
    cars.sort();
    assert_eq!(cars, vec!["GT3".to_string(), "LMP2".to_string()]);
}
