use rustegrate::errors::AppError;
use rustegrate::models::CreateTelemetryRequest;
use rustegrate::service::TelemetryService;
use rustegrate::storage::TelemetryStore;

fn request(driver: &str, session: &str, timestamp: i64) -> CreateTelemetryRequest {
    CreateTelemetryRequest {
        driver_id: driver.to_string(),
        session_id: session.to_string(),
        session_type: "Race".to_string(),
        track_name: "Daytona".to_string(),
        car_name: "GT3".to_string(),
        speed: 0,
        rpm: 0,
        gear: 1,
        current_lap: 1,
        last_lap_time: None,
        best_lap_time: None,
        fuel_level: 0,
        throttle_position: 0,
        brake_position: 0,
        clutch_position: 0,
        steering_angle: 0,
        tire_temps_fl: 0,
        tire_temps_fr: 0,
        tire_temps_rl: 0,
        tire_temps_rr: 0,
        lateral_g: 0,
        longitudinal_g: 0,
        vertical_g: 0,
        track_position: 0,
        position_x: 0,
        position_y: 0,
        position_z: 0,
        timestamp,
    }
}

#[test]
fn created_record_is_retrievable_by_its_id() {
    let mut service = TelemetryService::new(TelemetryStore::new());
    let id = service.create_telemetry(request("d1", "s1", 100)).unwrap();
    let t = service.get_telemetry_by_id(id).unwrap();
    assert_eq!(t.id, id);
    assert_eq!(t.driver_id, "d1");
    assert_eq!(t.session_id, "s1");
    assert_eq!(t.timestamp, 100);
}

#[test]
fn created_records_get_fresh_ids() {
    let mut service = TelemetryService::new(TelemetryStore::new());
    let a = service.create_telemetry(request("d1", "s1", 100)).unwrap();
    let b = service.create_telemetry(request("d1", "s1", 200)).unwrap();
    assert_ne!(a, b);
}

#[test]
fn missing_id_maps_to_not_found() {
    let service = TelemetryService::new(TelemetryStore::new());
    match service.get_telemetry_by_id(42) {
        Err(AppError::NotFound(msg)) => {
            assert!(msg.contains("not found"));
        }
        other => panic!("expected a not-found error, got {:?}", other),
    }
}

#[test]
fn driver_query_through_the_service() {
    let mut service = TelemetryService::new(TelemetryStore::new());
    service.create_telemetry(request("d1", "s1", 100)).unwrap();
    service.create_telemetry(request("d2", "s1", 200)).unwrap();
    let out = service
        .get_driver_telemetry("d1", None, None, None, None, None, 10)
        .unwrap();
    assert_eq!(out.len(), 1);
    assert_eq!(out[0].driver_id, "d1");
}

#[test]
fn session_query_through_the_service() {
    let mut service = TelemetryService::new(TelemetryStore::new());
    service.create_telemetry(request("d1", "s1", 100)).unwrap();
    service.create_telemetry(request("d2", "s1", 200)).unwrap();
    service.create_telemetry(request("d3", "other", 300)).unwrap();
    let out = service.get_session_telemetry("s1", 10).unwrap();
    assert_eq!(out.len(), 2);
    assert_eq!(out[0].driver_id, "d1");
    assert_eq!(out[1].driver_id, "d2");
}

#[test]
fn delete_through_the_service_reports_the_count() {
    let mut service = TelemetryService::new(TelemetryStore::new());
    service.create_telemetry(request("d1", "s1", 100)).unwrap();
    service.create_telemetry(request("d1", "s1", 200)).unwrap();
    service.create_telemetry(request("d1", "s1", 300)).unwrap();
    let removed = service.delete_old_records("d1", 250).unwrap();
    assert_eq!(removed, 2);
    let left = service
        .get_driver_telemetry("d1", None, None, None, None, None, 10)
        .unwrap();
    assert_eq!(left.len(), 1);
    assert_eq!(left[0].timestamp, 300);
}

#[test]
fn tracks_and_cars_through_the_service() {
    let mut service = TelemetryService::new(TelemetryStore::new());
    let mut a = request("d1", "s1", 100);
    a.track_name = "Monza".to_string();
    let mut b = request("d2", "s2", 100);
    b.track_name = "Monza".to_string();
    b.car_name = "LMP2".to_string();
    service.create_telemetry(a).unwrap();
    service.create_telemetry(b).unwrap();
    let mut tracks = service.get_tracks().unwrap();
    tracks.sort();
    assert_eq!(tracks, vec!["Monza".to_string()]);
    let mut cars = service.get_cars().unwrap();
    cars.sort();
    assert_eq!(cars, vec!["GT3".to_string(), "LMP2".to_string()]);
}

#[test]
fn error_variants_carry_their_message() {
    let bad = AppError::BadRequest("Invalid UUID format".to_string());
    assert!(matches!(bad, AppError::BadRequest(_)));
    let unauthorized = AppError::Unauthorized("no token".to_string());
    assert!(matches!(unauthorized, AppError::Unauthorized(_)));
    let internal = AppError::InternalError("unexpected".to_string());
    assert!(matches!(internal, AppError::InternalError(_)));
}
