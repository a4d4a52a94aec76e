//! Data model of the telemetry store.
//!
//! A [`TelemetryData`] value is one immutable observation. Identifiers are
//! held as plain values: the record id as a `u128`, the timestamp as a
//! signed count of microseconds since the Unix epoch. The vehicle metrics
//! are carried as the IEEE-754 bit patterns of the measured 32-bit values;
//! the store never interprets them, it only stores and returns them.

use vstd::prelude::*;

verus! {

/// One telemetry observation. Once created it is immutable: deletion
/// removes it wholesale, never edits it in place.
#[derive(Debug, PartialEq)]
pub struct TelemetryData {
    /// Globally unique identifier of the record, never reused.
    pub id: u128,
    /// The owning entity; partition key of the primary index.
    pub driver_id: String,
    /// Session this observation belongs to; key of the secondary index.
    pub session_id: String,
    /// Practice, Qualifying or Race.
    pub session_type: String,
    pub track_name: String,
    pub car_name: String,
    /// Speed in km/h, as the bit pattern of the measured 32-bit value.
    pub speed: u32,
    /// Engine RPM, as a 32-bit bit pattern.
    pub rpm: u32,
    /// Current gear: -1 reverse, 0 neutral, 1-8 forward.
    pub gear: i8,
    pub current_lap: u32,
    /// Last lap time in seconds, as a 32-bit bit pattern.
    pub last_lap_time: Option<u32>,
    /// Best lap time in seconds, as a 32-bit bit pattern.
    pub best_lap_time: Option<u32>,
    /// Remaining fuel, as a 32-bit bit pattern.
    pub fuel_level: u32,
    pub throttle_position: u32,
    pub brake_position: u32,
    pub clutch_position: u32,
    pub steering_angle: u32,
    pub tire_temps_fl: u32,
    pub tire_temps_fr: u32,
    pub tire_temps_rl: u32,
    pub tire_temps_rr: u32,
    pub lateral_g: u32,
    pub longitudinal_g: u32,
    pub vertical_g: u32,
    pub track_position: u32,
    pub position_x: u32,
    pub position_y: u32,
    pub position_z: u32,
    /// Moment the observation was recorded, in microseconds since the
    /// Unix epoch.
    pub timestamp: i64,
}

impl Clone for TelemetryData {
    fn clone(&self) -> (res: Self)
        ensures
            res == *self,
    {
        TelemetryData {
            id: self.id,
            driver_id: self.driver_id.clone(),
            session_id: self.session_id.clone(),
            session_type: self.session_type.clone(),
            track_name: self.track_name.clone(),
            car_name: self.car_name.clone(),
            speed: self.speed,
            rpm: self.rpm,
            gear: self.gear,
            current_lap: self.current_lap,
            last_lap_time: self.last_lap_time,
            best_lap_time: self.best_lap_time,
            fuel_level: self.fuel_level,
            throttle_position: self.throttle_position,
            brake_position: self.brake_position,
            clutch_position: self.clutch_position,
            steering_angle: self.steering_angle,
            tire_temps_fl: self.tire_temps_fl,
            tire_temps_fr: self.tire_temps_fr,
            tire_temps_rl: self.tire_temps_rl,
            tire_temps_rr: self.tire_temps_rr,
            lateral_g: self.lateral_g,
            longitudinal_g: self.longitudinal_g,
            vertical_g: self.vertical_g,
            track_position: self.track_position,
            position_x: self.position_x,
            position_y: self.position_y,
            position_z: self.position_z,
            timestamp: self.timestamp,
        }
    }
}

/// A request to create a new record: every attribute of [`TelemetryData`]
/// except the id, which the caller of the store generates.
#[derive(Debug, PartialEq)]
pub struct CreateTelemetryRequest {
    pub driver_id: String,
    pub session_id: String,
    pub session_type: String,
    pub track_name: String,
    pub car_name: String,
    pub speed: u32,
    pub rpm: u32,
    pub gear: i8,
    pub current_lap: u32,
    pub last_lap_time: Option<u32>,
    pub best_lap_time: Option<u32>,
    pub fuel_level: u32,
    pub throttle_position: u32,
    pub brake_position: u32,
    pub clutch_position: u32,
    pub steering_angle: u32,
    pub tire_temps_fl: u32,
    pub tire_temps_fr: u32,
    pub tire_temps_rl: u32,
    pub tire_temps_rr: u32,
    pub lateral_g: u32,
    pub longitudinal_g: u32,
    pub vertical_g: u32,
    pub track_position: u32,
    pub position_x: u32,
    pub position_y: u32,
    pub position_z: u32,
    pub timestamp: i64,
}

/// The record that a creation request and a chosen id determine.
pub open spec fn record_from(req: CreateTelemetryRequest, id: u128) -> TelemetryData {
    TelemetryData {
        id,
        driver_id: req.driver_id,
        session_id: req.session_id,
        session_type: req.session_type,
        track_name: req.track_name,
        car_name: req.car_name,
        speed: req.speed,
        rpm: req.rpm,
        gear: req.gear,
        current_lap: req.current_lap,
        last_lap_time: req.last_lap_time,
        best_lap_time: req.best_lap_time,
        fuel_level: req.fuel_level,
        throttle_position: req.throttle_position,
        brake_position: req.brake_position,
        clutch_position: req.clutch_position,
        steering_angle: req.steering_angle,
        tire_temps_fl: req.tire_temps_fl,
        tire_temps_fr: req.tire_temps_fr,
        tire_temps_rl: req.tire_temps_rl,
        tire_temps_rr: req.tire_temps_rr,
        lateral_g: req.lateral_g,
        longitudinal_g: req.longitudinal_g,
        vertical_g: req.vertical_g,
        track_position: req.track_position,
        position_x: req.position_x,
        position_y: req.position_y,
        position_z: req.position_z,
        timestamp: req.timestamp,
    }
}

impl TelemetryData {
    /// Builds the record for a creation request under a caller-chosen id.
    pub fn from_request(req: CreateTelemetryRequest, id: u128) -> (t: TelemetryData)
        ensures
            t == record_from(req, id),
    {
        TelemetryData {
            id,
            driver_id: req.driver_id,
            session_id: req.session_id,
            session_type: req.session_type,
            track_name: req.track_name,
            car_name: req.car_name,
            speed: req.speed,
            rpm: req.rpm,
            gear: req.gear,
            current_lap: req.current_lap,
            last_lap_time: req.last_lap_time,
            best_lap_time: req.best_lap_time,
            fuel_level: req.fuel_level,
            throttle_position: req.throttle_position,
            brake_position: req.brake_position,
            clutch_position: req.clutch_position,
            steering_angle: req.steering_angle,
            tire_temps_fl: req.tire_temps_fl,
            tire_temps_fr: req.tire_temps_fr,
            tire_temps_rl: req.tire_temps_rl,
            tire_temps_rr: req.tire_temps_rr,
            lateral_g: req.lateral_g,
            longitudinal_g: req.longitudinal_g,
            vertical_g: req.vertical_g,
            track_position: req.track_position,
            position_x: req.position_x,
            position_y: req.position_y,
            position_z: req.position_z,
            timestamp: req.timestamp,
        }
    }
}

/// Query parameters of an owner-scoped read: optional inclusive time
/// bounds, optional equality constraints, and a result cap.
#[derive(Debug, PartialEq)]
pub struct TelemetryQuery {
    /// Inclusive lower bound on the timestamp.
    pub start_time: Option<i64>,
    /// Inclusive upper bound on the timestamp.
    pub end_time: Option<i64>,
    pub track_name: Option<String>,
    pub car_name: Option<String>,
    pub session_type: Option<String>,
    /// Maximum number of records returned.
    pub limit: usize,
}

/// Query parameters of reads that take only a result cap.
#[derive(Debug, PartialEq)]
pub struct LimitQuery {
    pub limit: Option<usize>,
}

/// Body of a retention-deletion request: the inclusive survival cutoff,
/// in microseconds since the Unix epoch.
#[derive(Debug, PartialEq)]
pub struct DeleteOldRecordsRequest {
    pub older_than: i64,
}

/// The result cap applied when a query names none.
pub fn default_limit() -> (n: usize)
    ensures
        n == 100,
{
    100
}

} // verus!
