//! The service facade over the store: it generates record ids, forwards
//! each operation, and maps absence to the facade's error vocabulary.

use vstd::prelude::*;
use crate::errors::AppError;
use crate::filter::filter_take;
use crate::filter::query_of;
use crate::models::CreateTelemetryRequest;
use crate::models::TelemetryData;
use crate::models::record_from;
use crate::retention::prune_ids;
use crate::retention::removed_ids_for;
use crate::retention::removed_records;
use crate::retention::surviving;
use crate::shims::fresh_id;
use crate::shims::not_found_message;
use crate::storage::TelemetryStore;
use crate::storage::contains_view;

verus! {

/// Handles telemetry operations on behalf of the transport layer.
pub struct TelemetryService {
    store: TelemetryStore,
}

impl TelemetryService {
    /// The store this service wraps.
    pub closed spec fn store_view(self) -> TelemetryStore {
        self.store
    }

    /// Wraps the provided store.
    pub fn new(store: TelemetryStore) -> (s: Self)
        ensures
            s.store_view() == store,
    {
        TelemetryService { store }
    }

    /// Creates a record from the request under a freshly drawn id and
    /// inserts it into the store.
    pub fn create_telemetry(&mut self, request: CreateTelemetryRequest) -> (r: Result<
        u128,
        AppError,
    >)
        ensures
            r is Ok,
            match r {
                Ok(id) => {
                    &&& final(self).store_view().histories() == old(self).store_view().histories()
                        .insert(
                        request.driver_id@,
                        old(self).store_view().history_of(request.driver_id@).push(
                            record_from(request, id),
                        ),
                    )
                    &&& final(self).store_view().session_index() == old(self).store_view().session_index().insert(
                        request.session_id@,
                        old(self).store_view().session_of(request.session_id@).push(id),
                    )
                    &&& old(self).store_view().wf() && !old(self).store_view().contains_id(id)
                        ==> final(self).store_view().wf()
                },
                Err(_) => true,
            },
    {
        let id: u128 = fresh_id();
        let telemetry = TelemetryData::from_request(request, id);
        match self.store.add(telemetry) {
            Ok(new_id) => Ok(new_id),
            Err(e) => Err(AppError::InternalError(e)),
        }
    }

    /// Owner-scoped filtered read, forwarded to the store. Always
    /// succeeds.
    pub fn get_driver_telemetry(
        &self,
        driver_id: &str,
        start_time: Option<i64>,
        end_time: Option<i64>,
        track_name: Option<&str>,
        car_name: Option<&str>,
        session_type: Option<&str>,
        limit: usize,
    ) -> (r: Result<Vec<TelemetryData>, AppError>)
        ensures
            r is Ok,
            match r {
                Ok(v) => v@ == filter_take(
                    self.store_view().history_of(driver_id@),
                    query_of(start_time, end_time, track_name, car_name, session_type),
                    limit as int,
                ) && v@.len() <= limit,
                Err(_) => true,
            },
    {
        let telemetry = self.store.get_by_driver(
            driver_id,
            start_time,
            end_time,
            track_name,
            car_name,
            session_type,
            limit,
        );
        Ok(telemetry)
    }

    /// Session-scoped read, forwarded to the store. Always succeeds.
    pub fn get_session_telemetry(&self, session_id: &str, limit: usize) -> (r: Result<
        Vec<TelemetryData>,
        AppError,
    >)
        ensures
            r is Ok,
            match r {
                Ok(v) => {
                    &&& self.store_view().ids_unique() ==> v@ == self.store_view().session_view(
                        self.store_view().session_of(session_id@),
                        limit as int,
                    )
                    &&& v@.len() <= limit
                    &&& forall|k: int|
                        0 <= k < v@.len() ==> self.store_view().stores_record(#[trigger] v@[k])
                },
                Err(_) => true,
            },
    {
        let telemetry = self.store.get_by_session(session_id, limit);
        Ok(telemetry)
    }

    /// Point lookup by id; absence becomes the facade's not-found error.
    pub fn get_telemetry_by_id(&self, id: u128) -> (r: Result<TelemetryData, AppError>)
        ensures
            self.store_view().contains_id(id) <==> r is Ok,
            match r {
                Ok(t) => t.id == id && self.store_view().stores_record(t),
                Err(e) => e is NotFound,
            },
    {
        match self.store.get_by_id(id) {
            Some(t) => Ok(t),
            None => Err(AppError::NotFound(not_found_message(id))),
        }
    }

    /// Retention deletion for one owner, forwarded to the store. Always
    /// succeeds; returns how many records were removed.
    pub fn delete_old_records(&mut self, driver_id: &str, older_than: i64) -> (r: Result<
        usize,
        AppError,
    >)
        ensures
            r is Ok,
            match r {
                Ok(count) => {
                    &&& final(self).store_view().histories() == if old(self).store_view().histories().dom().contains(driver_id@) {
                        old(self).store_view().histories().insert(
                            driver_id@,
                            surviving(
                                old(self).store_view().histories()[driver_id@],
                                older_than as int,
                            ),
                        )
                    } else {
                        old(self).store_view().histories()
                    }
                    &&& final(self).store_view().session_index().dom() == old(self).store_view().session_index().dom()
                    &&& forall|s: Seq<char>|
                        old(self).store_view().session_index().dom().contains(s) ==> final(self).store_view().session_index()[s] == prune_ids(
                            old(self).store_view().session_index()[s],
                            removed_ids_for(
                                old(self).store_view().history_of(driver_id@),
                                older_than as int,
                                s,
                            ),
                        )
                    &&& count == removed_records(
                        old(self).store_view().history_of(driver_id@),
                        older_than as int,
                    ).len()
                    &&& old(self).store_view().wf() ==> final(self).store_view().wf()
                },
                Err(_) => true,
            },
    {
        let count = self.store.delete_old_records(driver_id, older_than);
        Ok(count)
    }

    /// The distinct track names, forwarded to the store. Always
    /// succeeds.
    pub fn get_tracks(&self) -> (r: Result<Vec<String>, AppError>)
        ensures
            r is Ok,
            r matches Ok(v) ==> forall|k: int|
                0 <= k < v@.len() ==> self.store_view().track_values().contains(
                    (#[trigger] v@[k])@,
                ),
            r matches Ok(v) ==> forall|val: Seq<char>|
                #[trigger] self.store_view().track_values().contains(val) ==> contains_view(v@, val),
            r matches Ok(v) ==> forall|k1: int, k2: int|
                0 <= k1 < k2 < v@.len() ==> v@[k1]@ != v@[k2]@,
    {
        let tracks = self.store.get_tracks();
        Ok(tracks)
    }

    /// The distinct car names, forwarded to the store. Always succeeds.
    pub fn get_cars(&self) -> (r: Result<Vec<String>, AppError>)
        ensures
            r is Ok,
            r matches Ok(v) ==> forall|k: int|
                0 <= k < v@.len() ==> self.store_view().car_values().contains(
                    (#[trigger] v@[k])@,
                ),
            r matches Ok(v) ==> forall|val: Seq<char>|
                #[trigger] self.store_view().car_values().contains(val) ==> contains_view(v@, val),
            r matches Ok(v) ==> forall|k1: int, k2: int|
                0 <= k1 < k2 < v@.len() ==> v@[k1]@ != v@[k2]@,
    {
        let cars = self.store.get_cars();
        Ok(cars)
    }
}

} // verus!
