//! The telemetry store: a primary index from owner to insertion-ordered
//! record history and a secondary index from session to ordered record
//! ids, kept in lock-step by every insert and deletion.

use vstd::prelude::*;
use crate::concurrent_map::HistoryIndex;
use crate::concurrent_map::SessionIndex;
use crate::concurrent_map::history_entries;
use crate::concurrent_map::session_entries;
use crate::concurrent_map::history_map_new;
use crate::concurrent_map::history_map_get;
use crate::concurrent_map::history_map_remove;
use crate::concurrent_map::history_map_insert;
use crate::concurrent_map::history_map_keys;
use crate::concurrent_map::session_map_new;
use crate::concurrent_map::session_map_get;
use crate::concurrent_map::session_map_remove;
use crate::concurrent_map::session_map_insert;
use crate::models::TelemetryData;
use crate::shims::str_eq;
use crate::filter::filter_take;
use crate::filter::query_of;
use crate::filter::lemma_filter_take_unfold;
use crate::filter::record_matches;
use crate::filter::matches_query;
use crate::retention::surviving;
use crate::retention::removed_records;
use crate::retention::removed_ids_for;
use crate::retention::removed_ids_before;
use crate::retention::prune_ids;
use crate::retention::lemma_partition_unfold;
use crate::retention::lemma_prune_unfold;
use crate::retention::lemma_surviving_membership;
use crate::retention::lemma_partition_len;
use crate::retention::lemma_prune_membership;
use crate::retention::lemma_prune_compose;
use crate::retention::lemma_prune_noop;
use crate::retention::lemma_surviving_distinct;
use crate::retention::lemma_removed_ids_before_step;
use crate::retention::lemma_removed_ids_complete;

verus! {

/// The aggregate owning both indexes. Created empty at process start;
/// owner and session slots appear lazily on first insert and persist,
/// possibly empty, for the life of the store.
pub struct TelemetryStore {
    /// Primary index: owner to a vector of that owner's records.
    data: HistoryIndex,
    /// Secondary index: session to a vector of record ids.
    sessions: SessionIndex,
}

impl TelemetryStore {
    /// The primary index as a map from owner to record history.
    pub closed spec fn histories(self) -> Map<Seq<char>, Seq<TelemetryData>> {
        history_entries(self.data)
    }

    /// The secondary index as a map from session to record ids.
    pub closed spec fn session_index(self) -> Map<Seq<char>, Seq<u128>> {
        session_entries(self.sessions)
    }

    /// The history of one owner; empty when the owner is unknown.
    pub open spec fn history_of(self, owner: Seq<char>) -> Seq<TelemetryData> {
        if self.histories().dom().contains(owner) {
            self.histories()[owner]
        } else {
            Seq::empty()
        }
    }

    /// The id list of one session; empty when the session is unknown.
    pub open spec fn session_of(self, session: Seq<char>) -> Seq<u128> {
        if self.session_index().dom().contains(session) {
            self.session_index()[session]
        } else {
            Seq::empty()
        }
    }

    /// `i` indexes a record of owner `d`.
    pub open spec fn valid_pos(self, d: Seq<char>, i: int) -> bool {
        self.histories().dom().contains(d) && 0 <= i < self.histories()[d].len()
    }

    /// Some history holds a record with this id.
    pub open spec fn contains_id(self, id: u128) -> bool {
        exists|d: Seq<char>, i: int|
            self.valid_pos(d, i) && (#[trigger] self.histories()[d][i]).id == id
    }

    /// The store holds this very record at some position.
    pub open spec fn stores_record(self, t: TelemetryData) -> bool {
        exists|d: Seq<char>, i: int|
            self.valid_pos(d, i) && #[trigger] self.histories()[d][i] == t
    }

    /// The record stored under this id; determined when ids are unique
    /// and some history holds the id.
    pub open spec fn record_of_id(self, id: u128) -> TelemetryData {
        let (d, i): (Seq<char>, int) = choose|d: Seq<char>, i: int|
            self.valid_pos(d, i) && (#[trigger] self.histories()[d][i]).id == id;
        self.histories()[d][i]
    }

    /// What a session read returns: each id of the list resolved to its
    /// stored record, in order, unresolvable ids silently skipped, and
    /// the result capped at `limit`.
    pub open spec fn session_view(self, ids: Seq<u128>, limit: int) -> Seq<TelemetryData>
        decreases ids.len(),
    {
        if ids.len() == 0 || limit <= 0 {
            Seq::empty()
        } else if self.contains_id(ids[0]) {
            seq![self.record_of_id(ids[0])] + self.session_view(ids.drop_first(), limit - 1)
        } else {
            self.session_view(ids.drop_first(), limit)
        }
    }

    /// Unfolds `session_view` one id at a time over a suffix of `ids`.
    pub proof fn lemma_session_view_unfold(self, ids: Seq<u128>, limit: int, i: int)
        requires
            0 <= i < ids.len(),
        ensures
            self.session_view(ids.skip(i), limit) == if limit <= 0 {
                Seq::<TelemetryData>::empty()
            } else if self.contains_id(ids[i]) {
                seq![self.record_of_id(ids[i])] + self.session_view(ids.skip(i + 1), limit - 1)
            } else {
                self.session_view(ids.skip(i + 1), limit)
            },
    {
        assert(ids.skip(i).len() == ids.len() - i);
        assert(ids.skip(i)[0] == ids[i]);
        assert(ids.skip(i).drop_first() =~= ids.skip(i + 1));
    }

    /// With unique ids, resolving the id of a stored record gives back
    /// that record.
    pub proof fn lemma_record_of_id_agrees(self, t: TelemetryData)
        requires
            self.ids_unique(),
            self.stores_record(t),
        ensures
            self.contains_id(t.id),
            self.record_of_id(t.id) == t,
    {
        let (d0, i0): (Seq<char>, int) = choose|d: Seq<char>, i: int|
            self.valid_pos(d, i) && #[trigger] self.histories()[d][i] == t;
        assert(self.histories()[d0][i0].id == t.id);
        let (d, i): (Seq<char>, int) = choose|d: Seq<char>, i: int|
            self.valid_pos(d, i) && (#[trigger] self.histories()[d][i]).id == t.id;
        assert(d == d0 && i == i0);
    }

    /// The set of track names over all stored records.
    pub open spec fn track_values(self) -> Set<Seq<char>> {
        Set::new(
            |v: Seq<char>|
                exists|d: Seq<char>, i: int|
                    self.valid_pos(d, i) && (#[trigger] self.histories()[d][i]).track_name@ == v,
        )
    }

    /// The set of car names over all stored records.
    pub open spec fn car_values(self) -> Set<Seq<char>> {
        Set::new(
            |v: Seq<char>|
                exists|d: Seq<char>, i: int|
                    self.valid_pos(d, i) && (#[trigger] self.histories()[d][i]).car_name@ == v,
        )
    }

    /// Every record sits in the history of its own owner.
    pub open spec fn records_owned(self) -> bool {
        forall|d: Seq<char>, i: int|
            self.valid_pos(d, i) ==> (#[trigger] self.histories()[d][i]).driver_id@ == d
    }

    /// No record id occurs twice across all histories.
    pub open spec fn ids_unique(self) -> bool {
        forall|d1: Seq<char>, i1: int, d2: Seq<char>, i2: int|
            self.valid_pos(d1, i1) && self.valid_pos(d2, i2) && (
            #[trigger] self.histories()[d1][i1]).id == (#[trigger] self.histories()[d2][i2]).id
                ==> d1 == d2 && i1 == i2
    }

    /// Every stored record is listed in its session's id list.
    pub open spec fn sessions_complete(self) -> bool {
        forall|d: Seq<char>, i: int|
            self.valid_pos(d, i) ==> self.session_of(
                (#[trigger] self.histories()[d][i]).session_id@,
            ).contains(self.histories()[d][i].id)
    }

    /// Some history holds a record with this id, filed for session `s`.
    pub open spec fn id_resolves(self, id: u128, s: Seq<char>) -> bool {
        exists|d: Seq<char>, i: int|
            self.valid_pos(d, i) && (#[trigger] self.histories()[d][i]).id == id
                && self.histories()[d][i].session_id@ == s
    }

    /// Every id in a session's list refers to a stored record of that
    /// session.
    pub open spec fn sessions_sound(self) -> bool {
        forall|s: Seq<char>, j: int|
            self.session_index().dom().contains(s) && 0 <= j < self.session_index()[s].len()
                ==> self.id_resolves(#[trigger] self.session_index()[s][j], s)
    }

    /// The two indexes are in lock-step: records are filed under their
    /// owner, ids are globally unique, and the session lists mention
    /// exactly the stored records of their session.
    pub open spec fn wf(self) -> bool {
        &&& self.records_owned()
        &&& self.ids_unique()
        &&& self.sessions_complete()
        &&& self.sessions_sound()
    }

    /// Creates an empty store.
    pub fn new() -> (s: Self)
        ensures
            s.histories() == Map::<Seq<char>, Seq<TelemetryData>>::empty(),
            s.session_index() == Map::<Seq<char>, Seq<u128>>::empty(),
            s.wf(),
    {
        Self::default()
    }

    /// Appends the record to its owner's history and its id to its
    /// session's list. Always succeeds; unrelated owners and sessions
    /// are untouched. The indexes stay in lock-step provided the id is
    /// fresh, as the caller that generates ids guarantees.
    pub fn add(&mut self, telemetry: TelemetryData) -> (r: Result<u128, String>)
        ensures
            r == Ok::<u128, String>(telemetry.id),
            final(self).histories() == old(self).histories().insert(
                telemetry.driver_id@,
                old(self).history_of(telemetry.driver_id@).push(telemetry),
            ),
            final(self).session_index() == old(self).session_index().insert(
                telemetry.session_id@,
                old(self).session_of(telemetry.session_id@).push(telemetry.id),
            ),
            old(self).wf() && !old(self).contains_id(telemetry.id) ==> final(self).wf(),
    {
        let ghost pre = *self;
        let driver_id: String = telemetry.driver_id.clone();
        let session_id: String = telemetry.session_id.clone();
        let id: u128 = telemetry.id;

        let mut hist: Vec<TelemetryData> = match history_map_remove(&mut self.data, driver_id.as_str()) {
            Some(v) => v,
            None => Vec::new(),
        };
        hist.push(telemetry);
        history_map_insert(&mut self.data, driver_id, hist);

        let mut ids: Vec<u128> = match session_map_remove(&mut self.sessions, session_id.as_str()) {
            Some(v) => v,
            None => Vec::new(),
        };
        ids.push(id);
        session_map_insert(&mut self.sessions, session_id, ids);

        proof {
            assert(self.histories() =~= pre.histories().insert(
                telemetry.driver_id@,
                pre.history_of(telemetry.driver_id@).push(telemetry),
            ));
            assert(self.session_index() =~= pre.session_index().insert(
                telemetry.session_id@,
                pre.session_of(telemetry.session_id@).push(telemetry.id),
            ));
            if pre.wf() && !pre.contains_id(telemetry.id) {
                lemma_add_preserves_wf(pre, *self, telemetry);
            }
        }
        Ok(id)
    }

    /// Scans the owner's history in insertion order, keeps the records
    /// that satisfy every given sub-predicate, and stops once `limit`
    /// matches are collected. An unknown owner yields an empty result,
    /// never an error.
    pub fn get_by_driver(
        &self,
        driver_id: &str,
        start_time: Option<i64>,
        end_time: Option<i64>,
        track_name: Option<&str>,
        car_name: Option<&str>,
        session_type: Option<&str>,
        limit: usize,
    ) -> (r: Vec<TelemetryData>)
        ensures
            r@ == filter_take(
                self.history_of(driver_id@),
                query_of(start_time, end_time, track_name, car_name, session_type),
                limit as int,
            ),
            r@.len() <= limit,
    {
        let ghost q = query_of(start_time, end_time, track_name, car_name, session_type);
        let ghost hist = self.history_of(driver_id@);
        match history_map_get(&self.data, driver_id) {
            Some(data) => {
                let mut out: Vec<TelemetryData> = Vec::new();
                let mut i: usize = 0;
                proof {
                    assert(hist.skip(0) =~= hist);
                    assert(Seq::<TelemetryData>::empty() + filter_take(hist, q, limit as int)
                        =~= filter_take(hist, q, limit as int));
                }
                while i < data.len() && out.len() < limit
                    invariant
                        i <= data.len(),
                        data@ == hist,
                        q == query_of(start_time, end_time, track_name, car_name, session_type),
                        out@.len() <= limit,
                        filter_take(hist, q, limit as int) == out@ + filter_take(
                            hist.skip(i as int),
                            q,
                            limit as int - out@.len() as int,
                        ),
                    decreases data.len() - i,
                {
                    let ghost out_pre = out@;
                    let ghost cap: int = limit as int - out@.len() as int;
                    let t: &TelemetryData = &data[i];
                    proof {
                        lemma_filter_take_unfold(hist, q, cap, i as int);
                        assert(cap > 0);
                        assert(*t == hist[i as int]);
                    }
                    if record_matches(t, start_time, end_time, track_name, car_name, session_type) {
                        out.push(t.clone());
                        proof {
                            assert(matches_query(hist[i as int], q));
                            assert(filter_take(hist.skip(i as int), q, cap) == seq![hist[i as int]]
                                + filter_take(hist.skip(i as int + 1), q, cap - 1));
                            assert(out@ + filter_take(hist.skip(i as int + 1), q, cap - 1)
                                =~= out_pre + (seq![hist[i as int]] + filter_take(
                                hist.skip(i as int + 1),
                                q,
                                cap - 1,
                            )));
                            assert(filter_take(hist, q, limit as int) == out@ + filter_take(
                                hist.skip(i as int + 1),
                                q,
                                cap - 1,
                            ));
                        }
                    } else {
                        proof {
                            assert(!matches_query(hist[i as int], q));
                            assert(filter_take(hist, q, limit as int) == out@ + filter_take(
                                hist.skip(i as int + 1),
                                q,
                                cap,
                            ));
                        }
                    }
                    i += 1;
                }
                proof {
                    if i == data.len() {
                        assert(hist.skip(i as int) =~= Seq::empty());
                    }
                    assert(out@ + Seq::<TelemetryData>::empty() =~= out@);
                }
                out
            },
            None => {
                proof {
                    assert(Seq::<TelemetryData>::empty() =~= filter_take(hist, q, limit as int));
                }
                Vec::new()
            },
        }
    }

    /// Looks a record up by its id with a linear scan across all owner
    /// histories, returning the stored record or absence.
    pub fn get_by_id(&self, id: u128) -> (r: Option<TelemetryData>)
        ensures
            self.contains_id(id) <==> r is Some,
            match r {
                Some(t) => t.id == id && self.stores_record(t),
                None => true,
            },
    {
        let keys = history_map_keys(&self.data);
        let mut ki: usize = 0;
        while ki < keys.len()
            invariant
                ki <= keys.len(),
                forall|k: int|
                    0 <= k < keys@.len() ==> self.histories().dom().contains(#[trigger] keys@[k]@),
                forall|sq: Seq<char>|
                    self.histories().dom().contains(sq) ==> exists|k: int|
                        0 <= k < keys@.len() && #[trigger] keys@[k]@ == sq,
                forall|k: int| 0 <= k < ki ==> no_id_in(self.histories()[(#[trigger] keys@[k])@], id),
            decreases keys.len() - ki,
        {
            let ghost gk = keys@[ki as int]@;
            match history_map_get(&self.data, keys[ki].as_str()) {
                Some(data) => {
                    let mut j: usize = 0;
                    while j < data.len()
                        invariant
                            j <= data.len(),
                            self.histories().dom().contains(gk),
                            data@ == self.histories()[gk],
                            forall|x: int| 0 <= x < j ==> (#[trigger] data@[x]).id != id,
                        decreases data.len() - j,
                    {
                        if data[j].id == id {
                            let found = data[j].clone();
                            proof {
                                assert(self.valid_pos(gk, j as int));
                                assert(self.histories()[gk][j as int] == found);
                            }
                            return Some(found);
                        }
                        j += 1;
                    }
                },
                None => {
                    proof {
                        assert(false);
                    }
                },
            }
            ki += 1;
        }
        proof {
            if self.contains_id(id) {
                let (d, i): (Seq<char>, int) = choose|d: Seq<char>, i: int|
                    self.valid_pos(d, i) && (#[trigger] self.histories()[d][i]).id == id;
                let k = choose|k: int| 0 <= k < keys@.len() && #[trigger] keys@[k]@ == d;
                assert(no_id_in(self.histories()[d], id));
                assert(false);
            }
        }
        None
    }

    /// Resolves the session's id list through `get_by_id`, in order,
    /// skipping any id that does not resolve, and stops at `limit`
    /// records. An unknown session yields an empty result, never an
    /// error.
    pub fn get_by_session(&self, session_id: &str, limit: usize) -> (r: Vec<TelemetryData>)
        ensures
            self.ids_unique() ==> r@ == self.session_view(
                self.session_of(session_id@),
                limit as int,
            ),
            r@.len() <= limit,
            forall|k: int| 0 <= k < r@.len() ==> self.stores_record(#[trigger] r@[k]),
    {
        let ghost sids = self.session_of(session_id@);
        match session_map_get(&self.sessions, session_id) {
            Some(ids) => {
                let mut results: Vec<TelemetryData> = Vec::new();
                let mut j: usize = 0;
                proof {
                    assert(sids.skip(0) =~= sids);
                    if self.ids_unique() {
                        assert(Seq::<TelemetryData>::empty() + self.session_view(sids, limit as int)
                            =~= self.session_view(sids, limit as int));
                    }
                }
                while j < ids.len() && results.len() < limit
                    invariant
                        j <= ids.len(),
                        ids@ == sids,
                        results@.len() <= limit,
                        forall|k: int|
                            0 <= k < results@.len() ==> self.stores_record(#[trigger] results@[k]),
                        self.ids_unique() ==> self.session_view(sids, limit as int) == results@
                            + self.session_view(
                            sids.skip(j as int),
                            limit as int - results@.len() as int,
                        ),
                    decreases ids.len() - j,
                {
                    let ghost results_pre = results@;
                    let ghost cap: int = limit as int - results@.len() as int;
                    let id: u128 = ids[j];
                    match self.get_by_id(id) {
                        Some(t) => {
                            proof {
                                if self.ids_unique() {
                                    self.lemma_record_of_id_agrees(t);
                                    self.lemma_session_view_unfold(sids, cap, j as int);
                                }
                            }
                            results.push(t);
                            proof {
                                if self.ids_unique() {
                                    assert(results@ + self.session_view(
                                        sids.skip(j as int + 1),
                                        cap - 1,
                                    ) =~= results_pre + (seq![self.record_of_id(sids[j as int])]
                                        + self.session_view(sids.skip(j as int + 1), cap - 1)));
                                }
                            }
                        },
                        None => {
                            proof {
                                if self.ids_unique() {
                                    self.lemma_session_view_unfold(sids, cap, j as int);
                                }
                            }
                        },
                    }
                    j += 1;
                }
                proof {
                    if self.ids_unique() {
                        if j == ids.len() {
                            assert(sids.skip(j as int) =~= Seq::empty());
                        }
                        assert(results@ + Seq::<TelemetryData>::empty() =~= results@);
                    }
                }
                results
            },
            None => {
                proof {
                    if self.ids_unique() {
                        assert(Seq::<TelemetryData>::empty() =~= self.session_view(
                            sids,
                            limit as int,
                        ));
                    }
                }
                Vec::new()
            },
        }
    }

    /// Removes every record of the owner whose timestamp lies before the
    /// cutoff, takes each removed record's id out of that record's
    /// session list, and returns the number removed — zero when the
    /// owner is unknown. Both indexes stay in lock-step on every path.
    pub fn delete_old_records(&mut self, driver_id: &str, older_than: i64) -> (count: usize)
        ensures
            final(self).histories() == if old(self).histories().dom().contains(driver_id@) {
                old(self).histories().insert(
                    driver_id@,
                    surviving(old(self).histories()[driver_id@], older_than as int),
                )
            } else {
                old(self).histories()
            },
            final(self).session_index().dom() == old(self).session_index().dom(),
            forall|s: Seq<char>|
                old(self).session_index().dom().contains(s) ==> final(self).session_index()[s]
                    == prune_ids(
                    old(self).session_index()[s],
                    removed_ids_for(old(self).history_of(driver_id@), older_than as int, s),
                ),
            count == removed_records(old(self).history_of(driver_id@), older_than as int).len(),
            count == old(self).history_of(driver_id@).len() - surviving(
                old(self).history_of(driver_id@),
                older_than as int,
            ).len(),
            old(self).wf() ==> final(self).wf(),
    {
        let ghost pre = *self;
        let ghost hist = pre.history_of(driver_id@);
        let ghost cutoff: int = older_than as int;
        match history_map_remove(&mut self.data, driver_id) {
            Some(data) => {
                let initial_count = data.len();
                let mut kept: Vec<TelemetryData> = Vec::new();
                let mut removed: Vec<TelemetryData> = Vec::new();
                let mut i: usize = 0;
                proof {
                    assert(data@ == hist);
                    assert(hist.skip(0) =~= hist);
                    assert(Seq::<TelemetryData>::empty() + surviving(hist, cutoff) =~= surviving(
                        hist,
                        cutoff,
                    ));
                    assert(Seq::<TelemetryData>::empty() + removed_records(hist, cutoff)
                        =~= removed_records(hist, cutoff));
                }
                while i < data.len()
                    invariant
                        i <= data.len(),
                        data@ == hist,
                        cutoff == older_than as int,
                        kept@.len() + removed@.len() == i,
                        surviving(hist, cutoff) == kept@ + surviving(hist.skip(i as int), cutoff),
                        removed_records(hist, cutoff) == removed@ + removed_records(
                            hist.skip(i as int),
                            cutoff,
                        ),
                    decreases data.len() - i,
                {
                    let ghost kept_pre = kept@;
                    let ghost removed_pre = removed@;
                    let t: &TelemetryData = &data[i];
                    proof {
                        lemma_partition_unfold(hist, cutoff, i as int);
                    }
                    if t.timestamp >= older_than {
                        kept.push(t.clone());
                        proof {
                            assert(kept@ + surviving(hist.skip(i as int + 1), cutoff) =~= kept_pre
                                + (seq![hist[i as int]] + surviving(hist.skip(i as int + 1), cutoff)));
                        }
                    } else {
                        removed.push(t.clone());
                        proof {
                            assert(removed@ + removed_records(hist.skip(i as int + 1), cutoff)
                                =~= removed_pre + (seq![hist[i as int]] + removed_records(
                                hist.skip(i as int + 1),
                                cutoff,
                            )));
                        }
                    }
                    i += 1;
                }
                proof {
                    assert(hist.skip(hist.len() as int) =~= Seq::empty());
                    assert(kept@ + Seq::<TelemetryData>::empty() =~= kept@);
                    assert(removed@ + Seq::<TelemetryData>::empty() =~= removed@);
                    assert(kept@ == surviving(hist, cutoff));
                    assert(removed@ == removed_records(hist, cutoff));
                }
                let kept_len = kept.len();
                history_map_insert(&mut self.data, driver_id.to_owned(), kept);
                proof {
                    assert(self.histories() =~= pre.histories().insert(
                        driver_id@,
                        surviving(hist, cutoff),
                    ));
                    assert forall|s: Seq<char>|
                        pre.session_index().dom().contains(s) implies self.session_index()[s]
                        == prune_ids(
                        pre.session_index()[s],
                        removed_ids_before(removed@, 0, s),
                    ) by {
                        assert forall|k: int|
                            0 <= k < pre.session_index()[s].len() implies !removed_ids_before(
                            removed@,
                            0,
                            s,
                        ).contains(#[trigger] pre.session_index()[s][k]) by {
                        }
                        lemma_prune_noop(pre.session_index()[s], removed_ids_before(removed@, 0, s));
                    }
                }
                let mut x: usize = 0;
                while x < removed.len()
                    invariant
                        x <= removed.len(),
                        cutoff == older_than as int,
                        removed@ == removed_records(hist, cutoff),
                        self.histories() == pre.histories().insert(
                            driver_id@,
                            surviving(hist, cutoff),
                        ),
                        self.session_index().dom() == pre.session_index().dom(),
                        forall|s: Seq<char>|
                            pre.session_index().dom().contains(s) ==> self.session_index()[s]
                                == prune_ids(
                                pre.session_index()[s],
                                removed_ids_before(removed@, x as int, s),
                            ),
                    decreases removed.len() - x,
                {
                    let ghost sess_mid = self.session_index();
                    let r: &TelemetryData = &removed[x];
                    let ghost s0 = r.session_id@;
                    let rid: u128 = r.id;
                    let ghost single: Set<u128> = Set::empty().insert(rid);
                    match session_map_remove(&mut self.sessions, r.session_id.as_str()) {
                        Some(ids) => {
                            let mut newids: Vec<u128> = Vec::new();
                            let mut y: usize = 0;
                            proof {
                                assert(ids@.skip(0) =~= ids@);
                                assert(Seq::<u128>::empty() + prune_ids(ids@, single) =~= prune_ids(
                                    ids@,
                                    single,
                                ));
                            }
                            while y < ids.len()
                                invariant
                                    y <= ids.len(),
                                    rid == r.id,
                                    single == Set::empty().insert(rid),
                                    prune_ids(ids@, single) == newids@ + prune_ids(
                                        ids@.skip(y as int),
                                        single,
                                    ),
                                decreases ids.len() - y,
                            {
                                let ghost new_pre = newids@;
                                proof {
                                    lemma_prune_unfold(ids@, single, y as int);
                                }
                                let v: u128 = ids[y];
                                if v != rid {
                                    newids.push(v);
                                    proof {
                                        assert(newids@ + prune_ids(ids@.skip(y as int + 1), single)
                                            =~= new_pre + (seq![ids@[y as int]] + prune_ids(
                                            ids@.skip(y as int + 1),
                                            single,
                                        )));
                                    }
                                }
                                y += 1;
                            }
                            proof {
                                assert(ids@.skip(ids@.len() as int) =~= Seq::empty());
                                assert(newids@ + Seq::<u128>::empty() =~= newids@);
                                assert(newids@ == prune_ids(ids@, single));
                            }
                            session_map_insert(&mut self.sessions, r.session_id.clone(), newids);
                            proof {
                                assert(self.session_index().dom() =~= sess_mid.dom());
                                assert forall|s: Seq<char>|
                                    pre.session_index().dom().contains(s) implies
                                    self.session_index()[s] == prune_ids(
                                    pre.session_index()[s],
                                    removed_ids_before(removed@, x as int + 1, s),
                                ) by {
                                    lemma_removed_ids_before_step(removed@, x as int, s);
                                    if s == s0 {
                                        assert(ids@ == sess_mid[s0]);
                                        assert(sess_mid[s0] == prune_ids(
                                            pre.session_index()[s0],
                                            removed_ids_before(removed@, x as int, s0),
                                        ));
                                        lemma_prune_compose(
                                            pre.session_index()[s0],
                                            removed_ids_before(removed@, x as int, s0),
                                            single,
                                        );
                                        assert(removed_ids_before(removed@, x as int, s0).union(
                                            single,
                                        ) =~= removed_ids_before(removed@, x as int, s0).insert(
                                            rid,
                                        ));
                                        assert(removed@[x as int].session_id@ == s0);
                                        assert(removed@[x as int].id == rid);
                                    } else {
                                        assert(self.session_index()[s] == sess_mid[s]);
                                    }
                                }
                            }
                        },
                        None => {
                            proof {
                                assert(!sess_mid.dom().contains(s0));
                                assert(self.session_index() =~= sess_mid);
                                assert forall|s: Seq<char>|
                                    pre.session_index().dom().contains(s) implies
                                    self.session_index()[s] == prune_ids(
                                    pre.session_index()[s],
                                    removed_ids_before(removed@, x as int + 1, s),
                                ) by {
                                    lemma_removed_ids_before_step(removed@, x as int, s);
                                    assert(s != s0);
                                }
                            }
                        },
                    }
                    x += 1;
                }
                proof {
                    assert forall|s: Seq<char>|
                        pre.session_index().dom().contains(s) implies self.session_index()[s]
                        == prune_ids(pre.session_index()[s], removed_ids_for(hist, cutoff, s)) by {
                        lemma_removed_ids_complete(hist, cutoff, s);
                    }
                    lemma_partition_len(hist, cutoff);
                    if pre.wf() {
                        lemma_delete_preserves_wf(pre, *self, driver_id@, cutoff);
                    }
                }
                initial_count - kept_len
            },
            None => {
                proof {
                    assert(self.histories() =~= pre.histories());
                    assert(self.session_index() == pre.session_index());
                    assert(hist =~= Seq::empty());
                    assert forall|s: Seq<char>|
                        pre.session_index().dom().contains(s) implies self.session_index()[s]
                        == prune_ids(pre.session_index()[s], removed_ids_for(hist, cutoff, s)) by {
                        assert forall|k: int|
                            0 <= k < pre.session_index()[s].len() implies !removed_ids_for(
                            hist,
                            cutoff,
                            s,
                        ).contains(#[trigger] pre.session_index()[s][k]) by {
                        }
                        lemma_prune_noop(pre.session_index()[s], removed_ids_for(hist, cutoff, s));
                    }
                    if pre.wf() {
                        lemma_wf_congruence(pre, *self);
                    }
                }
                0
            },
        }
    }

    /// Collects the distinct track names over all records, in no
    /// promised order.
    pub fn get_tracks(&self) -> (r: Vec<String>)
        ensures
            forall|k: int|
                0 <= k < r@.len() ==> self.track_values().contains((#[trigger] r@[k])@),
            forall|v: Seq<char>|
                #[trigger] self.track_values().contains(v) ==> contains_view(r@, v),
            forall|k1: int, k2: int| 0 <= k1 < k2 < r@.len() ==> r@[k1]@ != r@[k2]@,
    {
        let keys = history_map_keys(&self.data);
        let mut out: Vec<String> = Vec::new();
        let mut ki: usize = 0;
        while ki < keys.len()
            invariant
                ki <= keys.len(),
                forall|k: int|
                    0 <= k < keys@.len() ==> self.histories().dom().contains(#[trigger] keys@[k]@),
                forall|sq: Seq<char>|
                    self.histories().dom().contains(sq) ==> exists|k: int|
                        0 <= k < keys@.len() && #[trigger] keys@[k]@ == sq,
                forall|k: int|
                    0 <= k < out@.len() ==> self.track_values().contains((#[trigger] out@[k])@),
                forall|k1: int, k2: int| 0 <= k1 < k2 < out@.len() ==> out@[k1]@ != out@[k2]@,
                forall|kk: int, j: int|
                    0 <= kk < ki && 0 <= j < self.histories()[keys@[kk]@].len()
                        ==> contains_view(
                        out@,
                        (#[trigger] self.histories()[keys@[kk]@][j]).track_name@,
                    ),
            decreases keys.len() - ki,
        {
            let ghost gk = keys@[ki as int]@;
            match history_map_get(&self.data, keys[ki].as_str()) {
                Some(data) => {
                    let mut j: usize = 0;
                    while j < data.len()
                        invariant
                            j <= data.len(),
                            self.histories().dom().contains(gk),
                            data@ == self.histories()[gk],
                            forall|k: int|
                                0 <= k < out@.len() ==> self.track_values().contains(
                                    (#[trigger] out@[k])@,
                                ),
                            forall|k1: int, k2: int|
                                0 <= k1 < k2 < out@.len() ==> out@[k1]@ != out@[k2]@,
                            forall|kk: int, jx: int|
                                0 <= kk < ki && 0 <= jx < self.histories()[keys@[kk]@].len()
                                    ==> contains_view(
                                    out@,
                                    (#[trigger] self.histories()[keys@[kk]@][jx]).track_name@,
                                ),
                            forall|x: int|
                                0 <= x < j ==> contains_view(
                                    out@,
                                    (#[trigger] data@[x]).track_name@,
                                ),
                        decreases data.len() - j,
                    {
                        let ghost out_pre = out@;
                        let t: &TelemetryData = &data[j];
                        if !vec_contains_string(&out, t.track_name.as_str()) {
                            out.push(t.track_name.clone());
                            proof {
                                lemma_contains_view_push(out_pre, t.track_name);
                                assert(self.valid_pos(gk, j as int));
                                assert(out@[out@.len() - 1]@ == data@[j as int].track_name@);
                                assert(self.track_values().contains(
                                    self.histories()[gk][j as int].track_name@,
                                ));
                            }
                        } else {
                            proof {
                                assert(contains_view(out@, data@[j as int].track_name@));
                            }
                        }
                        j += 1;
                    }
                },
                None => {
                    proof {
                        assert(false);
                    }
                },
            }
            ki += 1;
        }
        proof {
            assert forall|v: Seq<char>| #[trigger] self.track_values().contains(v) implies contains_view(
                out@,
                v,
            ) by {
                let (d, i): (Seq<char>, int) = choose|d: Seq<char>, i: int|
                    self.valid_pos(d, i) && (#[trigger] self.histories()[d][i]).track_name@ == v;
                let kk = choose|kk: int| 0 <= kk < keys@.len() && #[trigger] keys@[kk]@ == d;
                assert(contains_view(out@, self.histories()[keys@[kk]@][i].track_name@));
            }
        }
        out
    }

    /// Collects the distinct car names over all records, in no promised
    /// order.
    pub fn get_cars(&self) -> (r: Vec<String>)
        ensures
            forall|k: int| 0 <= k < r@.len() ==> self.car_values().contains((#[trigger] r@[k])@),
            forall|v: Seq<char>|
                #[trigger] self.car_values().contains(v) ==> contains_view(r@, v),
            forall|k1: int, k2: int| 0 <= k1 < k2 < r@.len() ==> r@[k1]@ != r@[k2]@,
    {
        let keys = history_map_keys(&self.data);
        let mut out: Vec<String> = Vec::new();
        let mut ki: usize = 0;
        while ki < keys.len()
            invariant
                ki <= keys.len(),
                forall|k: int|
                    0 <= k < keys@.len() ==> self.histories().dom().contains(#[trigger] keys@[k]@),
                forall|sq: Seq<char>|
                    self.histories().dom().contains(sq) ==> exists|k: int|
                        0 <= k < keys@.len() && #[trigger] keys@[k]@ == sq,
                forall|k: int|
                    0 <= k < out@.len() ==> self.car_values().contains((#[trigger] out@[k])@),
                forall|k1: int, k2: int| 0 <= k1 < k2 < out@.len() ==> out@[k1]@ != out@[k2]@,
                forall|kk: int, j: int|
                    0 <= kk < ki && 0 <= j < self.histories()[keys@[kk]@].len()
                        ==> contains_view(
                        out@,
                        (#[trigger] self.histories()[keys@[kk]@][j]).car_name@,
                    ),
            decreases keys.len() - ki,
        {
            let ghost gk = keys@[ki as int]@;
            match history_map_get(&self.data, keys[ki].as_str()) {
                Some(data) => {
                    let mut j: usize = 0;
                    while j < data.len()
                        invariant
                            j <= data.len(),
                            self.histories().dom().contains(gk),
                            data@ == self.histories()[gk],
                            forall|k: int|
                                0 <= k < out@.len() ==> self.car_values().contains(
                                    (#[trigger] out@[k])@,
                                ),
                            forall|k1: int, k2: int|
                                0 <= k1 < k2 < out@.len() ==> out@[k1]@ != out@[k2]@,
                            forall|kk: int, jx: int|
                                0 <= kk < ki && 0 <= jx < self.histories()[keys@[kk]@].len()
                                    ==> contains_view(
                                    out@,
                                    (#[trigger] self.histories()[keys@[kk]@][jx]).car_name@,
                                ),
                            forall|x: int|
                                0 <= x < j ==> contains_view(out@, (#[trigger] data@[x]).car_name@),
                        decreases data.len() - j,
                    {
                        let ghost out_pre = out@;
                        let t: &TelemetryData = &data[j];
                        if !vec_contains_string(&out, t.car_name.as_str()) {
                            out.push(t.car_name.clone());
                            proof {
                                lemma_contains_view_push(out_pre, t.car_name);
                                assert(self.valid_pos(gk, j as int));
                                assert(out@[out@.len() - 1]@ == data@[j as int].car_name@);
                                assert(self.car_values().contains(
                                    self.histories()[gk][j as int].car_name@,
                                ));
                            }
                        } else {
                            proof {
                                assert(contains_view(out@, data@[j as int].car_name@));
                            }
                        }
                        j += 1;
                    }
                },
                None => {
                    proof {
                        assert(false);
                    }
                },
            }
            ki += 1;
        }
        proof {
            assert forall|v: Seq<char>| #[trigger] self.car_values().contains(v) implies contains_view(
                out@,
                v,
            ) by {
                let (d, i): (Seq<char>, int) = choose|d: Seq<char>, i: int|
                    self.valid_pos(d, i) && (#[trigger] self.histories()[d][i]).car_name@ == v;
                let kk = choose|kk: int| 0 <= kk < keys@.len() && #[trigger] keys@[kk]@ == d;
                assert(contains_view(out@, self.histories()[keys@[kk]@][i].car_name@));
            }
        }
        out
    }
}

/// The sequence holds a string with exactly this view.
pub open spec fn contains_view(v: Seq<String>, s: Seq<char>) -> bool {
    exists|k: int| 0 <= k < v.len() && (#[trigger] v[k])@ == s
}

/// Appending a string keeps every view the sequence already held.
proof fn lemma_contains_view_push(v: Seq<String>, s: String)
    ensures
        forall|x: Seq<char>| contains_view(v, x) ==> contains_view(v.push(s), x),
        contains_view(v.push(s), s@),
{
    assert forall|x: Seq<char>| contains_view(v, x) implies contains_view(v.push(s), x) by {
        let k = choose|k: int| 0 <= k < v.len() && (#[trigger] v[k])@ == x;
        assert(v.push(s)[k]@ == x);
    }
    assert(v.push(s)[v.len() as int]@ == s@);
}

/// Whether the vector holds a string equal to `s`.
fn vec_contains_string(v: &Vec<String>, s: &str) -> (b: bool)
    ensures
        b == contains_view(v@, s@),
{
    let mut k: usize = 0;
    while k < v.len()
        invariant
            k <= v.len(),
            forall|x: int| 0 <= x < k ==> (#[trigger] v@[x])@ != s@,
        decreases v.len() - k,
    {
        if str_eq(v[k].as_str(), s) {
            proof {
                assert((v@[k as int])@ == s@);
            }
            return true;
        }
        k += 1;
    }
    false
}

/// No record in the sequence carries this id.
pub open spec fn no_id_in(h: Seq<TelemetryData>, id: u128) -> bool {
    forall|j: int| 0 <= j < h.len() ==> (#[trigger] h[j]).id != id
}

/// After an insert, each position of the new state holds either the
/// record the old state held there, or the new record at the end of its
/// owner's history.
proof fn lemma_add_position(
    pre: TelemetryStore,
    post: TelemetryStore,
    t: TelemetryData,
    d: Seq<char>,
    i: int,
)
    requires
        post.histories() == pre.histories().insert(t.driver_id@, pre.history_of(t.driver_id@).push(t)),
        post.valid_pos(d, i),
    ensures
        (pre.valid_pos(d, i) && post.histories()[d][i] == pre.histories()[d][i]) || (d
            == t.driver_id@ && i == pre.history_of(t.driver_id@).len() && post.histories()[d][i]
            == t),
{
    if d == t.driver_id@ {
        assert(post.histories()[d] == pre.history_of(d).push(t));
        if i < pre.history_of(d).len() {
            assert(pre.history_of(d).push(t)[i] == pre.history_of(d)[i]);
            assert(pre.histories().dom().contains(d));
        } else {
            assert(i == pre.history_of(d).len());
        }
    } else {
        assert(post.histories()[d] == pre.histories()[d]);
    }
}

/// Inserting a record with a fresh id keeps the two indexes in
/// lock-step.
proof fn lemma_add_preserves_wf(pre: TelemetryStore, post: TelemetryStore, t: TelemetryData)
    requires
        pre.wf(),
        !pre.contains_id(t.id),
        post.histories() == pre.histories().insert(t.driver_id@, pre.history_of(t.driver_id@).push(t)),
        post.session_index() == pre.session_index().insert(
            t.session_id@,
            pre.session_of(t.session_id@).push(t.id),
        ),
    ensures
        post.wf(),
{
    let nd = t.driver_id@;
    let ns = t.session_id@;
    let npos = pre.history_of(nd).len() as int;

    // Any pre position is still a post position with the same record.
    assert forall|d: Seq<char>, i: int| pre.valid_pos(d, i) implies post.valid_pos(d, i)
        && post.histories()[d][i] == pre.histories()[d][i] by {
        if d == nd {
            assert(post.histories()[d] == pre.history_of(d).push(t));
            assert(pre.history_of(d).push(t)[i] == pre.history_of(d)[i]);
        } else {
            assert(post.histories()[d] == pre.histories()[d]);
        }
    }

    assert(post.valid_pos(nd, npos) && post.histories()[nd][npos] == t) by {
        assert(post.histories()[nd] == pre.history_of(nd).push(t));
    }

    assert forall|d: Seq<char>, i: int| post.valid_pos(d, i) implies (
    #[trigger] post.histories()[d][i]).driver_id@ == d by {
        lemma_add_position(pre, post, t, d, i);
    }

    assert forall|d1: Seq<char>, i1: int, d2: Seq<char>, i2: int|
        post.valid_pos(d1, i1) && post.valid_pos(d2, i2) && (#[trigger] post.histories()[d1][i1]).id
            == (#[trigger] post.histories()[d2][i2]).id implies d1 == d2 && i1 == i2 by {
        lemma_add_position(pre, post, t, d1, i1);
        lemma_add_position(pre, post, t, d2, i2);
    }

    assert forall|d: Seq<char>, i: int| post.valid_pos(d, i) implies post.session_of(
        (#[trigger] post.histories()[d][i]).session_id@,
    ).contains(post.histories()[d][i].id) by {
        lemma_add_position(pre, post, t, d, i);
        let r = post.histories()[d][i];
        if pre.valid_pos(d, i) && r == pre.histories()[d][i] {
            let old_list = pre.session_of(r.session_id@);
            assert(old_list.contains(r.id));
            let j = choose|j: int| 0 <= j < old_list.len() && old_list[j] == r.id;
            if r.session_id@ == ns {
                assert(post.session_of(ns) == pre.session_of(ns).push(t.id));
                assert(post.session_of(ns)[j] == r.id);
            } else {
                assert(post.session_of(r.session_id@) == old_list);
            }
        } else {
            assert(r == t);
            assert(post.session_of(ns) == pre.session_of(ns).push(t.id));
            assert(post.session_of(ns)[pre.session_of(ns).len() as int] == t.id);
        }
    }

    assert forall|s: Seq<char>, j: int|
        post.session_index().dom().contains(s) && 0 <= j < post.session_index()[s].len() implies
        post.id_resolves(#[trigger] post.session_index()[s][j], s) by {
        if s == ns {
            assert(post.session_index()[s] == pre.session_of(ns).push(t.id));
            if j < pre.session_of(ns).len() {
                assert(post.session_index()[s][j] == pre.session_of(ns)[j]);
                assert(pre.session_index().dom().contains(s));
                assert(0 <= j < pre.session_index()[s].len());
                assert(pre.id_resolves(pre.session_index()[s][j], s));
                let (d, i): (Seq<char>, int) = choose|d: Seq<char>, i: int|
                    pre.valid_pos(d, i) && (#[trigger] pre.histories()[d][i]).id
                        == pre.session_index()[s][j] && pre.histories()[d][i].session_id@ == s;
                assert(post.valid_pos(d, i) && post.histories()[d][i].id
                    == post.session_index()[s][j] && post.histories()[d][i].session_id@ == s);
            } else {
                assert(post.session_index()[s][j] == t.id);
                assert(post.valid_pos(nd, npos) && post.histories()[nd][npos].id
                    == post.session_index()[s][j] && post.histories()[nd][npos].session_id@ == s);
            }
        } else {
            assert(post.session_index()[s] == pre.session_index()[s]);
            assert(pre.session_index().dom().contains(s));
            assert(0 <= j < pre.session_index()[s].len());
            assert(pre.id_resolves(pre.session_index()[s][j], s));
            let (d, i): (Seq<char>, int) = choose|d: Seq<char>, i: int|
                pre.valid_pos(d, i) && (#[trigger] pre.histories()[d][i]).id
                    == pre.session_index()[s][j] && pre.histories()[d][i].session_id@ == s;
            assert(post.valid_pos(d, i) && post.histories()[d][i].id == post.session_index()[s][j]
                && post.histories()[d][i].session_id@ == s);
        }
    }
}

impl Default for TelemetryStore {
    /// Creates an empty store.
    fn default() -> (s: Self)
        ensures
            s.histories() == Map::<Seq<char>, Seq<TelemetryData>>::empty(),
            s.session_index() == Map::<Seq<char>, Seq<u128>>::empty(),
            s.wf(),
    {
        let s = TelemetryStore { data: history_map_new(), sessions: session_map_new() };
        proof {
            assert(s.histories() =~= Map::<Seq<char>, Seq<TelemetryData>>::empty());
            assert(s.session_index() =~= Map::<Seq<char>, Seq<u128>>::empty());
        }
        s
    }
}

/// A store whose two views equal those of a well-formed store is
/// well-formed.
proof fn lemma_wf_congruence(pre: TelemetryStore, post: TelemetryStore)
    requires
        pre.wf(),
        post.histories() == pre.histories(),
        post.session_index() == pre.session_index(),
    ensures
        post.wf(),
{
    assert forall|s: Seq<char>, j: int|
        post.session_index().dom().contains(s) && 0 <= j < post.session_index()[s].len() implies
        post.id_resolves(#[trigger] post.session_index()[s][j], s) by {
        assert(pre.id_resolves(pre.session_index()[s][j], s));
        let (d, i): (Seq<char>, int) = choose|d: Seq<char>, i: int|
            pre.valid_pos(d, i) && (#[trigger] pre.histories()[d][i]).id == pre.session_index()[s][j]
                && pre.histories()[d][i].session_id@ == s;
        assert(post.valid_pos(d, i) && post.histories()[d][i].id == post.session_index()[s][j]
            && post.histories()[d][i].session_id@ == s);
    }
}

/// After a retention deletion for owner `d`, each position of the new
/// state either sits outside `d` unchanged or holds a surviving record
/// of `d`'s old history.
pub(crate) proof fn lemma_delete_position(
    pre: TelemetryStore,
    post: TelemetryStore,
    d: Seq<char>,
    cutoff: int,
    d2: Seq<char>,
    i2: int,
)
    requires
        post.histories() == pre.histories().insert(d, surviving(pre.history_of(d), cutoff)),
        post.valid_pos(d2, i2),
    ensures
        d2 != d ==> pre.valid_pos(d2, i2) && post.histories()[d2][i2] == pre.histories()[d2][i2],
        d2 == d ==> exists|j: int|
            pre.valid_pos(d, j) && #[trigger] pre.histories()[d][j] == post.histories()[d2][i2]
                && pre.histories()[d][j].timestamp >= cutoff,
{
    let hist = pre.history_of(d);
    if d2 == d {
        assert(post.histories()[d] == surviving(hist, cutoff));
        let t = post.histories()[d][i2];
        assert(surviving(hist, cutoff).contains(t));
        lemma_surviving_membership(hist, cutoff);
        let j = choose|j: int|
            0 <= j < hist.len() && #[trigger] hist[j] == t && hist[j].timestamp >= cutoff;
        assert(pre.histories().dom().contains(d));
        assert(pre.valid_pos(d, j) && pre.histories()[d][j] == t && pre.histories()[d][j].timestamp
            >= cutoff);
    } else {
        assert(post.histories()[d2] == pre.histories()[d2]);
    }
}

/// Retention deletion keeps the two indexes in lock-step.
proof fn lemma_delete_preserves_wf(
    pre: TelemetryStore,
    post: TelemetryStore,
    d: Seq<char>,
    cutoff: int,
)
    requires
        pre.wf(),
        pre.histories().dom().contains(d),
        post.histories() == pre.histories().insert(d, surviving(pre.history_of(d), cutoff)),
        post.session_index().dom() == pre.session_index().dom(),
        forall|s: Seq<char>|
            pre.session_index().dom().contains(s) ==> post.session_index()[s] == prune_ids(
                pre.session_index()[s],
                removed_ids_for(pre.history_of(d), cutoff, s),
            ),
    ensures
        post.wf(),
{
    let hist = pre.history_of(d);
    lemma_surviving_membership(hist, cutoff);
    assert(forall|i: int, j: int| 0 <= i < j < hist.len() ==> hist[i].id != hist[j].id) by {
        assert forall|i: int, j: int| 0 <= i < j < hist.len() implies hist[i].id != hist[j].id by {
            assert(pre.valid_pos(d, i) && pre.valid_pos(d, j));
            if hist[i].id == hist[j].id {
                assert(pre.histories()[d][i].id == pre.histories()[d][j].id);
            }
        }
    }
    lemma_surviving_distinct(hist, cutoff);

    // records stay under their owner
    assert forall|d2: Seq<char>, i2: int| post.valid_pos(d2, i2) implies (
    #[trigger] post.histories()[d2][i2]).driver_id@ == d2 by {
        lemma_delete_position(pre, post, d, cutoff, d2, i2);
    }

    // ids stay globally unique
    assert forall|a1: Seq<char>, i1: int, a2: Seq<char>, i2: int|
        post.valid_pos(a1, i1) && post.valid_pos(a2, i2) && (#[trigger] post.histories()[a1][i1]).id
            == (#[trigger] post.histories()[a2][i2]).id implies a1 == a2 && i1 == i2 by {
        lemma_delete_position(pre, post, d, cutoff, a1, i1);
        lemma_delete_position(pre, post, d, cutoff, a2, i2);
        if a1 == d && a2 == d {
            assert(post.histories()[d] == surviving(hist, cutoff));
            if i1 != i2 {
                assert(surviving(hist, cutoff)[i1].id != surviving(hist, cutoff)[i2].id);
            }
        }
    }

    // every kept record is still listed in its session
    assert forall|d2: Seq<char>, i2: int| post.valid_pos(d2, i2) implies post.session_of(
        (#[trigger] post.histories()[d2][i2]).session_id@,
    ).contains(post.histories()[d2][i2].id) by {
        lemma_delete_position(pre, post, d, cutoff, d2, i2);
        let r = post.histories()[d2][i2];
        let s = r.session_id@;
        let rem = removed_ids_for(hist, cutoff, s);
        // the record sits somewhere in the old state
        let (dp, ip): (Seq<char>, int) = if d2 == d {
            let j = choose|j: int|
                pre.valid_pos(d, j) && #[trigger] pre.histories()[d][j] == r
                    && pre.histories()[d][j].timestamp >= cutoff;
            (d, j)
        } else {
            (d2, i2)
        };
        assert(pre.valid_pos(dp, ip) && pre.histories()[dp][ip] == r);
        assert(pre.session_of(s).contains(r.id));
        assert(pre.session_index().dom().contains(s)) by {
            if !pre.session_index().dom().contains(s) {
                assert(pre.session_of(s) =~= Seq::empty());
            }
        }
        lemma_prune_membership(pre.session_index()[s], rem);
        assert(!rem.contains(r.id)) by {
            if rem.contains(r.id) {
                let x = choose|x: int|
                    0 <= x < hist.len() && (#[trigger] hist[x]).timestamp < cutoff
                        && hist[x].session_id@ == s && hist[x].id == r.id;
                assert(pre.valid_pos(d, x));
                assert(pre.histories()[d][x].id == pre.histories()[dp][ip].id);
                assert(d == dp && x == ip);
            }
        }
        assert(post.session_index()[s].contains(r.id));
        assert(post.session_index().dom().contains(s));
    }

    // every listed id still refers to a kept record of its session
    assert forall|s: Seq<char>, j: int|
        post.session_index().dom().contains(s) && 0 <= j < post.session_index()[s].len() implies
        post.id_resolves(#[trigger] post.session_index()[s][j], s) by {
        let rem = removed_ids_for(hist, cutoff, s);
        assert(pre.session_index().dom().contains(s));
        assert(post.session_index()[s] == prune_ids(pre.session_index()[s], rem));
        let id = post.session_index()[s][j];
        assert(post.session_index()[s].contains(id));
        lemma_prune_membership(pre.session_index()[s], rem);
        assert(pre.session_index()[s].contains(id) && !rem.contains(id));
        let jj = choose|jj: int|
            0 <= jj < pre.session_index()[s].len() && pre.session_index()[s][jj] == id;
        assert(pre.id_resolves(pre.session_index()[s][jj], s));
        let (d0, i0): (Seq<char>, int) = choose|d0: Seq<char>, i0: int|
            pre.valid_pos(d0, i0) && (#[trigger] pre.histories()[d0][i0]).id == id
                && pre.histories()[d0][i0].session_id@ == s;
        let r0 = pre.histories()[d0][i0];
        if d0 == d {
            assert(r0.timestamp >= cutoff) by {
                if r0.timestamp < cutoff {
                    assert(0 <= i0 < hist.len() && (#[trigger] hist[i0]).timestamp < cutoff
                        && hist[i0].session_id@ == s && hist[i0].id == id);
                    assert(rem.contains(id));
                }
            }
            assert(surviving(hist, cutoff).contains(r0));
            let j2 = choose|j2: int|
                0 <= j2 < surviving(hist, cutoff).len() && surviving(hist, cutoff)[j2] == r0;
            assert(post.histories()[d] == surviving(hist, cutoff));
            assert(post.valid_pos(d, j2) && post.histories()[d][j2].id == id
                && post.histories()[d][j2].session_id@ == s);
        } else {
            assert(post.histories()[d0] == pre.histories()[d0]);
            assert(post.valid_pos(d0, i0) && post.histories()[d0][i0].id == id
                && post.histories()[d0][i0].session_id@ == s);
        }
    }
}

} // verus!
