//! The filter engine: pure, stateless predicate logic over candidate
//! records. A query is a conjunction of independent sub-predicates —
//! inclusive time bounds and equality constraints on categorical
//! attributes — and an absent sub-predicate is vacuously true. The
//! engine keeps candidates in their original order and caps the result.

use vstd::prelude::*;
use crate::models::TelemetryData;
use crate::models::TelemetryQuery;
use crate::shims::str_eq;

verus! {

/// A predicate set over mathematical values: what an owner-scoped query
/// constrains.
pub struct QueryView {
    /// Inclusive lower bound on the timestamp.
    pub start_time: Option<int>,
    /// Inclusive upper bound on the timestamp.
    pub end_time: Option<int>,
    pub track_name: Option<Seq<char>>,
    pub car_name: Option<Seq<char>>,
    pub session_type: Option<Seq<char>>,
}

/// The timestamp is at or after the lower bound, if one is set.
pub open spec fn time_lower_ok(t: TelemetryData, bound: Option<int>) -> bool {
    match bound {
        Some(b) => t.timestamp >= b,
        None => true,
    }
}

/// The timestamp is at or before the upper bound, if one is set.
pub open spec fn time_upper_ok(t: TelemetryData, bound: Option<int>) -> bool {
    match bound {
        Some(b) => t.timestamp <= b,
        None => true,
    }
}

/// The attribute equals the wanted value, if one is set.
pub open spec fn name_ok(actual: Seq<char>, wanted: Option<Seq<char>>) -> bool {
    match wanted {
        Some(w) => actual == w,
        None => true,
    }
}

/// A record matches a query exactly when it satisfies every
/// sub-predicate.
pub open spec fn matches_query(t: TelemetryData, q: QueryView) -> bool {
    &&& time_lower_ok(t, q.start_time)
    &&& time_upper_ok(t, q.end_time)
    &&& name_ok(t.track_name@, q.track_name)
    &&& name_ok(t.car_name@, q.car_name)
    &&& name_ok(t.session_type@, q.session_type)
}

/// A query that constrains nothing.
pub open spec fn no_constraints(q: QueryView) -> bool {
    &&& q.start_time is None
    &&& q.end_time is None
    &&& q.track_name is None
    &&& q.car_name is None
    &&& q.session_type is None
}

/// `q2` asks no more than `q1`: each of its sub-predicates is either
/// absent or the same as in `q1`.
pub open spec fn relaxed(q2: QueryView, q1: QueryView) -> bool {
    &&& (q2.start_time is None || q2.start_time == q1.start_time)
    &&& (q2.end_time is None || q2.end_time == q1.end_time)
    &&& (q2.track_name is None || q2.track_name == q1.track_name)
    &&& (q2.car_name is None || q2.car_name == q1.car_name)
    &&& (q2.session_type is None || q2.session_type == q1.session_type)
}

/// The view of the time bounds of an exec query argument.
pub open spec fn opt_time(o: Option<i64>) -> Option<int> {
    match o {
        Some(v) => Some(v as int),
        None => None,
    }
}

/// The view of an optional borrowed attribute constraint.
pub open spec fn opt_name(o: Option<&str>) -> Option<Seq<char>> {
    match o {
        Some(s) => Some(s@),
        None => None,
    }
}

/// The view of an optional owned attribute constraint.
pub open spec fn opt_owned_name(o: Option<String>) -> Option<Seq<char>> {
    match o {
        Some(s) => Some(s@),
        None => None,
    }
}

/// The predicate set that a tuple of exec query arguments denotes.
pub open spec fn query_of(
    start_time: Option<i64>,
    end_time: Option<i64>,
    track_name: Option<&str>,
    car_name: Option<&str>,
    session_type: Option<&str>,
) -> QueryView {
    QueryView {
        start_time: opt_time(start_time),
        end_time: opt_time(end_time),
        track_name: opt_name(track_name),
        car_name: opt_name(car_name),
        session_type: opt_name(session_type),
    }
}

impl TelemetryQuery {
    /// The predicate set this query denotes; the cap is carried beside it.
    pub open spec fn query_view(self) -> QueryView {
        QueryView {
            start_time: opt_time(self.start_time),
            end_time: opt_time(self.end_time),
            track_name: opt_owned_name(self.track_name),
            car_name: opt_owned_name(self.car_name),
            session_type: opt_owned_name(self.session_type),
        }
    }
}

/// The matching prefix: the first `limit` records of `s`, in order, that
/// match `q`.
pub open spec fn filter_take(s: Seq<TelemetryData>, q: QueryView, limit: int) -> Seq<TelemetryData>
    decreases s.len(),
{
    if s.len() == 0 || limit <= 0 {
        Seq::empty()
    } else if matches_query(s[0], q) {
        seq![s[0]] + filter_take(s.drop_first(), q, limit - 1)
    } else {
        filter_take(s.drop_first(), q, limit)
    }
}

/// Unfolds `filter_take` one record at a time over a suffix of `s`, the
/// shape that scanning loops maintain.
pub proof fn lemma_filter_take_unfold(s: Seq<TelemetryData>, q: QueryView, limit: int, i: int)
    requires
        0 <= i < s.len(),
    ensures
        filter_take(s.skip(i), q, limit) == if limit <= 0 {
            Seq::<TelemetryData>::empty()
        } else if matches_query(s[i], q) {
            seq![s[i]] + filter_take(s.skip(i + 1), q, limit - 1)
        } else {
            filter_take(s.skip(i + 1), q, limit)
        },
{
    assert(s.skip(i).len() == s.len() - i);
    assert(s.skip(i)[0] == s[i]);
    assert(s.skip(i).drop_first() =~= s.skip(i + 1));
}

/// Any cap at least as large as the candidate list is as good as any
/// other: the whole matching subsequence comes out.
pub proof fn lemma_filter_take_clamp(s: Seq<TelemetryData>, q: QueryView, l1: int, l2: int)
    requires
        l1 >= s.len(),
        l2 >= s.len(),
    ensures
        filter_take(s, q, l1) == filter_take(s, q, l2),
    decreases s.len(),
{
    if s.len() == 0 {
    } else {
        lemma_filter_take_clamp(s.drop_first(), q, l1 - 1, l2 - 1);
        lemma_filter_take_clamp(s.drop_first(), q, l1, l2);
        lemma_filter_take_clamp(s.drop_first(), q, l1 - 1, l2);
    }
}

/// Order preservation: a query with no constraints and a cap at least
/// the history length returns the candidates exactly, in their original
/// order.
pub proof fn lemma_no_constraints_returns_all(s: Seq<TelemetryData>, q: QueryView, limit: int)
    requires
        no_constraints(q),
        limit >= s.len(),
    ensures
        filter_take(s, q, limit) == s,
    decreases s.len(),
{
    if s.len() == 0 {
        assert(filter_take(s, q, limit) =~= s);
    } else {
        lemma_no_constraints_returns_all(s.drop_first(), q, limit - 1);
        assert(seq![s[0]] + s.drop_first() =~= s);
    }
}

/// Filter conjunction: a record matches a multi-predicate query exactly
/// when it matches every individual sub-predicate.
pub proof fn lemma_match_is_conjunction(t: TelemetryData, q: QueryView)
    ensures
        matches_query(t, q) <==> (time_lower_ok(t, q.start_time) && time_upper_ok(t, q.end_time)
            && name_ok(t.track_name@, q.track_name) && name_ok(t.car_name@, q.car_name) && name_ok(
            t.session_type@,
            q.session_type,
        )),
{
}

/// Dropping constraints can only let more records through: a record that
/// matches the stricter query matches the relaxed one.
pub proof fn lemma_relaxed_matches(t: TelemetryData, q1: QueryView, q2: QueryView)
    requires
        relaxed(q2, q1),
    ensures
        matches_query(t, q1) ==> matches_query(t, q2),
{
}

/// Dropping constraints can only grow or preserve the result set, never
/// shrink it, when the cap does not cut either result off.
pub proof fn lemma_relaxed_grows_result(
    s: Seq<TelemetryData>,
    q1: QueryView,
    q2: QueryView,
    limit: int,
)
    requires
        relaxed(q2, q1),
        limit >= s.len(),
    ensures
        forall|t: TelemetryData|
            filter_take(s, q1, limit).contains(t) ==> filter_take(s, q2, limit).contains(t),
    decreases s.len(),
{
    if s.len() == 0 {
    } else {
        let rest = s.drop_first();
        lemma_relaxed_grows_result(rest, q1, q2, limit - 1);
        lemma_relaxed_grows_result(rest, q1, q2, limit);
        lemma_filter_take_clamp(rest, q1, limit - 1, limit);
        lemma_filter_take_clamp(rest, q2, limit - 1, limit);
        lemma_relaxed_matches(s[0], q1, q2);
        assert forall|t: TelemetryData|
            filter_take(s, q1, limit).contains(t) implies filter_take(s, q2, limit).contains(
            t,
        ) by {
            if matches_query(s[0], q1) {
                if t == s[0] {
                    assert(filter_take(s, q2, limit)[0] == t);
                } else {
                    assert(filter_take(rest, q1, limit - 1).contains(t));
                    assert(filter_take(rest, q2, limit - 1).contains(t));
                    let j = choose|j: int|
                        0 <= j < filter_take(rest, q2, limit - 1).len() && #[trigger] filter_take(
                            rest,
                            q2,
                            limit - 1,
                        )[j] == t;
                    assert(filter_take(s, q2, limit)[j + 1] == t);
                }
            } else {
                assert(filter_take(rest, q1, limit).contains(t));
                assert(filter_take(rest, q2, limit).contains(t));
                if matches_query(s[0], q2) {
                    let j = choose|j: int|
                        0 <= j < filter_take(rest, q2, limit - 1).len() && #[trigger] filter_take(
                            rest,
                            q2,
                            limit - 1,
                        )[j] == t;
                    assert(filter_take(s, q2, limit)[j + 1] == t);
                }
            }
        }
    }
}

/// Whether a record satisfies every given sub-predicate.
pub fn record_matches(
    t: &TelemetryData,
    start_time: Option<i64>,
    end_time: Option<i64>,
    track_name: Option<&str>,
    car_name: Option<&str>,
    session_type: Option<&str>,
) -> (b: bool)
    ensures
        b == matches_query(*t, query_of(start_time, end_time, track_name, car_name, session_type)),
{
    let lower_ok = match start_time {
        Some(b) => t.timestamp >= b,
        None => true,
    };
    let upper_ok = match end_time {
        Some(b) => t.timestamp <= b,
        None => true,
    };
    let track_ok = match track_name {
        Some(w) => str_eq(t.track_name.as_str(), w),
        None => true,
    };
    let car_ok = match car_name {
        Some(w) => str_eq(t.car_name.as_str(), w),
        None => true,
    };
    let session_ok = match session_type {
        Some(w) => str_eq(t.session_type.as_str(), w),
        None => true,
    };
    lower_ok && upper_ok && track_ok && car_ok && session_ok
}

} // verus!
