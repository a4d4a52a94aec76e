//! Trusted boundary around `dashmap::DashMap`, the concurrent associative
//! structure that holds both indexes of the store.
//!
//! The map itself is opaque to the verifier. What a map holds is named by
//! the two content functions below, one per instantiation, and every
//! method the store calls goes through a wrapper whose contract speaks
//! over those names. Each wrapper holds one `DashMap` call plus the
//! conversion of its result, nothing else.

use vstd::prelude::*;
use dashmap::DashMap;
use crate::models::TelemetryData;

verus! {

#[verifier::external_type_specification]
#[verifier::external_body]
#[verifier::reject_recursive_types(K)]
#[verifier::reject_recursive_types(V)]
#[verifier::reject_recursive_types(S)]
pub struct ExDashMap<K, V, S>(DashMap<K, V, S>);

/// The primary index: owner to ordered record history.
pub type HistoryIndex = DashMap<String, Vec<TelemetryData>>;

/// The secondary index: session to ordered record ids.
pub type SessionIndex = DashMap<String, Vec<u128>>;

/// What a history map holds: each key's character sequence maps to the
/// sequence of records stored under it, in order.
pub uninterp spec fn history_entries(m: HistoryIndex) -> Map<
    Seq<char>,
    Seq<TelemetryData>,
>;

/// What a session map holds: each key's character sequence maps to the
/// sequence of record ids stored under it, in order.
pub uninterp spec fn session_entries(m: SessionIndex) -> Map<Seq<char>, Seq<u128>>;

/// Relies on `DashMap::new`: the fresh map holds no entry.
#[verifier::external_body]
pub(crate) fn history_map_new() -> (r: HistoryIndex)
    ensures
        history_entries(r) =~= Map::empty(),
{
    DashMap::new()
}

/// Relies on `DashMap::get`: returns the value stored under the key, if
/// any; the value is handed out as a clone.
#[verifier::external_body]
pub(crate) fn history_map_get(
    m: &HistoryIndex,
    k: &str,
) -> (r: Option<Vec<TelemetryData>>)
    ensures
        match r {
            Some(v) => history_entries(*m).dom().contains(k@) && v@ == history_entries(*m)[k@],
            None => !history_entries(*m).dom().contains(k@),
        },
{
    m.get(k).map(|e| e.value().clone())
}

/// Relies on `DashMap::remove`: takes the key's entry out of the map and
/// returns its value, if the key was present.
#[verifier::external_body]
pub(crate) fn history_map_remove(
    m: &mut HistoryIndex,
    k: &str,
) -> (r: Option<Vec<TelemetryData>>)
    ensures
        history_entries(*final(m)) == history_entries(*old(m)).remove(k@),
        match r {
            Some(v) => history_entries(*old(m)).dom().contains(k@) && v@ == history_entries(
                *old(m),
            )[k@],
            None => !history_entries(*old(m)).dom().contains(k@),
        },
{
    m.remove(k).map(|kv| kv.1)
}

/// Relies on `DashMap::insert`: stores the value under the key, replacing
/// any previous entry for it and leaving every other entry alone.
#[verifier::external_body]
pub(crate) fn history_map_insert(
    m: &mut HistoryIndex,
    k: String,
    v: Vec<TelemetryData>,
)
    ensures
        history_entries(*final(m)) == history_entries(*old(m)).insert(k@, v@),
{
    m.insert(k, v);
}

/// Relies on `DashMap::iter` and the key accessor of its items: hands out
/// each key exactly once, in no promised order.
#[verifier::external_body]
pub(crate) fn history_map_keys(m: &HistoryIndex) -> (r: Vec<String>)
    ensures
        forall|i: int| 0 <= i < r@.len() ==> history_entries(*m).dom().contains(#[trigger] r@[i]@),
        forall|s: Seq<char>|
            history_entries(*m).dom().contains(s) ==> exists|i: int|
                0 <= i < r@.len() && #[trigger] r@[i]@ == s,
        forall|i: int, j: int| 0 <= i < j < r@.len() ==> r@[i]@ != r@[j]@,
{
    m.iter().map(|e| e.key().clone()).collect()
}

/// Relies on `DashMap::new`: the fresh map holds no entry.
#[verifier::external_body]
pub(crate) fn session_map_new() -> (r: SessionIndex)
    ensures
        session_entries(r) =~= Map::empty(),
{
    DashMap::new()
}

/// Relies on `DashMap::get`: returns the value stored under the key, if
/// any; the value is handed out as a clone.
#[verifier::external_body]
pub(crate) fn session_map_get(m: &SessionIndex, k: &str) -> (r: Option<Vec<u128>>)
    ensures
        match r {
            Some(v) => session_entries(*m).dom().contains(k@) && v@ == session_entries(*m)[k@],
            None => !session_entries(*m).dom().contains(k@),
        },
{
    m.get(k).map(|e| e.value().clone())
}

/// Relies on `DashMap::remove`: takes the key's entry out of the map and
/// returns its value, if the key was present.
#[verifier::external_body]
pub(crate) fn session_map_remove(m: &mut SessionIndex, k: &str) -> (r: Option<
    Vec<u128>,
>)
    ensures
        session_entries(*final(m)) == session_entries(*old(m)).remove(k@),
        match r {
            Some(v) => session_entries(*old(m)).dom().contains(k@) && v@ == session_entries(
                *old(m),
            )[k@],
            None => !session_entries(*old(m)).dom().contains(k@),
        },
{
    m.remove(k).map(|kv| kv.1)
}

/// Relies on `DashMap::insert`: stores the value under the key, replacing
/// any previous entry for it and leaving every other entry alone.
#[verifier::external_body]
pub(crate) fn session_map_insert(m: &mut SessionIndex, k: String, v: Vec<u128>)
    ensures
        session_entries(*final(m)) == session_entries(*old(m)).insert(k@, v@),
{
    m.insert(k, v);
}

} // verus!
