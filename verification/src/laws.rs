//! The properties that should hold of the store, each stated and
//! proved as a law over the store's views: absence is idempotent,
//! owners are isolated, inserts lose no writes, and deletion leaves
//! the two indexes consistent.

use vstd::prelude::*;
use crate::filter::QueryView;
use crate::filter::filter_take;
use crate::models::TelemetryData;
use crate::retention::surviving;
use crate::retention::removed_ids;
use crate::retention::removed_ids_for;
use crate::retention::prune_ids;
use crate::retention::lemma_surviving_membership;
use crate::retention::lemma_prune_membership;
use crate::storage::TelemetryStore;
use crate::storage::lemma_delete_position;

verus! {

/// Idempotent absence: an owner-scoped query on an unknown owner
/// returns the empty sequence, never an error.
pub proof fn lemma_unknown_owner_empty(
    store: TelemetryStore,
    owner: Seq<char>,
    q: QueryView,
    limit: int,
)
    requires
        !store.histories().dom().contains(owner),
    ensures
        filter_take(store.history_of(owner), q, limit) == Seq::<TelemetryData>::empty(),
{
    assert(store.history_of(owner) =~= Seq::empty());
}

/// Idempotent absence: a session-scoped query on an unknown session
/// returns the empty sequence, never an error.
pub proof fn lemma_unknown_session_empty(store: TelemetryStore, session: Seq<char>, limit: int)
    requires
        !store.session_index().dom().contains(session),
    ensures
        store.session_view(store.session_of(session), limit) == Seq::<TelemetryData>::empty(),
{
    assert(store.session_of(session) =~= Seq::empty());
}

/// Isolation: inserting a record for one owner leaves every other
/// owner's history, and so every query scoped to it, unchanged.
pub proof fn lemma_insert_isolation(
    pre: TelemetryStore,
    post: TelemetryStore,
    t: TelemetryData,
    other: Seq<char>,
    q: QueryView,
    limit: int,
)
    requires
        post.histories() == pre.histories().insert(
            t.driver_id@,
            pre.history_of(t.driver_id@).push(t),
        ),
        other != t.driver_id@,
    ensures
        post.history_of(other) == pre.history_of(other),
        filter_take(post.history_of(other), q, limit) == filter_take(
            pre.history_of(other),
            q,
            limit,
        ),
{
}

/// No lost writes: an insert keeps every record that was present and
/// makes the new record present at the end of its owner's history.
pub proof fn lemma_add_no_lost_writes(pre: TelemetryStore, post: TelemetryStore, t: TelemetryData)
    requires
        post.histories() == pre.histories().insert(
            t.driver_id@,
            pre.history_of(t.driver_id@).push(t),
        ),
    ensures
        forall|d: Seq<char>, i: int|
            pre.valid_pos(d, i) ==> post.valid_pos(d, i) && #[trigger] post.histories()[d][i]
                == pre.histories()[d][i],
        post.valid_pos(t.driver_id@, pre.history_of(t.driver_id@).len() as int),
        post.histories()[t.driver_id@][pre.history_of(t.driver_id@).len() as int] == t,
{
    let nd = t.driver_id@;
    assert forall|d: Seq<char>, i: int| pre.valid_pos(d, i) implies post.valid_pos(d, i)
        && #[trigger] post.histories()[d][i] == pre.histories()[d][i] by {
        if d == nd {
            assert(post.histories()[d] == pre.history_of(d).push(t));
            assert(pre.history_of(d).push(t)[i] == pre.history_of(d)[i]);
        } else {
            assert(post.histories()[d] == pre.histories()[d]);
        }
    }
    assert(post.histories()[nd] == pre.history_of(nd).push(t));
}

/// Index consistency after deletion: once a retention deletion for
/// owner `d` with cutoff `c` has run on a well-formed store, the
/// owner's history holds no record older than the cutoff, no removed
/// id is reachable by id lookup, and no session list still carries a
/// removed id.
pub proof fn lemma_delete_consistency(
    pre: TelemetryStore,
    post: TelemetryStore,
    d: Seq<char>,
    cutoff: int,
)
    requires
        pre.wf(),
        post.histories() == if pre.histories().dom().contains(d) {
            pre.histories().insert(d, surviving(pre.histories()[d], cutoff))
        } else {
            pre.histories()
        },
        post.session_index().dom() == pre.session_index().dom(),
        forall|s: Seq<char>|
            pre.session_index().dom().contains(s) ==> post.session_index()[s] == prune_ids(
                pre.session_index()[s],
                removed_ids_for(pre.history_of(d), cutoff, s),
            ),
    ensures
        forall|i: int|
            0 <= i < post.history_of(d).len() ==> (#[trigger] post.history_of(d)[i]).timestamp
                >= cutoff,
        forall|id: u128|
            removed_ids(pre.history_of(d), cutoff).contains(id) ==> !post.contains_id(id),
        forall|s: Seq<char>, j: int|
            post.session_index().dom().contains(s) && 0 <= j < post.session_index()[s].len()
                ==> !removed_ids(pre.history_of(d), cutoff).contains(
                #[trigger] post.session_index()[s][j],
            ),
{
    let hist = pre.history_of(d);
    lemma_surviving_membership(hist, cutoff);
    if pre.histories().dom().contains(d) {
        assert(post.histories()[d] == surviving(hist, cutoff));
        assert forall|i: int|
            0 <= i < post.history_of(d).len() implies (#[trigger] post.history_of(d)[i]).timestamp
            >= cutoff by {
            let t = post.history_of(d)[i];
            assert(surviving(hist, cutoff).contains(t));
        }
    } else {
        assert(hist =~= Seq::empty());
    }

    assert forall|id: u128|
        removed_ids(hist, cutoff).contains(id) implies !post.contains_id(id) by {
        let i = choose|i: int|
            0 <= i < hist.len() && (#[trigger] hist[i]).timestamp < cutoff && hist[i].id == id;
        assert(pre.histories().dom().contains(d));
        assert(pre.valid_pos(d, i));
        if post.contains_id(id) {
            let (d2, i2): (Seq<char>, int) = choose|d2: Seq<char>, i2: int|
                post.valid_pos(d2, i2) && (#[trigger] post.histories()[d2][i2]).id == id;
            lemma_delete_position(pre, post, d, cutoff, d2, i2);
            if d2 == d {
                let j = choose|j: int|
                    pre.valid_pos(d, j) && #[trigger] pre.histories()[d][j]
                        == post.histories()[d2][i2] && pre.histories()[d][j].timestamp >= cutoff;
                assert(pre.histories()[d][j].id == pre.histories()[d][i].id);
                assert(j == i);
            } else {
                assert(pre.histories()[d2][i2].id == pre.histories()[d][i].id);
                assert(d2 == d);
            }
        }
    }

    assert forall|s: Seq<char>, j: int|
        post.session_index().dom().contains(s) && 0 <= j < post.session_index()[s].len() implies
        !removed_ids(hist, cutoff).contains(#[trigger] post.session_index()[s][j]) by {
        let id = post.session_index()[s][j];
        assert(pre.session_index().dom().contains(s));
        assert(post.session_index()[s] == prune_ids(
            pre.session_index()[s],
            removed_ids_for(hist, cutoff, s),
        ));
        lemma_prune_membership(pre.session_index()[s], removed_ids_for(hist, cutoff, s));
        assert(post.session_index()[s].contains(id));
        assert(pre.session_index()[s].contains(id));
        assert(!removed_ids_for(hist, cutoff, s).contains(id));
        if removed_ids(hist, cutoff).contains(id) {
            let i = choose|i: int|
                0 <= i < hist.len() && (#[trigger] hist[i]).timestamp < cutoff && hist[i].id == id;
            assert(pre.histories().dom().contains(d)) by {
                if !pre.histories().dom().contains(d) {
                    assert(hist =~= Seq::empty());
                }
            }
            assert(pre.valid_pos(d, i));
            let jj = choose|jj: int|
                0 <= jj < pre.session_index()[s].len() && pre.session_index()[s][jj] == id;
            assert(pre.id_resolves(pre.session_index()[s][jj], s));
            let (d0, i0): (Seq<char>, int) = choose|d0: Seq<char>, i0: int|
                pre.valid_pos(d0, i0) && (#[trigger] pre.histories()[d0][i0]).id == id
                    && pre.histories()[d0][i0].session_id@ == s;
            assert(pre.histories()[d0][i0].id == pre.histories()[d][i].id);
            assert(d0 == d && i0 == i);
            assert(hist[i].session_id@ == s);
            assert(removed_ids_for(hist, cutoff, s).contains(id));
        }
    }
}

} // verus!
