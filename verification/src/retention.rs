//! The model of retention deletion: which records a cutoff removes from
//! a history, which ids that takes out of a session list, and the
//! lemmas the store's deletion proof rests on.

use vstd::prelude::*;
use crate::models::TelemetryData;

verus! {

/// The records that survive a cutoff: timestamps at or after it, in
/// their original order.
pub open spec fn surviving(h: Seq<TelemetryData>, cutoff: int) -> Seq<TelemetryData>
    decreases h.len(),
{
    if h.len() == 0 {
        Seq::empty()
    } else if h[0].timestamp >= cutoff {
        seq![h[0]] + surviving(h.drop_first(), cutoff)
    } else {
        surviving(h.drop_first(), cutoff)
    }
}

/// The records a cutoff removes: timestamps before it, in their
/// original order.
pub open spec fn removed_records(h: Seq<TelemetryData>, cutoff: int) -> Seq<TelemetryData>
    decreases h.len(),
{
    if h.len() == 0 {
        Seq::empty()
    } else if h[0].timestamp < cutoff {
        seq![h[0]] + removed_records(h.drop_first(), cutoff)
    } else {
        removed_records(h.drop_first(), cutoff)
    }
}

/// The ids the cutoff removes from session `s`: ids of removed records
/// that belong to that session.
pub open spec fn removed_ids_for(h: Seq<TelemetryData>, cutoff: int, s: Seq<char>) -> Set<u128> {
    Set::new(
        |id: u128|
            exists|i: int|
                0 <= i < h.len() && (#[trigger] h[i]).timestamp < cutoff && h[i].session_id@ == s
                    && h[i].id == id,
    )
}

/// The ids of every record the cutoff removes, over all sessions.
pub open spec fn removed_ids(h: Seq<TelemetryData>, cutoff: int) -> Set<u128> {
    Set::new(
        |id: u128|
            exists|i: int|
                0 <= i < h.len() && (#[trigger] h[i]).timestamp < cutoff && h[i].id == id,
    )
}

/// The ids of the first `k` removed records that belong to session `s`.
pub open spec fn removed_ids_before(rem: Seq<TelemetryData>, k: int, s: Seq<char>) -> Set<u128> {
    Set::new(
        |id: u128|
            exists|x: int|
                0 <= x < k && (#[trigger] rem[x]).session_id@ == s && rem[x].id == id,
    )
}

/// An id list with the given ids taken out, order kept.
pub open spec fn prune_ids(ids: Seq<u128>, rem: Set<u128>) -> Seq<u128>
    decreases ids.len(),
{
    if ids.len() == 0 {
        Seq::empty()
    } else if rem.contains(ids[0]) {
        prune_ids(ids.drop_first(), rem)
    } else {
        seq![ids[0]] + prune_ids(ids.drop_first(), rem)
    }
}

/// Unfolds `surviving` and `removed_records` one record at a time over a
/// suffix of `h`, the shape the partition loop maintains.
pub proof fn lemma_partition_unfold(h: Seq<TelemetryData>, cutoff: int, i: int)
    requires
        0 <= i < h.len(),
    ensures
        surviving(h.skip(i), cutoff) == if h[i].timestamp >= cutoff {
            seq![h[i]] + surviving(h.skip(i + 1), cutoff)
        } else {
            surviving(h.skip(i + 1), cutoff)
        },
        removed_records(h.skip(i), cutoff) == if h[i].timestamp < cutoff {
            seq![h[i]] + removed_records(h.skip(i + 1), cutoff)
        } else {
            removed_records(h.skip(i + 1), cutoff)
        },
{
    assert(h.skip(i).len() == h.len() - i);
    assert(h.skip(i)[0] == h[i]);
    assert(h.skip(i).drop_first() =~= h.skip(i + 1));
}

/// Unfolds `prune_ids` one id at a time over a suffix of `ids`.
pub proof fn lemma_prune_unfold(ids: Seq<u128>, rem: Set<u128>, i: int)
    requires
        0 <= i < ids.len(),
    ensures
        prune_ids(ids.skip(i), rem) == if rem.contains(ids[i]) {
            prune_ids(ids.skip(i + 1), rem)
        } else {
            seq![ids[i]] + prune_ids(ids.skip(i + 1), rem)
        },
{
    assert(ids.skip(i).len() == ids.len() - i);
    assert(ids.skip(i)[0] == ids[i]);
    assert(ids.skip(i).drop_first() =~= ids.skip(i + 1));
}

/// A record survives the cutoff exactly when it sits in the history
/// with a timestamp at or after it.
pub proof fn lemma_surviving_membership(h: Seq<TelemetryData>, cutoff: int)
    ensures
        forall|t: TelemetryData|
            surviving(h, cutoff).contains(t) <==> (exists|i: int|
                0 <= i < h.len() && #[trigger] h[i] == t && h[i].timestamp >= cutoff),
    decreases h.len(),
{
    if h.len() == 0 {
    } else {
        let rest = h.drop_first();
        lemma_surviving_membership(rest, cutoff);
        assert forall|t: TelemetryData| surviving(h, cutoff).contains(t) implies (exists|i: int|
            0 <= i < h.len() && #[trigger] h[i] == t && h[i].timestamp >= cutoff) by {
            if h[0].timestamp >= cutoff && t == h[0] {
                assert(h[0] == t && h[0].timestamp >= cutoff);
            } else {
                assert(surviving(rest, cutoff).contains(t)) by {
                    let j = choose|j: int|
                        0 <= j < surviving(h, cutoff).len() && surviving(h, cutoff)[j] == t;
                    if h[0].timestamp >= cutoff {
                        assert(surviving(rest, cutoff)[j - 1] == t);
                    } else {
                        assert(surviving(rest, cutoff)[j] == t);
                    }
                }
                let i = choose|i: int|
                    0 <= i < rest.len() && #[trigger] rest[i] == t && rest[i].timestamp >= cutoff;
                assert(h[i + 1] == t && h[i + 1].timestamp >= cutoff);
            }
        }
        assert forall|t: TelemetryData|
            (exists|i: int| 0 <= i < h.len() && #[trigger] h[i] == t && h[i].timestamp >= cutoff)
            implies surviving(h, cutoff).contains(t) by {
            let i = choose|i: int|
                0 <= i < h.len() && #[trigger] h[i] == t && h[i].timestamp >= cutoff;
            if i == 0 {
                assert(surviving(h, cutoff)[0] == t);
            } else {
                assert(rest[i - 1] == t && rest[i - 1].timestamp >= cutoff);
                assert(surviving(rest, cutoff).contains(t));
                let j = choose|j: int|
                    0 <= j < surviving(rest, cutoff).len() && surviving(rest, cutoff)[j] == t;
                if h[0].timestamp >= cutoff {
                    assert(surviving(h, cutoff)[j + 1] == t);
                } else {
                    assert(surviving(h, cutoff)[j] == t);
                }
            }
        }
    }
}

/// A record is removed by the cutoff exactly when it sits in the
/// history with a timestamp before it.
pub proof fn lemma_removed_membership(h: Seq<TelemetryData>, cutoff: int)
    ensures
        forall|t: TelemetryData|
            removed_records(h, cutoff).contains(t) <==> (exists|i: int|
                0 <= i < h.len() && #[trigger] h[i] == t && h[i].timestamp < cutoff),
    decreases h.len(),
{
    if h.len() == 0 {
    } else {
        let rest = h.drop_first();
        lemma_removed_membership(rest, cutoff);
        assert forall|t: TelemetryData| removed_records(h, cutoff).contains(t) implies (exists|
            i: int,
        |
            0 <= i < h.len() && #[trigger] h[i] == t && h[i].timestamp < cutoff) by {
            if h[0].timestamp < cutoff && t == h[0] {
                assert(h[0] == t && h[0].timestamp < cutoff);
            } else {
                assert(removed_records(rest, cutoff).contains(t)) by {
                    let j = choose|j: int|
                        0 <= j < removed_records(h, cutoff).len() && removed_records(h, cutoff)[j]
                            == t;
                    if h[0].timestamp < cutoff {
                        assert(removed_records(rest, cutoff)[j - 1] == t);
                    } else {
                        assert(removed_records(rest, cutoff)[j] == t);
                    }
                }
                let i = choose|i: int|
                    0 <= i < rest.len() && #[trigger] rest[i] == t && rest[i].timestamp < cutoff;
                assert(h[i + 1] == t && h[i + 1].timestamp < cutoff);
            }
        }
        assert forall|t: TelemetryData|
            (exists|i: int| 0 <= i < h.len() && #[trigger] h[i] == t && h[i].timestamp < cutoff)
            implies removed_records(h, cutoff).contains(t) by {
            let i = choose|i: int|
                0 <= i < h.len() && #[trigger] h[i] == t && h[i].timestamp < cutoff;
            if i == 0 {
                assert(removed_records(h, cutoff)[0] == t);
            } else {
                assert(rest[i - 1] == t && rest[i - 1].timestamp < cutoff);
                assert(removed_records(rest, cutoff).contains(t));
                let j = choose|j: int|
                    0 <= j < removed_records(rest, cutoff).len() && removed_records(rest, cutoff)[j]
                        == t;
                if h[0].timestamp < cutoff {
                    assert(removed_records(h, cutoff)[j + 1] == t);
                } else {
                    assert(removed_records(h, cutoff)[j] == t);
                }
            }
        }
    }
}

/// Deletion partitions a history: every record either survives or is
/// removed, so the lengths add up.
pub proof fn lemma_partition_len(h: Seq<TelemetryData>, cutoff: int)
    ensures
        surviving(h, cutoff).len() + removed_records(h, cutoff).len() == h.len(),
    decreases h.len(),
{
    if h.len() == 0 {
    } else {
        lemma_partition_len(h.drop_first(), cutoff);
    }
}

/// Pruning keeps exactly the ids that were listed and are not removed.
pub proof fn lemma_prune_membership(ids: Seq<u128>, rem: Set<u128>)
    ensures
        forall|id: u128|
            prune_ids(ids, rem).contains(id) <==> (ids.contains(id) && !rem.contains(id)),
    decreases ids.len(),
{
    if ids.len() == 0 {
    } else {
        let rest = ids.drop_first();
        lemma_prune_membership(rest, rem);
        assert forall|id: u128| prune_ids(ids, rem).contains(id) implies (ids.contains(id)
            && !rem.contains(id)) by {
            if !rem.contains(ids[0]) && id == ids[0] {
                assert(ids[0] == id);
            } else {
                assert(prune_ids(rest, rem).contains(id)) by {
                    let j = choose|j: int|
                        0 <= j < prune_ids(ids, rem).len() && prune_ids(ids, rem)[j] == id;
                    if rem.contains(ids[0]) {
                        assert(prune_ids(rest, rem)[j] == id);
                    } else {
                        assert(prune_ids(rest, rem)[j - 1] == id);
                    }
                }
                assert(rest.contains(id));
                let i = choose|i: int| 0 <= i < rest.len() && rest[i] == id;
                assert(ids[i + 1] == id);
            }
        }
        assert forall|id: u128| ids.contains(id) && !rem.contains(id) implies prune_ids(
            ids,
            rem,
        ).contains(id) by {
            assert(ids.contains(id));
            let i = choose|i: int| 0 <= i < ids.len() && ids[i] == id;
            if i == 0 {
                assert(prune_ids(ids, rem)[0] == id);
            } else {
                assert(rest[i - 1] == id);
                assert(prune_ids(rest, rem).contains(id));
                let j = choose|j: int|
                    0 <= j < prune_ids(rest, rem).len() && prune_ids(rest, rem)[j] == id;
                if rem.contains(ids[0]) {
                    assert(prune_ids(ids, rem)[j] == id);
                } else {
                    assert(prune_ids(ids, rem)[j + 1] == id);
                }
            }
        }
    }
}

/// Pruning twice is pruning by the union.
pub proof fn lemma_prune_compose(ids: Seq<u128>, rem1: Set<u128>, rem2: Set<u128>)
    ensures
        prune_ids(prune_ids(ids, rem1), rem2) == prune_ids(ids, rem1.union(rem2)),
    decreases ids.len(),
{
    if ids.len() == 0 {
    } else {
        let rest = ids.drop_first();
        lemma_prune_compose(rest, rem1, rem2);
        if rem1.contains(ids[0]) {
        } else if rem2.contains(ids[0]) {
            assert((seq![ids[0]] + prune_ids(rest, rem1)).drop_first() =~= prune_ids(rest, rem1));
        } else {
            assert((seq![ids[0]] + prune_ids(rest, rem1)).drop_first() =~= prune_ids(rest, rem1));
            assert(prune_ids(prune_ids(ids, rem1), rem2) =~= seq![ids[0]] + prune_ids(
                prune_ids(rest, rem1),
                rem2,
            ));
        }
    }
}

/// Pruning by a set that holds none of the listed ids changes nothing.
pub proof fn lemma_prune_noop(ids: Seq<u128>, rem: Set<u128>)
    requires
        forall|i: int| 0 <= i < ids.len() ==> !rem.contains(#[trigger] ids[i]),
    ensures
        prune_ids(ids, rem) == ids,
    decreases ids.len(),
{
    if ids.len() == 0 {
        assert(prune_ids(ids, rem) =~= ids);
    } else {
        lemma_prune_noop(ids.drop_first(), rem);
        assert(seq![ids[0]] + ids.drop_first() =~= ids);
    }
}

/// Surviving records keep pairwise distinct ids when the history's ids
/// are pairwise distinct.
pub proof fn lemma_surviving_distinct(h: Seq<TelemetryData>, cutoff: int)
    requires
        forall|i: int, j: int| 0 <= i < j < h.len() ==> h[i].id != h[j].id,
    ensures
        forall|i: int, j: int|
            0 <= i < j < surviving(h, cutoff).len() ==> surviving(h, cutoff)[i].id != surviving(
                h,
                cutoff,
            )[j].id,
    decreases h.len(),
{
    if h.len() == 0 {
    } else {
        let rest = h.drop_first();
        assert forall|i: int, j: int| 0 <= i < j < rest.len() implies rest[i].id != rest[j].id by {
            assert(h[i + 1].id != h[j + 1].id);
        }
        lemma_surviving_distinct(rest, cutoff);
        lemma_surviving_membership(rest, cutoff);
        if h[0].timestamp >= cutoff {
            assert forall|i: int, j: int|
                0 <= i < j < surviving(h, cutoff).len() implies surviving(h, cutoff)[i].id
                != surviving(h, cutoff)[j].id by {
                if i == 0 {
                    let tj = surviving(h, cutoff)[j];
                    assert(surviving(rest, cutoff)[j - 1] == tj);
                    assert(surviving(rest, cutoff).contains(tj));
                    let x = choose|x: int|
                        0 <= x < rest.len() && #[trigger] rest[x] == tj && rest[x].timestamp
                            >= cutoff;
                    assert(h[0].id != h[x + 1].id);
                } else {
                    assert(surviving(rest, cutoff)[i - 1] == surviving(h, cutoff)[i]);
                    assert(surviving(rest, cutoff)[j - 1] == surviving(h, cutoff)[j]);
                }
            }
        }
    }
}

/// Processing one more removed record extends the per-session id set by
/// that record's id when the session matches, and not otherwise.
pub proof fn lemma_removed_ids_before_step(rem: Seq<TelemetryData>, x: int, s: Seq<char>)
    requires
        0 <= x < rem.len(),
    ensures
        rem[x].session_id@ == s ==> removed_ids_before(rem, x + 1, s) == removed_ids_before(
            rem,
            x,
            s,
        ).insert(rem[x].id),
        rem[x].session_id@ != s ==> removed_ids_before(rem, x + 1, s) == removed_ids_before(
            rem,
            x,
            s,
        ),
{
    let b1 = removed_ids_before(rem, x + 1, s);
    let b0 = removed_ids_before(rem, x, s);
    if rem[x].session_id@ == s {
        assert(b1 =~= b0.insert(rem[x].id)) by {
            assert forall|id: u128| b1.contains(id) implies b0.insert(rem[x].id).contains(id) by {
                let y = choose|y: int|
                    0 <= y < x + 1 && (#[trigger] rem[y]).session_id@ == s && rem[y].id == id;
                if y < x {
                    assert(b0.contains(id));
                }
            }
            assert forall|id: u128| b0.insert(rem[x].id).contains(id) implies b1.contains(id) by {
                if b0.contains(id) {
                    let y = choose|y: int|
                        0 <= y < x && (#[trigger] rem[y]).session_id@ == s && rem[y].id == id;
                    assert(0 <= y < x + 1 && rem[y].session_id@ == s && rem[y].id == id);
                } else {
                    assert(id == rem[x].id);
                    assert(0 <= x < x + 1 && rem[x].session_id@ == s && rem[x].id == id);
                }
            }
        }
    } else {
        assert(b1 =~= b0) by {
            assert forall|id: u128| b1.contains(id) implies b0.contains(id) by {
                let y = choose|y: int|
                    0 <= y < x + 1 && (#[trigger] rem[y]).session_id@ == s && rem[y].id == id;
                assert(y < x);
                assert(0 <= y < x && rem[y].session_id@ == s && rem[y].id == id);
            }
            assert forall|id: u128| b0.contains(id) implies b1.contains(id) by {
                let y = choose|y: int|
                    0 <= y < x && (#[trigger] rem[y]).session_id@ == s && rem[y].id == id;
                assert(0 <= y < x + 1 && rem[y].session_id@ == s && rem[y].id == id);
            }
        }
    }
}

/// Once every removed record is processed, the per-session id set is
/// exactly what the cutoff removes from that session.
pub proof fn lemma_removed_ids_complete(h: Seq<TelemetryData>, cutoff: int, s: Seq<char>)
    ensures
        removed_ids_before(
            removed_records(h, cutoff),
            removed_records(h, cutoff).len() as int,
            s,
        ) == removed_ids_for(h, cutoff, s),
{
    lemma_removed_membership(h, cutoff);
    let rem = removed_records(h, cutoff);
    assert(removed_ids_before(rem, rem.len() as int, s) =~= removed_ids_for(h, cutoff, s)) by {
        assert forall|id: u128|
            removed_ids_before(rem, rem.len() as int, s).contains(id) implies removed_ids_for(
            h,
            cutoff,
            s,
        ).contains(id) by {
            let y = choose|y: int|
                0 <= y < rem.len() && (#[trigger] rem[y]).session_id@ == s && rem[y].id == id;
            assert(rem.contains(rem[y]));
            let i = choose|i: int|
                0 <= i < h.len() && #[trigger] h[i] == rem[y] && h[i].timestamp < cutoff;
            assert(0 <= i < h.len() && h[i].timestamp < cutoff && h[i].session_id@ == s && h[i].id
                == id);
        }
        assert forall|id: u128|
            removed_ids_for(h, cutoff, s).contains(id) implies removed_ids_before(
            rem,
            rem.len() as int,
            s,
        ).contains(id) by {
            let i = choose|i: int|
                0 <= i < h.len() && (#[trigger] h[i]).timestamp < cutoff && h[i].session_id@ == s
                    && h[i].id == id;
            assert(rem.contains(h[i]));
            let y = choose|y: int| 0 <= y < rem.len() && rem[y] == h[i];
            assert(rem[y].session_id@ == s && rem[y].id == id);
        }
    }
}

} // verus!
