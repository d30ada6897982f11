use vstd::prelude::*;
use vstd::seq_lib::lemma_seq_contains_after_push;

use crate::addresses::{address_list, Snapshot, SubsetModel};
use crate::error::ErrorModel;
use crate::reconcile::{apply_changes, diff, missing_changes, step, ChangeModel, WatchEvent};
use crate::target::PortSpecModel;

verus! {

/// Receiving `a` and then `b` is receiving `a + b`.
pub proof fn lemma_apply_concat(live: Set<Seq<char>>, a: Seq<ChangeModel>, b: Seq<ChangeModel>)
    ensures
        apply_changes(live, a + b) == apply_changes(apply_changes(live, a), b),
    decreases b.len(),
{
    if b.len() == 0 {
        assert(a + b =~= a);
    } else {
        assert((a + b).drop_last() =~= a + b.drop_last());
        assert((a + b).last() == b.last());
        lemma_apply_concat(live, a, b.drop_last());
    }
}

/// What `missing_changes` does to the addresses that a pool holds.
pub proof fn lemma_apply_missing(
    live: Set<Seq<char>>,
    items: Seq<Seq<char>>,
    other: Seq<Seq<char>>,
    insert: bool,
    x: Seq<char>,
)
    ensures
        apply_changes(live, missing_changes(items, other, insert)).contains(x) <==> (if insert {
            live.contains(x) || (items.contains(x) && !other.contains(x))
        } else {
            live.contains(x) && !(items.contains(x) && !other.contains(x))
        }),
    decreases items.len(),
{
    if items.len() > 0 {
        let p = items.drop_last();
        let l = items.last();
        assert(items =~= p.push(l));
        lemma_seq_contains_after_push(p, l, x);
        lemma_apply_missing(live, p, other, insert, x);
        let r = missing_changes(p, other, insert);
        if !other.contains(l) {
            let c = if insert {
                ChangeModel::Insert(l)
            } else {
                ChangeModel::Remove(l)
            };
            assert(r.push(c).drop_last() =~= r);
        }
    }
}

/// A pool that holds `prev` and receives `diff(prev, next)` holds exactly `next`.
pub proof fn lemma_diff_reaches_next(prev: Seq<Seq<char>>, next: Seq<Seq<char>>)
    ensures
        apply_changes(prev.to_set(), diff(prev, next)) == next.to_set(),
{
    let rem = missing_changes(prev, next, false);
    let ins = missing_changes(next, prev, true);
    lemma_apply_concat(prev.to_set(), rem, ins);
    let mid = apply_changes(prev.to_set(), rem);
    assert forall|x: Seq<char>|
        apply_changes(mid, ins).contains(x) <==> next.to_set().contains(x) by {
        lemma_apply_missing(prev.to_set(), prev, next, false, x);
        lemma_apply_missing(mid, next, prev, true, x);
    }
    assert(apply_changes(mid, ins) =~= next.to_set());
}

/// Runs a sequence of `Applied` events from the address list `prev`: the last
/// address list, and every change emitted on the way.
pub open spec fn run_applied(
    port: PortSpecModel,
    prev: Seq<Seq<char>>,
    snapshots: Seq<Seq<SubsetModel>>,
) -> (Seq<Seq<char>>, Seq<ChangeModel>)
    decreases snapshots.len(),
{
    if snapshots.len() == 0 {
        (prev, seq![])
    } else {
        let (p, cs) = run_applied(port, prev, snapshots.drop_last());
        match address_list(port, snapshots.last()) {
            Ok(next) => (next, cs + diff(p, next)),
            Err(_) => (p, cs),
        }
    }
}

/// Whatever snapshots the watch delivers, and from whatever address list it
/// starts, a pool that received every change emitted holds exactly the address
/// set of the last snapshot, and that set is what the loop remembers.
pub proof fn lemma_pool_tracks_last_snapshot(
    port: PortSpecModel,
    start: Seq<Seq<char>>,
    snapshots: Seq<Seq<SubsetModel>>,
)
    requires
        forall|i: int| 0 <= i < snapshots.len() ==> #[trigger] address_list(port, snapshots[i]) is Ok,
    ensures
        apply_changes(start.to_set(), run_applied(port, start, snapshots).1) == run_applied(
            port,
            start,
            snapshots,
        ).0.to_set(),
        snapshots.len() > 0 ==> run_applied(port, start, snapshots).0 == address_list(
            port,
            snapshots.last(),
        )->Ok_0,
    decreases snapshots.len(),
{
    if snapshots.len() > 0 {
        let init = snapshots.drop_last();
        assert forall|i: int| 0 <= i < init.len() implies #[trigger] address_list(port, init[i]) is Ok by {
            assert(address_list(port, snapshots[i]) is Ok);
        }
        lemma_pool_tracks_last_snapshot(port, start, init);
        assert(address_list(port, snapshots[snapshots.len() - 1]) is Ok);
        let (p, cs) = run_applied(port, start, init);
        let next = address_list(port, snapshots.last())->Ok_0;
        lemma_apply_concat(start.to_set(), cs, diff(p, next));
        lemma_diff_reaches_next(p, next);
    }
}

/// `run_applied` is the loop's own `step` on each `Applied` event in turn: one
/// more snapshot adds exactly the changes that `step` emits for it.
pub proof fn lemma_run_is_steps(
    port: PortSpecModel,
    start: Seq<Seq<char>>,
    snapshots: Seq<Seq<SubsetModel>>,
    next: Snapshot,
)
    requires
        address_list(port, next@) is Ok,
    ensures
        ({
            let (p, cs) = run_applied(port, start, snapshots);
            let (q, ds) = run_applied(port, start, snapshots.push(next@));
            step(p, port, WatchEvent::Applied(next)) == Ok::<
                (Seq<Seq<char>>, Seq<ChangeModel>),
                ErrorModel,
            >((q, ds.subrange(cs.len() as int, ds.len() as int)))
            && ds.subrange(0, cs.len() as int) == cs
        }),
{
    assert(snapshots.push(next@).drop_last() =~= snapshots);
    let (p, cs) = run_applied(port, start, snapshots);
    let q = address_list(port, next@)->Ok_0;
    assert((cs + diff(p, q)).subrange(cs.len() as int, (cs + diff(p, q)).len() as int) =~= diff(p, q));
    assert((cs + diff(p, q)).subrange(0, cs.len() as int) =~= cs);
}

/// Diffing an address list against itself emits nothing: applying the same
/// snapshot twice leaves the pool alone.
pub proof fn lemma_same_list_no_changes(l: Seq<Seq<char>>)
    ensures
        diff(l, l) == Seq::<ChangeModel>::empty(),
{
    lemma_missing_of_included(l, l, false);
    lemma_missing_of_included(l, l, true);
    assert(diff(l, l) =~= Seq::<ChangeModel>::empty());
}

proof fn lemma_missing_of_included(items: Seq<Seq<char>>, other: Seq<Seq<char>>, insert: bool)
    requires
        forall|x: Seq<char>| items.contains(x) ==> #[trigger] other.contains(x),
    ensures
        missing_changes(items, other, insert) == Seq::<ChangeModel>::empty(),
    decreases items.len(),
{
    if items.len() > 0 {
        let p = items.drop_last();
        assert forall|x: Seq<char>| p.contains(x) implies #[trigger] other.contains(x) by {
            let j = choose|j: int| 0 <= j < p.len() && p[j] == x;
            assert(items[j] == x);
        }
        assert(items[items.len() - 1] == items.last());
        lemma_missing_of_included(p, other, insert);
    }
}

/// A snapshot applied to the address list that it already produced emits nothing.
pub proof fn lemma_reapplied_snapshot_is_silent(port: PortSpecModel, s: Snapshot)
    requires
        address_list(port, s@) is Ok,
    ensures
        step(address_list(port, s@)->Ok_0, port, WatchEvent::Applied(s)) == Ok::<
            (Seq<Seq<char>>, Seq<ChangeModel>),
            ErrorModel,
        >((address_list(port, s@)->Ok_0, Seq::<ChangeModel>::empty())),
{
    lemma_same_list_no_changes(address_list(port, s@)->Ok_0);
}

/// `Deleted` after `Applied(s)` removes every address of `s`, once each, leaves
/// the pool empty, and returns the loop to its starting state.
pub proof fn lemma_deleted_removes_all(port: PortSpecModel, s: Seq<SubsetModel>)
    requires
        address_list(port, s) is Ok,
    ensures
        ({
            let l = address_list(port, s)->Ok_0;
            &&& step(l, port, WatchEvent::Deleted) == Ok::<
                (Seq<Seq<char>>, Seq<ChangeModel>),
                ErrorModel,
            >((Seq::<Seq<char>>::empty(), l.map_values(|a: Seq<char>| ChangeModel::Remove(a))))
            &&& apply_changes(l.to_set(), l.map_values(|a: Seq<char>| ChangeModel::Remove(a)))
                == Set::<Seq<char>>::empty()
        }),
{
    let l = address_list(port, s)->Ok_0;
    lemma_remove_all(l);
    assert forall|x: Seq<char>|
        !apply_changes(l.to_set(), missing_changes(l, seq![], false)).contains(x) by {
        lemma_apply_missing(l.to_set(), l, seq![], false, x);
    }
    assert(apply_changes(l.to_set(), missing_changes(l, seq![], false)) =~= Set::<
        Seq<char>,
    >::empty());
    assert(Seq::<Seq<char>>::empty() =~= seq![]);
}

proof fn lemma_remove_all(l: Seq<Seq<char>>)
    ensures
        missing_changes(l, seq![], false) == l.map_values(|a: Seq<char>| ChangeModel::Remove(a)),
    decreases l.len(),
{
    if l.len() > 0 {
        lemma_remove_all(l.drop_last());
        assert(l.map_values(|a: Seq<char>| ChangeModel::Remove(a)) =~= l.drop_last().map_values(
            |a: Seq<char>| ChangeModel::Remove(a),
        ).push(ChangeModel::Remove(l.last())));
    }
}

/// No `Insert` of an address that the pool already holds, and no `Remove` of
/// one that it does not hold, at the point where each change arrives.
pub open spec fn valid_changes(live: Set<Seq<char>>, cs: Seq<ChangeModel>) -> bool
    decreases cs.len(),
{
    if cs.len() == 0 {
        true
    } else {
        let before = apply_changes(live, cs.drop_last());
        &&& valid_changes(live, cs.drop_last())
        &&& match cs.last() {
            ChangeModel::Insert(a) => !before.contains(a),
            ChangeModel::Remove(a) => before.contains(a),
        }
    }
}

proof fn lemma_valid_concat(live: Set<Seq<char>>, a: Seq<ChangeModel>, b: Seq<ChangeModel>)
    requires
        valid_changes(live, a),
        valid_changes(apply_changes(live, a), b),
    ensures
        valid_changes(live, a + b),
    decreases b.len(),
{
    if b.len() == 0 {
        assert(a + b =~= a);
    } else {
        assert((a + b).drop_last() =~= a + b.drop_last());
        assert((a + b).last() == b.last());
        lemma_valid_concat(live, a, b.drop_last());
        lemma_apply_concat(live, a, b.drop_last());
    }
}

proof fn lemma_valid_missing(
    live: Set<Seq<char>>,
    items: Seq<Seq<char>>,
    other: Seq<Seq<char>>,
    insert: bool,
)
    requires
        items.no_duplicates(),
        forall|x: Seq<char>|
            items.contains(x) && !other.contains(x) ==> (#[trigger] live.contains(x) != insert),
    ensures
        valid_changes(live, missing_changes(items, other, insert)),
    decreases items.len(),
{
    if items.len() > 0 {
        let p = items.drop_last();
        let l = items.last();
        assert(items =~= p.push(l));
        assert forall|x: Seq<char>| p.contains(x) && !other.contains(x) implies (
        #[trigger] live.contains(x) != insert) by {
            lemma_seq_contains_after_push(p, l, x);
        }
        lemma_valid_missing(live, p, other, insert);
        let r = missing_changes(p, other, insert);
        if !other.contains(l) {
            lemma_seq_contains_after_push(p, l, l);
            assert(!p.contains(l)) by {
                if p.contains(l) {
                    let j = choose|j: int| 0 <= j < p.len() && p[j] == l;
                    assert(items[j] == items[items.len() - 1]);
                }
            }
            lemma_apply_missing(live, p, other, insert, l);
            let c = if insert {
                ChangeModel::Insert(l)
            } else {
                ChangeModel::Remove(l)
            };
            assert(r.push(c).drop_last() =~= r);
        }
    }
}

/// Between duplicate-free address lists, the diff never inserts an address
/// twice without removing it in between, and never removes one that is not there.
pub proof fn lemma_diff_is_valid(prev: Seq<Seq<char>>, next: Seq<Seq<char>>)
    requires
        prev.no_duplicates(),
        next.no_duplicates(),
    ensures
        valid_changes(prev.to_set(), diff(prev, next)),
{
    let rem = missing_changes(prev, next, false);
    let ins = missing_changes(next, prev, true);
    lemma_valid_missing(prev.to_set(), prev, next, false);
    let mid = apply_changes(prev.to_set(), rem);
    assert forall|x: Seq<char>| next.contains(x) && !prev.contains(x) implies (
    #[trigger] mid.contains(x) != true) by {
        lemma_apply_missing(prev.to_set(), prev, next, false, x);
    }
    lemma_valid_missing(mid, next, prev, true);
    lemma_valid_concat(prev.to_set(), rem, ins);
}

/// The removals of a `Deleted` event each remove an address that is there.
pub proof fn lemma_deleted_is_valid(prev: Seq<Seq<char>>)
    requires
        prev.no_duplicates(),
    ensures
        valid_changes(prev.to_set(), missing_changes(prev, seq![], false)),
{
    lemma_valid_missing(prev.to_set(), prev, seq![], false);
}

} // verus!
