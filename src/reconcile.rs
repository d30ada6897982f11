use vstd::prelude::*;

use crate::addresses::{
    address_list, endpoints_to_addresses, lemma_dedup, raw_addresses, strs_view, Snapshot,
};
use crate::error::{Error, ErrorModel};
use crate::target::{PortSpecModel, TargetInfo};

verus! {

/// A membership change for the connection pool, keyed by the `ip:port` text.
#[derive(Debug, Clone, PartialEq, Eq)]
pub enum Change {
    Insert(String),
    Remove(String),
}

pub enum ChangeModel {
    Insert(Seq<char>),
    Remove(Seq<char>),
}

impl View for Change {
    type V = ChangeModel;

    open spec fn view(&self) -> ChangeModel {
        match self {
            Change::Insert(s) => ChangeModel::Insert(s@),
            Change::Remove(s) => ChangeModel::Remove(s@),
        }
    }
}

pub open spec fn changes_view(v: Seq<Change>) -> Seq<ChangeModel> {
    v.map_values(|c: Change| c@)
}

/// One notification of the endpoint watch.
#[derive(Debug, Clone, PartialEq, Eq)]
pub enum WatchEvent {
    /// The full current state of the watched object.
    Applied(Snapshot),
    /// The watched object is gone.
    Deleted,
    /// Anything else (a bookmark, a restart marker): nothing to do.
    Other,
}

/// One change for each entry of `items` that `other` lacks, in the order of
/// `items`: an `Insert` when `insert`, else a `Remove`.
pub open spec fn missing_changes(items: Seq<Seq<char>>, other: Seq<Seq<char>>, insert: bool) -> Seq<
    ChangeModel,
>
    decreases items.len(),
{
    if items.len() == 0 {
        seq![]
    } else {
        let r = missing_changes(items.drop_last(), other, insert);
        if other.contains(items.last()) {
            r
        } else if insert {
            r.push(ChangeModel::Insert(items.last()))
        } else {
            r.push(ChangeModel::Remove(items.last()))
        }
    }
}

/// The changes that take a pool holding `prev` to one holding `next`: first the
/// removals, then the insertions.
pub open spec fn diff(prev: Seq<Seq<char>>, next: Seq<Seq<char>>) -> Seq<ChangeModel> {
    missing_changes(prev, next, false) + missing_changes(next, prev, true)
}

/// What one event does to the previous address list: the new list and the
/// changes emitted, or the error that stops the loop.
pub open spec fn step(prev: Seq<Seq<char>>, port: PortSpecModel, event: WatchEvent) -> Result<
    (Seq<Seq<char>>, Seq<ChangeModel>),
    ErrorModel,
> {
    match event {
        WatchEvent::Applied(s) => match address_list(port, s@) {
            Ok(next) => Ok((next, diff(prev, next))),
            Err(e) => Err(e),
        },
        WatchEvent::Deleted => Ok((seq![], missing_changes(prev, seq![], false))),
        WatchEvent::Other => Ok((prev, seq![])),
    }
}

/// The addresses that a pool considers live after receiving `cs` while holding `live`.
pub open spec fn apply_changes(live: Set<Seq<char>>, cs: Seq<ChangeModel>) -> Set<Seq<char>>
    decreases cs.len(),
{
    if cs.len() == 0 {
        live
    } else {
        let before = apply_changes(live, cs.drop_last());
        match cs.last() {
            ChangeModel::Insert(a) => before.insert(a),
            ChangeModel::Remove(a) => before.remove(a),
        }
    }
}

fn push_missing(out: &mut Vec<Change>, items: &Vec<String>, other: &Vec<String>, insert: bool)
    ensures
        changes_view(final(out)@) == changes_view(old(out)@) + missing_changes(
            strs_view(items@),
            strs_view(other@),
            insert,
        ),
{
    let ghost iv = strs_view(items@);
    let ghost ov = strs_view(other@);
    let mut i: usize = 0;
    assert(iv.subrange(0, 0) =~= seq![]);
    assert(changes_view(out@) =~= changes_view(old(out)@) + seq![]);
    while i < items.len()
        invariant
            iv == strs_view(items@),
            ov == strs_view(other@),
            i <= items.len(),
            changes_view(out@) == changes_view(old(out)@) + missing_changes(
                iv.subrange(0, i as int),
                ov,
                insert,
            ),
        decreases items.len() - i,
    {
        let ghost pre = iv.subrange(0, i as int);
        let ghost cur = iv.subrange(0, i + 1);
        assert(cur.drop_last() =~= pre);
        assert(cur.last() == items@[i as int]@);
        if !crate::addresses::contains_str(other, &items[i]) {
            let key = items[i].clone();
            let ghost before = changes_view(out@);
            if insert {
                out.push(Change::Insert(key));
            } else {
                out.push(Change::Remove(key));
            }
            assert(changes_view(out@) =~= before.push(out@.last()@));
        }
        i = i + 1;
    }
    assert(iv.subrange(0, i as int) =~= iv);
}

/// The state that one reconciliation loop keeps: the address list that the
/// pool was last brought to.
pub struct ResolverState {
    previous: Vec<String>,
}

impl View for ResolverState {
    type V = Seq<Seq<char>>;

    closed spec fn view(&self) -> Seq<Seq<char>> {
        strs_view(self.previous@)
    }
}

impl ResolverState {
    /// No address is held twice.
    pub open spec fn wf(&self) -> bool {
        self@.no_duplicates()
    }

    /// The state before the first event: nothing is live.
    pub fn new() -> (r: ResolverState)
        ensures
            r@ == Seq::<Seq<char>>::empty(),
            r.wf(),
    {
        let r = ResolverState { previous: Vec::new() };
        assert(r@ =~= Seq::<Seq<char>>::empty());
        r
    }

    /// The addresses that the pool was last brought to.
    pub fn previous(&self) -> (r: &Vec<String>)
        ensures
            strs_view(r@) == self@,
    {
        &self.previous
    }

    /// Handles one watch event: on `Applied`, removes what is gone and inserts
    /// what is new, then remembers the new address set; on `Deleted`, removes
    /// everything and forgets it; other events change nothing. A port that
    /// cannot be resolved is returned as the error and leaves the state as it was.
    pub fn on_event(&mut self, target: &TargetInfo, event: &WatchEvent) -> (r: Result<
        Vec<Change>,
        Error,
    >)
        requires
            old(self).wf(),
        ensures
            final(self).wf(),
            match r {
                Ok(cs) => step(old(self)@, target@.port, *event) == Ok::<
                    (Seq<Seq<char>>, Seq<ChangeModel>),
                    ErrorModel,
                >((final(self)@, changes_view(cs@))),
                Err(e) => step(old(self)@, target@.port, *event) == Err::<
                    (Seq<Seq<char>>, Seq<ChangeModel>),
                    ErrorModel,
                >(e@) && final(self)@ == old(self)@,
            },
    {
        match event {
            WatchEvent::Applied(snapshot) => {
                let next = match endpoints_to_addresses(target, snapshot) {
                    Ok(v) => v,
                    Err(e) => {
                        return Err(e);
                    },
                };
                proof {
                    lemma_dedup(raw_addresses(target@.port, snapshot@)->Ok_0);
                }
                let mut out: Vec<Change> = Vec::new();
                push_missing(&mut out, &self.previous, &next, false);
                push_missing(&mut out, &next, &self.previous, true);
                assert(changes_view(out@) =~= diff(old(self)@, strs_view(next@)));
                self.previous = next;
                Ok(out)
            },
            WatchEvent::Deleted => {
                let mut out: Vec<Change> = Vec::new();
                let empty: Vec<String> = Vec::new();
                assert(strs_view(empty@) =~= seq![]);
                push_missing(&mut out, &self.previous, &empty, false);
                assert(changes_view(out@) =~= missing_changes(old(self)@, seq![], false));
                self.previous = Vec::new();
                assert(self@ =~= seq![]);
                Ok(out)
            },
            WatchEvent::Other => {
                let out: Vec<Change> = Vec::new();
                assert(changes_view(out@) =~= seq![]);
                Ok(out)
            },
        }
    }
}

} // verus!
