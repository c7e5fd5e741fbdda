//! The branching snapshot timeline.
//!
//! An insertion-ordered map from (moveId, gameIndex) keys to board
//! snapshots, with a movable cursor over the insertion order. Inserting at
//! a present key overwrites its snapshot in place; inserting at a new key
//! appends. Snapshots are held in an append-only vector; the order map
//! stores each key's position in that vector.

use vstd::prelude::*;

use crate::board::{board_wf, BoardView, Chessboard};
use std::collections::hash_map::RandomState;

verus! {

#[verifier::external_type_specification]
#[verifier::external_body]
#[verifier::reject_recursive_types(K)]
#[verifier::reject_recursive_types(V)]
#[verifier::reject_recursive_types(S)]
pub struct ExIndexMap<K, V, S>(indexmap::IndexMap<K, V, S>);

/// The entries of the snapshot order map, in insertion order.
pub uninterp spec fn order_entries(
    m: &indexmap::IndexMap<(usize, usize), usize, RandomState>,
) -> Seq<((usize, usize), usize)>;

/// Relies on indexmap's `IndexMap::new`: a fresh map with no entries.
#[verifier::external_body]
fn im_new() -> (m: indexmap::IndexMap<(usize, usize), usize, RandomState>)
    ensures
        order_entries(&m) == Seq::<((usize, usize), usize)>::empty(),
{
    indexmap::IndexMap::new()
}

/// Relies on indexmap's `IndexMap::len`: the number of entries.
#[verifier::external_body]
fn im_len(m: &indexmap::IndexMap<(usize, usize), usize, RandomState>) -> (n: usize)
    ensures
        n == order_entries(m).len(),
{
    m.len()
}

/// Relies on indexmap's `IndexMap::get_index_of`: the position of a key in
/// the insertion order, `None` when the key is absent.
#[verifier::external_body]
fn im_get_index_of(
    m: &indexmap::IndexMap<(usize, usize), usize, RandomState>,
    k: &(usize, usize),
) -> (r: Option<usize>)
    ensures
        match r {
            Some(i) => i < order_entries(m).len() && order_entries(m)[i as int].0 == *k,
            None => forall|j: int|
                0 <= j < order_entries(m).len() ==> (#[trigger] order_entries(m)[j]).0 != *k,
        },
{
    m.get_index_of(k)
}

/// Relies on indexmap's `IndexMap::insert_full`: an existing key keeps its
/// place in the order and gets the new value; a new key is appended last.
/// Returns the entry's position.
#[verifier::external_body]
fn im_insert_full(
    m: &mut indexmap::IndexMap<(usize, usize), usize, RandomState>,
    k: (usize, usize),
    v: usize,
) -> (r: usize)
    ensures
        r <= order_entries(old(m)).len(),
        r < order_entries(old(m)).len() ==> order_entries(old(m))[r as int].0 == k && order_entries(
            final(m),
        ) == order_entries(old(m)).update(r as int, (k, v)),
        r == order_entries(old(m)).len() ==> (forall|j: int|
            0 <= j < order_entries(old(m)).len() ==> (#[trigger] order_entries(old(m))[j]).0 != k)
            && order_entries(final(m)) == order_entries(old(m)).push((k, v)),
{
    m.insert_full(k, v).0
}

/// Relies on indexmap's `IndexMap::get_index`: the entry at a position of
/// the insertion order.
#[verifier::external_body]
fn im_get_index<'a>(
    m: &'a indexmap::IndexMap<(usize, usize), usize, RandomState>,
    i: usize,
) -> (r: Option<(&'a (usize, usize), &'a usize)>)
    ensures
        match r {
            Some(p) => i < order_entries(m).len() && *p.0 == order_entries(m)[i as int].0 && *p.1
                == order_entries(m)[i as int].1,
            None => i >= order_entries(m).len(),
        },
{
    m.get_index(i)
}

/// The timeline: insertion-ordered snapshots keyed by (moveId, gameIndex),
/// a cursor into that order, and the append-only snapshot store.
pub struct Timeline {
    pub order: indexmap::IndexMap<(usize, usize), usize, RandomState>,
    pub boards: Vec<Chessboard>,
    pub cursor: usize,
}

impl Timeline {
    /// The ordered (key, snapshot position) entries.
    pub open spec fn entries(self) -> Seq<((usize, usize), usize)> {
        order_entries(&self.order)
    }

    pub open spec fn len_spec(self) -> int {
        self.entries().len() as int
    }

    /// The key of entry `i`.
    pub open spec fn key_at(self, i: int) -> (usize, usize) {
        self.entries()[i].0
    }

    /// The snapshot of entry `i`.
    pub open spec fn board_at(self, i: int) -> BoardView {
        self.boards@[self.entries()[i].1 as int]@
    }

    /// Whether some entry has key `k`.
    pub open spec fn has_key(self, k: (usize, usize)) -> bool {
        exists|j: int| 0 <= j < self.len_spec() && (#[trigger] self.entries()[j]).0 == k
    }

    /// Entries point into the snapshot store, every snapshot is a
    /// well-formed board, keys are unique, and the cursor is valid
    /// whenever the timeline is non-empty.
    pub open spec fn wf(self) -> bool {
        &&& forall|i: int|
            0 <= i < self.len_spec() ==> (#[trigger] self.entries()[i]).1 < self.boards@.len()
        &&& forall|i: int| 0 <= i < self.boards@.len() ==> board_wf((#[trigger] self.boards@[i])@)
        &&& forall|i: int, j: int|
            #![trigger self.entries()[i], self.entries()[j]]
            0 <= i < j < self.len_spec() ==> self.entries()[i].0 != self.entries()[j].0
        &&& (self.len_spec() > 0 ==> self.cursor < self.len_spec())
    }

    pub fn new() -> (r: Timeline)
        ensures
            r.wf(),
            r.len_spec() == 0,
            r.boards@.len() == 0,
            r.cursor == 0,
    {
        Timeline { order: im_new(), boards: Vec::new(), cursor: 0 }
    }

    pub fn len(&self) -> (n: usize)
        ensures
            n == self.len_spec(),
    {
        im_len(&self.order)
    }

    pub fn index(&self) -> (i: usize)
        ensures
            i == self.cursor,
    {
        self.cursor
    }

    /// Append or overwrite the snapshot at `k` and move the cursor there.
    pub fn insert(&mut self, k: (usize, usize), b: Chessboard)
        requires
            old(self).wf(),
            board_wf(b@),
        ensures
            final(self).wf(),
            final(self).boards@ == old(self).boards@.push(b),
            final(self).cursor <= old(self).len_spec(),
            final(self).cursor < old(self).len_spec() ==> old(self).key_at(
                final(self).cursor as int,
            ) == k && final(self).entries() == old(self).entries().update(
                final(self).cursor as int,
                (k, old(self).boards@.len() as usize),
            ),
            final(self).cursor == old(self).len_spec() ==> !old(self).has_key(k)
                && final(self).entries() == old(self).entries().push(
                (k, old(self).boards@.len() as usize),
            ),
            final(self).key_at(final(self).cursor as int) == k,
            final(self).board_at(final(self).cursor as int) == b@,
            old(self).has_key(k) <==> final(self).cursor < old(self).len_spec(),
    {
        let idx = self.boards.len();
        self.boards.push(b);
        let at = im_insert_full(&mut self.order, k, idx);
        self.cursor = at;
        proof {
            if at < old(self).len_spec() {
                assert(old(self).has_key(k));
            } else {
                assert(!old(self).has_key(k));
            }
        }
    }

    /// The current snapshot, mutable in place. The timeline must have at
    /// least one entry.
    pub fn get(&mut self) -> (r: &mut Chessboard)
        requires
            old(self).wf(),
            old(self).len_spec() > 0,
        ensures
            *r == old(self).boards@[old(self).entries()[old(self).cursor as int].1 as int],
            final(self).order == old(self).order,
            final(self).cursor == old(self).cursor,
            final(self).boards@ == old(self).boards@.update(
                old(self).entries()[old(self).cursor as int].1 as int,
                *final(r),
            ),
            board_wf(final(r)@) ==> final(self).wf(),
    {
        let p = im_get_index(&self.order, self.cursor);
        let idx: usize = match p {
            Some(kv) => *kv.1,
            None => 0,
        };
        proof {
            assert(idx == self.entries()[self.cursor as int].1);
        }
        &mut self.boards[idx]
    }

    /// The current snapshot, read-only. The timeline must have at least
    /// one entry.
    pub fn current(&self) -> (r: &Chessboard)
        requires
            self.wf(),
            self.len_spec() > 0,
        ensures
            r@ == self.board_at(self.cursor as int),
            board_wf(r@),
    {
        let p = im_get_index(&self.order, self.cursor);
        let idx: usize = match p {
            Some(kv) => *kv.1,
            None => 0,
        };
        &self.boards[idx]
    }

    /// The current snapshot's key, or `None` while nothing was inserted.
    pub fn get_key(&self) -> (r: Option<(usize, usize)>)
        requires
            self.wf(),
        ensures
            self.len_spec() == 0 ==> r is None,
            self.len_spec() > 0 ==> r == Some(self.key_at(self.cursor as int)),
    {
        if self.len() == 0 {
            return None;
        }
        match im_get_index(&self.order, self.cursor) {
            Some(kv) => Some(*kv.0),
            None => None,
        }
    }

    /// Whether an entry has key `k`, without touching the cursor.
    pub fn contains_key(&self, k: &(usize, usize)) -> (r: bool)
        ensures
            r == self.has_key(*k),
    {
        match im_get_index_of(&self.order, k) {
            Some(i) => {
                proof {
                    assert(self.entries()[i as int].0 == *k);
                }
                true
            },
            None => {
                proof {
                    assert(!self.has_key(*k));
                }
                false
            },
        }
    }

    /// Seek: move the cursor to `k` if an entry has that key; report
    /// not-found, with nothing changed, otherwise.
    pub fn index_of(&mut self, k: &(usize, usize)) -> (r: Option<()>)
        requires
            old(self).wf(),
        ensures
            final(self).wf(),
            final(self).order == old(self).order,
            final(self).boards == old(self).boards,
            old(self).has_key(*k) ==> r == Some(()) && final(self).cursor < final(self).len_spec()
                && final(self).key_at(final(self).cursor as int) == *k,
            !old(self).has_key(*k) ==> r is None && final(self).cursor == old(self).cursor,
    {
        match im_get_index_of(&self.order, k) {
            Some(i) => {
                self.cursor = i;
                Some(())
            },
            None => {
                proof {
                    assert(!old(self).has_key(*k));
                }
                None
            },
        }
    }
}

} // verus!
