//! The cache of currently materialized chunks.
//!
//! The store maps each chunk position to the opaque render handle under
//! which the chunk's bitmap is registered with the display. Keys are unique,
//! with no implied order; handles are minted from a monotone counter, so a
//! handle is never reused and a position never holds two live handles.

use vstd::prelude::*;

use crate::chunk_position::ChunkPosition;

verus! {

/// An opaque token identifying a chunk registered with the display. The
/// core never inspects a handle's internals.
pub type RenderHandle = u64;

/// The mapping from materialized chunk positions to their render handles.
pub struct ChunkStore {
    entries: Vec<(ChunkPosition, RenderHandle)>,
    next_handle: RenderHandle,
}

impl ChunkStore {
    /// The entries as a sequence of position-handle pairs.
    pub closed spec fn entries_seq(self) -> Seq<(ChunkPosition, RenderHandle)> {
        self.entries@
    }

    /// The handle that the next insertion will mint.
    pub closed spec fn next_handle_spec(self) -> RenderHandle {
        self.next_handle
    }

    /// Whether some entry holds the given position.
    pub open spec fn has_position(self, position: ChunkPosition) -> bool {
        exists|i: int|
            0 <= i < self.entries_seq().len() && (#[trigger] self.entries_seq()[i]).0 == position
    }

    /// The set of positions currently materialized.
    pub open spec fn spawned_set(self) -> Set<ChunkPosition> {
        Set::new(|position: ChunkPosition| self.has_position(position))
    }

    /// The index of the entry holding a position.
    pub open spec fn index_of(self, position: ChunkPosition) -> int {
        choose|i: int|
            0 <= i < self.entries_seq().len() && (#[trigger] self.entries_seq()[i]).0 == position
    }

    /// The handle stored for a position.
    pub open spec fn handle_of(self, position: ChunkPosition) -> RenderHandle {
        self.entries_seq()[self.index_of(position)].1
    }

    /// A consistent store: positions unique, handles unique, and every
    /// stored handle already minted.
    pub open spec fn wf(self) -> bool {
        &&& forall|i: int, j: int|
            0 <= i < self.entries_seq().len() && 0 <= j < self.entries_seq().len() && i != j
                ==> (#[trigger] self.entries_seq()[i]).0 != (#[trigger] self.entries_seq()[j]).0
        &&& forall|i: int, j: int|
            0 <= i < self.entries_seq().len() && 0 <= j < self.entries_seq().len() && i != j
                ==> (#[trigger] self.entries_seq()[i]).1 != (#[trigger] self.entries_seq()[j]).1
        &&& forall|i: int|
            0 <= i < self.entries_seq().len() ==> (#[trigger] self.entries_seq()[i]).1
                < self.next_handle_spec()
    }

    /// In a consistent store, any entry holding a position is the entry that
    /// `index_of` selects.
    pub proof fn lemma_index_unique(self, position: ChunkPosition, i: int)
        requires
            self.wf(),
            0 <= i < self.entries_seq().len(),
            self.entries_seq()[i].0 == position,
        ensures
            self.index_of(position) == i,
            self.has_position(position),
            self.handle_of(position) == self.entries_seq()[i].1,
    {
        assert(self.has_position(position));
        let j = self.index_of(position);
        assert(0 <= j < self.entries_seq().len() && self.entries_seq()[j].0 == position);
    }

    /// Every entry of a consistent store is the entry that its position
    /// maps to.
    pub proof fn lemma_entries_characterize(self)
        requires
            self.wf(),
        ensures
            forall|i: int|
                0 <= i < self.entries_seq().len() ==> self.has_position(
                    (#[trigger] self.entries_seq()[i]).0,
                ) && self.handle_of(self.entries_seq()[i].0) == self.entries_seq()[i].1,
    {
        assert forall|i: int| 0 <= i < self.entries_seq().len() implies self.has_position(
            (#[trigger] self.entries_seq()[i]).0,
        ) && self.handle_of(self.entries_seq()[i].0) == self.entries_seq()[i].1 by {
            self.lemma_index_unique(self.entries_seq()[i].0, i);
        }
    }

    /// An empty store whose handle counter starts at zero.
    pub fn new() -> (store: ChunkStore)
        ensures
            store.wf(),
            store.entries_seq().len() == 0,
            store.spawned_set() == Set::<ChunkPosition>::empty(),
            store.next_handle_spec() == 0,
    {
        let store = ChunkStore { entries: Vec::new(), next_handle: 0 };
        proof {
            assert(store.spawned_set() =~= Set::<ChunkPosition>::empty());
        }
        store
    }

    /// The handle that the next insertion will mint.
    pub fn next_handle(&self) -> (handle: RenderHandle)
        ensures
            handle == self.next_handle_spec(),
    {
        self.next_handle
    }

    /// The number of materialized chunks.
    pub fn len(&self) -> (n: usize)
        ensures
            n == self.entries_seq().len(),
    {
        self.entries.len()
    }

    /// Whether a position is currently materialized.
    pub fn contains_position(&self, position: ChunkPosition) -> (found: bool)
        requires
            self.wf(),
        ensures
            found == self.has_position(position),
    {
        let mut i: usize = 0;
        while i < self.entries.len()
            invariant
                i <= self.entries_seq().len(),
                forall|j: int| 0 <= j < i ==> (#[trigger] self.entries_seq()[j]).0 != position,
            decreases self.entries_seq().len() - i,
        {
            if self.entries[i].0 == position {
                return true;
            }
            i += 1;
        }
        false
    }

    /// The positions of every materialized chunk, without duplicates.
    pub fn positions(&self) -> (result: Vec<ChunkPosition>)
        requires
            self.wf(),
        ensures
            result@.len() == self.entries_seq().len(),
            forall|i: int| 0 <= i < result@.len() ==> #[trigger] result@[i]
                == self.entries_seq()[i].0,
            forall|position: ChunkPosition| #[trigger] result@.contains(position)
                == self.has_position(position),
            forall|i: int, j: int|
                0 <= i < result@.len() && 0 <= j < result@.len() && i != j ==> #[trigger] result@[i]
                    != #[trigger] result@[j],
    {
        let mut result: Vec<ChunkPosition> = Vec::new();
        let mut i: usize = 0;
        while i < self.entries.len()
            invariant
                i <= self.entries_seq().len(),
                result@.len() == i as nat,
                forall|j: int| 0 <= j < i ==> #[trigger] result@[j] == self.entries_seq()[j].0,
            decreases self.entries_seq().len() - i,
        {
            result.push(self.entries[i].0);
            i += 1;
        }
        proof {
            assert forall|position: ChunkPosition| #[trigger] result@.contains(position)
                == self.has_position(position) by {
                if result@.contains(position) {
                    let k = choose|k: int| 0 <= k < result@.len() && result@[k] == position;
                    assert(self.entries_seq()[k].0 == position);
                }
                if self.has_position(position) {
                    let k = choose|k: int|
                        0 <= k < self.entries_seq().len() && (#[trigger] self.entries_seq()[k]).0
                            == position;
                    assert(result@[k] == position);
                }
            }
        }
        result
    }

    /// Materializes a position, minting a fresh handle for it: the handle is
    /// distinct from every handle the store has ever minted.
    pub fn insert(&mut self, position: ChunkPosition) -> (handle: RenderHandle)
        requires
            old(self).wf(),
            !old(self).has_position(position),
            old(self).next_handle_spec() < u64::MAX,
        ensures
            final(self).wf(),
            handle == old(self).next_handle_spec(),
            final(self).next_handle_spec() == old(self).next_handle_spec() + 1,
            final(self).entries_seq() == old(self).entries_seq().push((position, handle)),
            final(self).has_position(position),
            final(self).handle_of(position) == handle,
            forall|q: ChunkPosition| #[trigger] final(self).has_position(q) == (old(self).has_position(q)
                || q == position),
            forall|q: ChunkPosition|
                old(self).has_position(q) ==> #[trigger] final(self).handle_of(q) == old(
                    self,
                ).handle_of(q),
    {
        let handle = self.next_handle;
        self.entries.push((position, handle));
        self.next_handle = self.next_handle + 1;
        proof {
            let n = old(self).entries_seq().len() as int;
            self.lemma_index_unique(position, n);
            assert forall|q: ChunkPosition| #[trigger] self.has_position(q) == (old(
                self,
            ).has_position(q) || q == position) by {
                if old(self).has_position(q) {
                    let k = choose|k: int|
                        0 <= k < old(self).entries_seq().len() && (#[trigger] old(
                            self,
                        ).entries_seq()[k]).0 == q;
                    assert(self.entries_seq()[k].0 == q);
                }
                if self.has_position(q) && q != position {
                    let k = choose|k: int|
                        0 <= k < self.entries_seq().len() && (#[trigger] self.entries_seq()[k]).0
                            == q;
                    assert(old(self).entries_seq()[k].0 == q);
                }
            }
            assert forall|q: ChunkPosition| old(self).has_position(q) implies #[trigger] self.handle_of(q)
                == old(self).handle_of(q) by {
                let k = old(self).index_of(q);
                assert(self.entries_seq()[k].0 == q);
                self.lemma_index_unique(q, k);
            }
        }
        handle
    }

    /// Releases a position: removes its entry and returns its handle, or
    /// returns `None` and leaves the store unchanged when the position is
    /// not materialized.
    pub fn remove(&mut self, position: ChunkPosition) -> (released: Option<RenderHandle>)
        requires
            old(self).wf(),
        ensures
            final(self).wf(),
            final(self).next_handle_spec() == old(self).next_handle_spec(),
            old(self).has_position(position) ==> released == Some(old(self).handle_of(position)),
            !old(self).has_position(position) ==> released == None::<RenderHandle> && *final(self)
                == *old(self),
            !final(self).has_position(position),
            forall|q: ChunkPosition| q != position ==> #[trigger] final(self).has_position(q) == old(
                self,
            ).has_position(q),
            forall|q: ChunkPosition|
                q != position && old(self).has_position(q) ==> #[trigger] final(self).handle_of(q)
                    == old(self).handle_of(q),
            old(self).has_position(position) ==> final(self).entries_seq().len() == old(
                self,
            ).entries_seq().len() - 1,
    {
        let mut i: usize = 0;
        while i < self.entries.len()
            invariant
                *self == *old(self),
                old(self).wf(),
                i <= self.entries_seq().len(),
                forall|j: int| 0 <= j < i ==> (#[trigger] self.entries_seq()[j]).0 != position,
            decreases self.entries_seq().len() - i,
        {
            if self.entries[i].0 == position {
                proof {
                    old(self).lemma_index_unique(position, i as int);
                }
                let entry = self.entries.remove(i);
                proof {
                    let removed = old(self).entries_seq().remove(i as int);
                    assert(self.entries_seq() == removed);
                    assert forall|q: ChunkPosition| q != position implies #[trigger] self.has_position(q)
                        == old(self).has_position(q) by {
                        if self.has_position(q) {
                            let k = choose|k: int|
                                0 <= k < self.entries_seq().len() && (
                                #[trigger] self.entries_seq()[k]).0 == q;
                            if k < i {
                                assert(old(self).entries_seq()[k].0 == q);
                            } else {
                                assert(old(self).entries_seq()[k + 1].0 == q);
                            }
                        }
                        if old(self).has_position(q) {
                            let k = choose|k: int|
                                0 <= k < old(self).entries_seq().len() && (#[trigger] old(
                                    self,
                                ).entries_seq()[k]).0 == q;
                            if k < i {
                                assert(self.entries_seq()[k].0 == q);
                            } else {
                                assert(k > i);
                                assert(self.entries_seq()[k - 1].0 == q);
                            }
                        }
                    }
                    assert(!self.has_position(position)) by {
                        if self.has_position(position) {
                            let k = choose|k: int|
                                0 <= k < self.entries_seq().len() && (
                                #[trigger] self.entries_seq()[k]).0 == position;
                            if k < i {
                                assert(old(self).entries_seq()[k].0 == position);
                            } else {
                                assert(old(self).entries_seq()[k + 1].0 == position);
                            }
                        }
                    }
                    assert forall|q: ChunkPosition| q != position && old(self).has_position(q)
                        implies #[trigger] self.handle_of(q) == old(self).handle_of(q) by {
                        let k = old(self).index_of(q);
                        if k < i {
                            self.lemma_index_unique(q, k);
                        } else {
                            assert(k > i);
                            self.lemma_index_unique(q, k - 1);
                        }
                    }
                }
                return Some(entry.1);
            }
            i += 1;
        }
        None
    }

    /// Releases every entry at once, returning the released position-handle
    /// pairs. The handle counter is kept, so chunks spawned after the drain
    /// still receive fresh handles.
    pub fn drain_all(&mut self) -> (released: Vec<(ChunkPosition, RenderHandle)>)
        requires
            old(self).wf(),
        ensures
            final(self).wf(),
            final(self).entries_seq().len() == 0,
            final(self).spawned_set() == Set::<ChunkPosition>::empty(),
            final(self).next_handle_spec() == old(self).next_handle_spec(),
            released@ == old(self).entries_seq(),
    {
        let mut released: Vec<(ChunkPosition, RenderHandle)> = Vec::new();
        let mut i: usize = 0;
        while i < self.entries.len()
            invariant
                *self == *old(self),
                i <= self.entries_seq().len(),
                released@ == self.entries_seq().take(i as int),
            decreases self.entries_seq().len() - i,
        {
            released.push(self.entries[i]);
            i += 1;
        }
        self.entries.clear();
        proof {
            assert(released@ =~= old(self).entries_seq());
            assert(self.spawned_set() =~= Set::<ChunkPosition>::empty());
        }
        released
    }
}

} // verus!
