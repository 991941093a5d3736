//! A generational slot store.
//!
//! Handles are an index plus a generation counter, so a handle to a slot
//! that was freed and reused never silently addresses the new occupant:
//! the generation is bumped on removal and stale handles miss.
//!
//! A live slot is either *present* (it holds a value) or *taken* (its
//! value is temporarily out, a tombstone left behind): the dispatcher
//! takes an object out for the duration of a handler and restores it
//! afterwards.

use vstd::prelude::*;

verus! {

/// A stable, unforgeable handle into a [`SlotStore`].
#[derive(Clone, Copy, Debug, PartialEq, Eq, Hash, Structural)]
pub struct GlobalObjectId {
    idx: usize,
    generation: u32,
}

impl GlobalObjectId {
    /// The slot index, a stable small number while the handle is live.
    ///
    /// It serves as the wire `name` of a global, so that two globals of
    /// the same interface stay distinguishable.
    pub fn index(&self) -> (r: usize)
        ensures
            r == self.spec_index(),
    {
        self.idx
    }

    pub closed spec fn spec_index(&self) -> usize {
        self.idx
    }

    pub closed spec fn spec_generation(&self) -> u32 {
        self.generation
    }
}

enum SlotState<T> {
    Free,
    Present(T),
    Taken,
}

struct SlotEntry<T> {
    generation: u32,
    state: SlotState<T>,
}

/// A vector of generational slots with a free list.
pub struct SlotStore<T> {
    slots: Vec<SlotEntry<T>>,
    free: Vec<usize>,
}

impl<T> SlotStore<T> {
    /// The handle addresses a live slot: present or taken.
    pub closed spec fn live(&self, h: GlobalObjectId) -> bool {
        &&& h.spec_index() < self.slots@.len()
        &&& self.slots@[h.spec_index() as int].generation == h.spec_generation()
        &&& !(self.slots@[h.spec_index() as int].state is Free)
    }

    /// The handle addresses a slot that holds its value.
    pub closed spec fn present(&self, h: GlobalObjectId) -> bool {
        &&& self.live(h)
        &&& self.slots@[h.spec_index() as int].state is Present
    }

    /// The handle addresses a live slot whose value is temporarily out.
    pub open spec fn taken(&self, h: GlobalObjectId) -> bool {
        self.live(h) && !self.present(h)
    }

    /// A present slot is live.
    pub broadcast proof fn lemma_present_live(&self, h: GlobalObjectId)
        ensures
            #[trigger] self.present(h) ==> self.live(h),
    {
    }

    /// The value a present slot holds.
    pub closed spec fn value_of(&self, h: GlobalObjectId) -> T
        recommends
            self.present(h),
    {
        self.slots@[h.spec_index() as int].state->Present_0
    }

    /// The handle's slot has moved past it: the slot's generation is
    /// beyond the handle's (or the generation space is spent and the
    /// slot retired).  A removed handle is retired, retirement is
    /// permanent, and `insert` never hands a retired handle out — so a
    /// handle that was removed is never reissued, and a stale handle
    /// never silently addresses a new occupant.
    pub closed spec fn retired(&self, h: GlobalObjectId) -> bool {
        &&& h.spec_index() < self.slots@.len()
        &&& (self.slots@[h.spec_index() as int].generation > h.spec_generation() || (
        self.slots@[h.spec_index() as int].generation == h.spec_generation()
            && h.spec_generation() == u32::MAX && self.slots@[h.spec_index() as int].state
            is Free))
    }

    /// A live handle is not retired.
    pub broadcast proof fn lemma_live_not_retired(&self, h: GlobalObjectId)
        ensures
            #[trigger] self.live(h) ==> !self.retired(h),
    {
    }

    /// How many slots the store addresses, free or not.
    pub closed spec fn spec_slot_count(&self) -> int {
        self.slots@.len() as int
    }

    /// The free list holds exactly indices of free slots, each at most
    /// once, each with generation space left, and every slot index stays
    /// addressable.
    pub closed spec fn wf(&self) -> bool {
        &&& self.slots@.len() <= usize::MAX as int
        &&& forall|k: int|
            0 <= k < self.free@.len() ==> (#[trigger] self.free@[k]) < self.slots@.len()
                && self.slots@[self.free@[k] as int].state is Free
                && self.slots@[self.free@[k] as int].generation < u32::MAX
        &&& forall|k1: int, k2: int|
            0 <= k1 < self.free@.len() && 0 <= k2 < self.free@.len() && k1 != k2
                ==> self.free@[k1] != self.free@[k2]
    }

    /// Two stores agree on every handle: liveness, presence and values.
    pub open spec fn same_slots(&self, other: &SlotStore<T>) -> bool {
        &&& forall|h: GlobalObjectId| self.live(h) == #[trigger] other.live(h)
        &&& forall|h: GlobalObjectId| self.present(h) == #[trigger] other.present(h)
        &&& forall|h: GlobalObjectId|
            self.present(h) ==> self.value_of(h) == #[trigger] other.value_of(h)
    }

    pub fn new() -> (r: SlotStore<T>)
        ensures
            r.wf(),
            forall|h: GlobalObjectId| !(#[trigger] r.live(h)),
    {
        SlotStore { slots: Vec::new(), free: Vec::new() }
    }

    /// Store a value in a fresh slot and hand back its handle.
    ///
    /// The handle is fresh: it was not live before, it is not a retired
    /// handle (one that was live once and removed), and every other
    /// handle is unaffected.
    pub fn insert(&mut self, value: T) -> (h: GlobalObjectId)
        requires
            old(self).wf(),
        ensures
            final(self).wf(),
            !old(self).live(h),
            !old(self).retired(h),
            h.spec_index() <= old(self).spec_slot_count(),
            final(self).spec_slot_count() <= old(self).spec_slot_count() + 1,
            final(self).present(h),
            final(self).value_of(h) == value,
            forall|g: GlobalObjectId|
                old(self).retired(g) ==> #[trigger] final(self).retired(g),
            forall|g: GlobalObjectId|
                g != h ==> old(self).live(g) == #[trigger] final(self).live(g),
            forall|g: GlobalObjectId|
                g != h ==> old(self).present(g) == #[trigger] final(self).present(g),
            forall|g: GlobalObjectId|
                g != h && old(self).present(g) ==> old(self).value_of(g)
                    == #[trigger] final(self).value_of(g),
    {
        match self.free.pop() {
            Some(idx) => {
                let generation = self.slots[idx].generation;
                self.slots[idx] = SlotEntry { generation, state: SlotState::Present(value) };
                GlobalObjectId { idx, generation }
            },
            None => {
                let idx = self.slots.len();
                self.slots.push(SlotEntry { generation: 0, state: SlotState::Present(value) });
                if idx == usize::MAX {
                    // `Vec::push` aborts before the length can pass the
                    // address space, so this point cannot be reached.
                    let n = self.slots.len();
                    proof {
                        assert(false);
                    }
                    unreached()
                } else {
                    GlobalObjectId { idx, generation: 0 }
                }
            },
        }
    }

    /// Look at the value of a present slot; `None` for a stale handle or
    /// a taken slot.
    pub fn get(&self, h: GlobalObjectId) -> (r: Option<&T>)
        ensures
            self.present(h) ==> r == Some(&self.value_of(h)),
            !self.present(h) ==> r is None,
    {
        if h.idx < self.slots.len() {
            let entry = &self.slots[h.idx];
            if entry.generation == h.generation {
                match &entry.state {
                    SlotState::Present(v) => Some(v),
                    _ => None,
                }
            } else {
                None
            }
        } else {
            None
        }
    }

    /// Move the value out of a present slot, leaving a tombstone; `None`
    /// for a stale handle or an already-taken slot.
    pub fn take(&mut self, h: GlobalObjectId) -> (r: Option<T>)
        requires
            old(self).wf(),
        ensures
            final(self).wf(),
            old(self).present(h) ==> r == Some(old(self).value_of(h)) && final(self).taken(h),
            !old(self).present(h) ==> r is None && *final(self) == *old(self),
            forall|g: GlobalObjectId|
                g != h ==> old(self).live(g) == #[trigger] final(self).live(g),
            forall|g: GlobalObjectId|
                g != h ==> old(self).present(g) == #[trigger] final(self).present(g),
            forall|g: GlobalObjectId|
                g != h && old(self).present(g) ==> old(self).value_of(g)
                    == #[trigger] final(self).value_of(g),
            final(self).live(h) == old(self).live(h),
            forall|g: GlobalObjectId|
                old(self).retired(g) ==> #[trigger] final(self).retired(g),
            final(self).spec_slot_count() == old(self).spec_slot_count(),
    {
        if h.idx < self.slots.len() {
            let entry = &self.slots[h.idx];
            if entry.generation == h.generation {
                let is_present = match &entry.state {
                    SlotState::Present(_) => true,
                    _ => false,
                };
                if is_present {
                    let mut swapped = SlotEntry { generation: h.generation, state: SlotState::Taken };
                    core::mem::swap(&mut swapped, &mut self.slots[h.idx]);
                    match swapped.state {
                        SlotState::Present(v) => Some(v),
                        _ => None,
                    }
                } else {
                    None
                }
            } else {
                None
            }
        } else {
            None
        }
    }

    /// Put a value back into a taken slot.
    ///
    /// The handle must address a live slot; restoring over a present
    /// slot replaces its value (the dispatcher only restores what it
    /// took).
    pub fn restore(&mut self, h: GlobalObjectId, value: T)
        requires
            old(self).wf(),
            old(self).live(h),
        ensures
            final(self).wf(),
            final(self).present(h),
            final(self).value_of(h) == value,
            forall|g: GlobalObjectId|
                g != h ==> old(self).live(g) == #[trigger] final(self).live(g),
            forall|g: GlobalObjectId|
                g != h ==> old(self).present(g) == #[trigger] final(self).present(g),
            forall|g: GlobalObjectId|
                g != h && old(self).present(g) ==> old(self).value_of(g)
                    == #[trigger] final(self).value_of(g),
            forall|g: GlobalObjectId|
                old(self).retired(g) ==> #[trigger] final(self).retired(g),
            final(self).spec_slot_count() == old(self).spec_slot_count(),
    {
        self.slots[h.idx] = SlotEntry { generation: h.generation, state: SlotState::Present(value) };
    }

    /// Delete a present slot and hand its value out, bumping the
    /// generation so stale handles miss; `None` for a stale handle.
    ///
    /// The removed handle is retired for good: no later `insert`
    /// returns it. A taken slot must be restored before it can be
    /// removed.
    pub fn remove(&mut self, h: GlobalObjectId) -> (r: Option<T>)
        requires
            old(self).wf(),
            !old(self).taken(h),
        ensures
            final(self).wf(),
            old(self).present(h) ==> r == Some(old(self).value_of(h)),
            !old(self).present(h) ==> r is None && *final(self) == *old(self),
            !final(self).live(h),
            old(self).present(h) ==> final(self).retired(h),
            forall|g: GlobalObjectId|
                g != h ==> old(self).live(g) == #[trigger] final(self).live(g),
            forall|g: GlobalObjectId|
                g != h ==> old(self).present(g) == #[trigger] final(self).present(g),
            forall|g: GlobalObjectId|
                g != h && old(self).present(g) ==> old(self).value_of(g)
                    == #[trigger] final(self).value_of(g),
            forall|g: GlobalObjectId|
                old(self).retired(g) ==> #[trigger] final(self).retired(g),
            final(self).spec_slot_count() == old(self).spec_slot_count(),
    {
        if h.idx < self.slots.len() {
            let entry = &self.slots[h.idx];
            if entry.generation == h.generation {
                let is_present = match &entry.state {
                    SlotState::Present(_) => true,
                    _ => false,
                };
                if is_present {
                    let next_generation = if h.generation < u32::MAX {
                        h.generation + 1
                    } else {
                        // The generation space for this slot is spent:
                        // retire the slot instead of reusing it.
                        h.generation
                    };
                    let mut swapped = SlotEntry { generation: next_generation, state: SlotState::Free };
                    core::mem::swap(&mut swapped, &mut self.slots[h.idx]);
                    if h.generation < u32::MAX - 1 {
                        // Only a slot with generation space left may be
                        // reused; at the edge it stays retired.
                        self.free.push(h.idx);
                    }
                    proof {
                        assert(forall|k: int|
                            0 <= k < old(self).free@.len() ==> old(self).free@[k]
                                == #[trigger] self.free@[k]);
                    }
                    match swapped.state {
                        SlotState::Present(v) => Some(v),
                        _ => None,
                    }
                } else {
                    None
                }
            } else {
                None
            }
        } else {
            None
        }
    }
}

} // verus!
