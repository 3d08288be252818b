//! Double-buffered free-list allocator: a dense growable array of
//! `(enabled, payload)` slots plus two free-id buffers used in round-robin
//! fashion — one being drained by allocations ("load"), one being filled by
//! deletions ("store"). Ids are 1-based; 0 is reserved for "no id" and marks
//! claimed entries inside the buffers. The well-formedness invariant carries
//! the data model's exclusivity rule: an id recorded in a buffer names a
//! slot that is currently disabled, so no id is both allocated and free.

use vstd::prelude::*;

verus! {

/// A 1-based slot id; never zero.
pub struct SyncSlot {
    pub index: u32,
}

impl SyncSlot {
    pub open spec fn wf(self) -> bool {
        self.index != 0
    }

    pub fn from_u32(index: u32) -> (r: SyncSlot)
        requires
            index != 0,
        ensures
            r.index == index,
            r.wf(),
    {
        SyncSlot { index }
    }

    pub fn as_u32(&self) -> (r: u32)
        ensures
            r == self.index,
    {
        self.index
    }

    /// The 0-based position of this id in the dense slot array.
    pub fn as_sync_vec_index(&self) -> (r: usize)
        requires
            self.wf(),
        ensures
            r == self.index - 1,
    {
        (self.index - 1) as usize
    }
}

/// Cursors of one free-id buffer: how many ids have been stored into it and
/// how many an allocator has already claimed from it.
pub struct FreeKeysMeta {
    pub store_iter: usize,
    pub load_iter: usize,
}

/// The allocator. `load_keys` is the buffer currently drained by
/// `get_free_key`; `store_keys` the one filled by `delete`; `get_free_key`
/// swaps their roles when the load side is exhausted.
pub struct SyncSlotMap<T> {
    pub free_keys_store_idx: u32,
    pub load_keys: Vec<u32>,
    pub load_meta: FreeKeysMeta,
    pub store_keys: Vec<u32>,
    pub store_meta: FreeKeysMeta,
    pub slots: Vec<(bool, T)>,
}

impl<T> SyncSlotMap<T> {
    /// One buffer entry is lawful: claimed (zero), or a recorded id that
    /// names an existing slot which is currently disabled — an id is never
    /// both allocated and free.
    pub open spec fn entry_ok(self, id: u32) -> bool {
        id == 0 || (1 <= id <= self.slots@.len() && !self.enabled(id as int - 1))
    }

    /// Well-formedness: each buffer's store cursor stays within it, every
    /// entry is lawful, and no id sits in the buffers twice — together with
    /// `entry_ok` this is the exclusivity invariant of the data model.
    pub open spec fn wf(self) -> bool {
        &&& self.load_meta.store_iter <= self.load_keys@.len()
        &&& self.store_meta.store_iter <= self.store_keys@.len()
        &&& forall|k: int| 0 <= k < self.load_keys@.len() ==>
            self.entry_ok(#[trigger] self.load_keys@[k])
        &&& forall|k: int| 0 <= k < self.store_keys@.len() ==>
            self.entry_ok(#[trigger] self.store_keys@[k])
        &&& forall|p: int, q: int| 0 <= p < q < self.load_keys@.len() ==>
            ((#[trigger] self.load_keys@[p]) == 0
                || self.load_keys@[p] != (#[trigger] self.load_keys@[q]))
        &&& forall|p: int, q: int| 0 <= p < q < self.store_keys@.len() ==>
            ((#[trigger] self.store_keys@[p]) == 0
                || self.store_keys@[p] != (#[trigger] self.store_keys@[q]))
        &&& forall|p: int, q: int| 0 <= p < self.load_keys@.len()
                && 0 <= q < self.store_keys@.len() ==>
            ((#[trigger] self.load_keys@[p]) == 0
                || self.load_keys@[p] != (#[trigger] self.store_keys@[q]))
    }

    /// The load side is exhausted by cursor arithmetic.
    pub open spec fn load_drained(self) -> bool {
        self.load_meta.store_iter <= self.load_meta.load_iter
    }

    /// The buffer `get_free_key` scans, after any role swap: the store
    /// buffer when the load side is drained, the load buffer otherwise.
    pub open spec fn scan_keys(self) -> Seq<u32> {
        if self.load_drained() {
            self.store_keys@
        } else {
            self.load_keys@
        }
    }

    /// First position of the scan window.
    pub open spec fn scan_lo(self) -> int {
        if self.load_drained() {
            0
        } else {
            self.load_meta.load_iter as int
        }
    }

    /// One past the last position of the scan window.
    pub open spec fn scan_hi(self) -> int {
        if self.load_drained() {
            self.store_meta.store_iter as int
        } else {
            self.load_meta.store_iter as int
        }
    }

    /// A previously freed id is available to claim: the scan window holds a
    /// non-claimed entry.
    pub open spec fn has_free_key(self) -> bool {
        exists|p: int| self.scan_lo() <= p < self.scan_hi() && self.scan_keys()[p] != 0
    }

    /// Position `p` holds the first claimable id of the scan window.
    pub open spec fn first_free_at(self, p: int) -> bool {
        &&& self.scan_lo() <= p < self.scan_hi()
        &&& self.scan_keys()[p] != 0
        &&& forall|q: int| self.scan_lo() <= q < p ==> self.scan_keys()[q] == 0
    }

    /// No free id is available anywhere: both buffers hold nothing to
    /// drain. Holds for a fresh map and is preserved while nothing is
    /// deleted, so consecutive pushes append.
    pub open spec fn fresh_free(self) -> bool {
        &&& self.load_meta.store_iter <= self.load_meta.load_iter
        &&& self.store_meta.store_iter == 0
    }

    pub open spec fn enabled(self, i: int) -> bool
        recommends
            0 <= i < self.slots@.len(),
    {
        self.slots@[i].0
    }

    pub open spec fn payload(self, i: int) -> T
        recommends
            0 <= i < self.slots@.len(),
    {
        self.slots@[i].1
    }

    /// An empty allocator: no slots, both buffers empty.
    pub fn new() -> (r: SyncSlotMap<T>)
        ensures
            r.wf(),
            r.fresh_free(),
            !r.has_free_key(),
            r.slots@.len() == 0,
            r.load_keys@.len() == 0,
            r.store_keys@.len() == 0,
            r.free_keys_store_idx == 0,
    {
        SyncSlotMap {
            free_keys_store_idx: 0,
            load_keys: Vec::new(),
            load_meta: FreeKeysMeta { store_iter: 0, load_iter: 0 },
            store_keys: Vec::new(),
            store_meta: FreeKeysMeta { store_iter: 0, load_iter: 0 },
            slots: Vec::new(),
        }
    }

    /// Claim a previously freed id, if any. When the load side is drained
    /// by its cursors and the store side has entries, the two buffers swap
    /// roles and their cursors reset; the scan then walks the (post-swap)
    /// load window and claims its first non-zero id by zeroing that entry
    /// and moving the claim cursor just past it. An id is returned exactly
    /// when the scan window holds one; slots are never touched.
    pub fn get_free_key(&mut self) -> (r: Option<SyncSlot>)
        requires
            old(self).wf(),
        ensures
            final(self).wf(),
            final(self).slots == old(self).slots,
            r is Some <==> old(self).has_free_key(),
            r matches Some(key) ==> 1 <= key.index <= final(self).slots@.len(),
            r matches Some(key) ==> exists|p: int| #[trigger] old(self).first_free_at(p)
                && key.index == old(self).scan_keys()[p]
                && final(self).load_keys@ == old(self).scan_keys().update(p, 0u32)
                && final(self).load_meta.load_iter == p + 1,
            old(self).load_drained() && old(self).store_meta.store_iter != 0 ==> {
                &&& final(self).store_keys@ == old(self).load_keys@
                &&& final(self).store_meta.store_iter == 0
                &&& final(self).load_meta.store_iter == old(self).store_meta.store_iter
                &&& (r is None ==> final(self).load_keys@ == old(self).store_keys@
                        && final(self).load_meta.load_iter == 0)
            },
            !old(self).load_drained() ==> {
                &&& final(self).store_keys@ == old(self).store_keys@
                &&& final(self).store_meta.store_iter == old(self).store_meta.store_iter
                &&& final(self).store_meta.load_iter == old(self).store_meta.load_iter
                &&& final(self).load_meta.store_iter == old(self).load_meta.store_iter
                &&& (r is None ==> final(self).load_keys@ == old(self).load_keys@
                        && final(self).load_meta.load_iter == old(self).load_meta.load_iter)
            },
            old(self).load_drained() && old(self).store_meta.store_iter == 0 ==>
                *final(self) == *old(self),
            final(self).load_keys@.len() + final(self).store_keys@.len()
                == old(self).load_keys@.len() + old(self).store_keys@.len(),
    {
        let drained: bool = self.load_meta.store_iter <= self.load_meta.load_iter;
        if drained {
            if self.store_meta.store_iter == 0 {
                return None;
            }
            core::mem::swap(&mut self.load_keys, &mut self.store_keys);
            let filled: usize = self.store_meta.store_iter;
            self.load_meta = FreeKeysMeta { store_iter: filled, load_iter: 0 };
            self.store_meta = FreeKeysMeta { store_iter: 0, load_iter: 0 };
            self.free_keys_store_idx = if self.free_keys_store_idx == 0xFFFF_FFFF {
                0
            } else {
                self.free_keys_store_idx + 1
            };
            proof {
                lemma_swapped_wf(*old(self), *self);
            }
        }
        proof {
            assert(self.load_keys@ == old(self).scan_keys());
            assert(self.load_meta.load_iter == old(self).scan_lo());
            assert(self.load_meta.store_iter == old(self).scan_hi());
        }
        let mut k: usize = self.load_meta.load_iter;
        let end: usize = if self.load_meta.store_iter < self.load_keys.len() {
            self.load_meta.store_iter
        } else {
            self.load_keys.len()
        };
        proof {
            assert(end == old(self).scan_hi());
        }
        while k < end
            invariant
                self.wf(),
                self.slots == old(self).slots,
                old(self).wf(),
                end == old(self).scan_hi(),
                end <= self.load_keys@.len(),
                old(self).scan_lo() <= k,
                self.load_keys@ == old(self).scan_keys(),
                self.load_meta.load_iter == old(self).scan_lo(),
                self.load_meta.store_iter == old(self).scan_hi(),
                forall|q: int| old(self).scan_lo() <= q < k ==>
                    old(self).scan_keys()[q] == 0,
                old(self).load_drained() ==> old(self).store_meta.store_iter != 0
                    && self.store_keys@ == old(self).load_keys@
                    && self.store_meta.store_iter == 0,
                !old(self).load_drained() ==> self.store_keys == old(self).store_keys
                    && self.store_meta == old(self).store_meta,
            decreases end - k,
        {
            let key: u32 = self.load_keys[k];
            if key != 0 {
                proof {
                    assert(self.entry_ok(self.load_keys@[k as int]));
                    assert(1 <= key <= self.slots@.len());
                    assert(old(self).first_free_at(k as int));
                }
                let ghost mid = *self;
                let key_ref: &mut u32 = &mut self.load_keys[k];
                *key_ref = 0;
                self.load_meta.load_iter = k + 1;
                proof {
                    assert(self.load_keys@ == old(self).scan_keys().update(k as int, 0u32));
                    lemma_zeroed_entry_wf(mid, *self, k as int);
                }
                return Some(SyncSlot { index: key });
            }
            k = k + 1;
        }
        proof {
            assert(!old(self).has_free_key());
        }
        None
    }

    /// Store a value. A freed id is reused exactly when one is available:
    /// the first claimable id of the scan window names the slot that is
    /// overwritten and re-enabled. With no free id, a new slot is appended
    /// and its 1-based index returned. Either way the returned id names an
    /// enabled slot holding `data`, and no other slot changes.
    pub fn push(&mut self, data: T) -> (key: SyncSlot)
        requires
            old(self).wf(),
            old(self).slots@.len() < 0xFFFF_FFFE,
        ensures
            final(self).wf(),
            key.wf(),
            1 <= key.index <= final(self).slots@.len(),
            key.index == old(self).slots@.len() + 1 <==> !old(self).has_free_key(),
            old(self).has_free_key() ==> exists|p: int| #[trigger] old(self).first_free_at(p)
                && key.index == old(self).scan_keys()[p],
            final(self).slots@ == (if key.index == old(self).slots@.len() + 1 {
                old(self).slots@.push((true, data))
            } else {
                old(self).slots@.update(key.index as int - 1, (true, data))
            }),
            final(self).load_keys@.len() + final(self).store_keys@.len()
                == old(self).load_keys@.len() + old(self).store_keys@.len(),
            old(self).fresh_free() ==> {
                &&& key.index == old(self).slots@.len() + 1
                &&& final(self).fresh_free()
                &&& final(self).slots@.len() == old(self).slots@.len() + 1
            },
    {
        proof {
            if old(self).fresh_free() {
                assert(!old(self).has_free_key());
            }
        }
        match self.get_free_key() {
            Some(key) => {
                let ghost mid = *self;
                proof {
                    if old(self).load_drained() && old(self).store_meta.store_iter == 0 {
                        assert(!old(self).has_free_key());
                        assert(false);
                    }
                }
                let i: usize = key.as_sync_vec_index();
                let slot_ref: &mut (bool, T) = &mut self.slots[i];
                *slot_ref = (true, data);
                proof {
                    assert(key.index as int <= old(self).slots@.len());
                    lemma_enable_claimed_wf(*old(self), mid, *self, key.index);
                }
                key
            },
            None => {
                let ghost mid = *self;
                self.slots.push((true, data));
                let index: u32 = self.slots.len() as u32;
                proof {
                    assert(self.slots@ == old(self).slots@.push((true, data)));
                    lemma_append_slot_wf(mid, *self);
                }
                SyncSlot { index }
            },
        }
    }

    /// Disable a slot and return its payload, recording the freed id in the
    /// store buffer exactly once: over the first claimed (zero) entry at or
    /// past the store cursor when one exists — bounding the buffer's growth
    /// — and by appending otherwise; the cursor then counts one more stored
    /// id. Disabling an already disabled slot does nothing and returns
    /// nothing.
    pub fn delete(&mut self, slot: SyncSlot) -> (r: Option<T>)
        where T: Copy
        requires
            old(self).wf(),
            slot.wf(),
            slot.index <= old(self).slots@.len(),
            old(self).store_keys@.len() < usize::MAX,
        ensures
            final(self).wf(),
            final(self).slots@.len() == old(self).slots@.len(),
            r == (if old(self).enabled(slot.index as int - 1) {
                Some(old(self).payload(slot.index as int - 1))
            } else {
                None::<T>
            }),
            final(self).slots@ == (if old(self).enabled(slot.index as int - 1) {
                old(self).slots@.update(slot.index as int - 1,
                    (false, old(self).slots@[slot.index as int - 1].1))
            } else {
                old(self).slots@
            }),
            !old(self).enabled(slot.index as int - 1) ==> *final(self) == *old(self),
            final(self).load_keys == old(self).load_keys,
            final(self).load_meta == old(self).load_meta,
            final(self).free_keys_store_idx == old(self).free_keys_store_idx,
            old(self).enabled(slot.index as int - 1) ==> {
                &&& final(self).store_meta.store_iter
                    == old(self).store_meta.store_iter + 1
                &&& final(self).store_meta.load_iter == old(self).store_meta.load_iter
                &&& {
                    ||| (exists|p: int|
                        old(self).store_meta.store_iter <= p < old(self).store_keys@.len()
                        && (#[trigger] old(self).store_keys@[p]) == 0
                        && (forall|q: int| old(self).store_meta.store_iter <= q < p ==>
                            old(self).store_keys@[q] != 0)
                        && final(self).store_keys@
                            == old(self).store_keys@.update(p, slot.index))
                    ||| ((forall|q: int| old(self).store_meta.store_iter <= q
                            < old(self).store_keys@.len() ==>
                            (#[trigger] old(self).store_keys@[q]) != 0)
                        && final(self).store_keys@
                            == old(self).store_keys@.push(slot.index))
                }
            },
    {
        let i: usize = slot.as_sync_vec_index();
        if self.slots[i].0 {
            let val: T = self.slots[i].1;
            let slot_ref: &mut (bool, T) = &mut self.slots[i];
            *slot_ref = (false, val);
            let ghost disabled = *self;
            proof {
                lemma_disable_slot_wf(*old(self), disabled, slot.index);
            }
            let mut found: bool = false;
            let ghost mut wrote_at: int = 0;
            let mut k: usize = self.store_meta.store_iter;
            while k < self.store_keys.len() && !found
                invariant
                    old(self).wf(),
                    disabled.wf(),
                    slot.wf(),
                    old(self).enabled(slot.index as int - 1),
                    1 <= slot.index <= old(self).slots@.len(),
                    self.slots == disabled.slots,
                    self.slots@.len() == old(self).slots@.len(),
                    disabled.slots@ == old(self).slots@.update(slot.index as int - 1,
                        (false, old(self).slots@[slot.index as int - 1].1)),
                    disabled.load_keys@ == old(self).load_keys@,
                    disabled.store_keys@ == old(self).store_keys@,
                    disabled.slots@.len() == old(self).slots@.len(),
                    self.store_meta == old(self).store_meta,
                    self.load_keys == old(self).load_keys,
                    self.load_meta == old(self).load_meta,
                    self.free_keys_store_idx == old(self).free_keys_store_idx,
                    self.wf(),
                    !found ==> old(self).store_meta.store_iter <= k,
                    !found ==> forall|q: int| old(self).store_meta.store_iter <= q < k ==>
                        (#[trigger] old(self).store_keys@[q]) != 0,
                    !found ==> self.store_keys@ == old(self).store_keys@,
                    found ==> old(self).store_meta.store_iter <= wrote_at
                        && wrote_at < old(self).store_keys@.len()
                        && old(self).store_keys@[wrote_at] == 0
                        && (forall|q: int| old(self).store_meta.store_iter <= q < wrote_at ==>
                            (#[trigger] old(self).store_keys@[q]) != 0)
                        && self.store_keys@
                            == old(self).store_keys@.update(wrote_at, slot.index),
                decreases self.store_keys@.len() + 1 - k - (if found { 1int } else { 0 }),
            {
                if self.store_keys[k] == 0 {
                    proof {
                        wrote_at = k as int;
                    }
                    let key_ref: &mut u32 = &mut self.store_keys[k];
                    *key_ref = slot.index;
                    found = true;
                    proof {
                        lemma_record_freed_wf(*old(self), disabled, *self,
                            slot.index, k as int);
                    }
                } else {
                    k = k + 1;
                }
            }
            if !found {
                self.store_keys.push(slot.index);
                proof {
                    assert(self.store_keys@ == old(self).store_keys@.push(slot.index));
                    lemma_append_freed_wf(*old(self), disabled, *self, slot.index);
                }
            }
            self.store_meta.store_iter = self.store_meta.store_iter + 1;
            proof {
                assert(self.store_meta.store_iter <= self.store_keys@.len());
            }
            Some(val)
        } else {
            None
        }
    }
}

/// Swapping the two buffers' roles and resetting their cursors keeps the
/// allocator well-formed: the contents are exchanged, not changed.
proof fn lemma_swapped_wf<T>(pre: SyncSlotMap<T>, post: SyncSlotMap<T>)
    requires
        pre.wf(),
        post.slots == pre.slots,
        post.load_keys@ == pre.store_keys@,
        post.store_keys@ == pre.load_keys@,
        post.load_meta.store_iter == pre.store_meta.store_iter,
        post.load_meta.load_iter == 0,
        post.store_meta.store_iter == 0,
    ensures
        post.wf(),
{
    assert forall|k: int| 0 <= k < post.load_keys@.len() implies
        post.entry_ok(#[trigger] post.load_keys@[k]) by {
        assert(pre.entry_ok(pre.store_keys@[k]));
    }
    assert forall|k: int| 0 <= k < post.store_keys@.len() implies
        post.entry_ok(#[trigger] post.store_keys@[k]) by {
        assert(pre.entry_ok(pre.load_keys@[k]));
    }
    assert forall|p: int, q: int| 0 <= p < q < post.load_keys@.len() implies
        ((#[trigger] post.load_keys@[p]) == 0
            || post.load_keys@[p] != (#[trigger] post.load_keys@[q])) by {
        assert(pre.store_keys@[p] == 0 || pre.store_keys@[p] != pre.store_keys@[q]);
    }
    assert forall|p: int, q: int| 0 <= p < q < post.store_keys@.len() implies
        ((#[trigger] post.store_keys@[p]) == 0
            || post.store_keys@[p] != (#[trigger] post.store_keys@[q])) by {
        assert(pre.load_keys@[p] == 0 || pre.load_keys@[p] != pre.load_keys@[q]);
    }
    assert forall|p: int, q: int| 0 <= p < post.load_keys@.len()
            && 0 <= q < post.store_keys@.len() implies
        ((#[trigger] post.load_keys@[p]) == 0
            || post.load_keys@[p] != (#[trigger] post.store_keys@[q])) by {
        assert(pre.load_keys@[q] == 0 || pre.load_keys@[q] != pre.store_keys@[p]);
        assert(pre.entry_ok(pre.load_keys@[q]));
        assert(pre.entry_ok(pre.store_keys@[p]));
    }
}

/// Zeroing one claimed entry (and advancing the claim cursor past it) keeps
/// the allocator well-formed.
proof fn lemma_zeroed_entry_wf<T>(pre: SyncSlotMap<T>, post: SyncSlotMap<T>, p: int)
    requires
        pre.wf(),
        0 <= p < pre.load_keys@.len(),
        p + 1 <= pre.load_meta.store_iter,
        post.slots == pre.slots,
        post.load_keys@ == pre.load_keys@.update(p, 0u32),
        post.store_keys == pre.store_keys,
        post.load_meta.store_iter == pre.load_meta.store_iter,
        post.store_meta == pre.store_meta,
    ensures
        post.wf(),
{
    assert forall|k: int| 0 <= k < post.load_keys@.len() implies
        post.entry_ok(#[trigger] post.load_keys@[k]) by {
        if k != p {
            assert(pre.entry_ok(pre.load_keys@[k]));
        }
    }
    assert forall|k: int| 0 <= k < post.store_keys@.len() implies
        post.entry_ok(#[trigger] post.store_keys@[k]) by {
        assert(pre.entry_ok(pre.store_keys@[k]));
    }
    assert forall|p2: int, q2: int| 0 <= p2 < q2 < post.load_keys@.len() implies
        ((#[trigger] post.load_keys@[p2]) == 0
            || post.load_keys@[p2] != (#[trigger] post.load_keys@[q2])) by {
        assert(pre.load_keys@[p2] == 0 || pre.load_keys@[p2] != pre.load_keys@[q2]);
    }
    assert forall|p2: int, q2: int| 0 <= p2 < q2 < post.store_keys@.len() implies
        ((#[trigger] post.store_keys@[p2]) == 0
            || post.store_keys@[p2] != (#[trigger] post.store_keys@[q2])) by {
        assert(pre.store_keys@[p2] == 0 || pre.store_keys@[p2] != pre.store_keys@[q2]);
    }
    assert forall|p2: int, q2: int| 0 <= p2 < post.load_keys@.len()
            && 0 <= q2 < post.store_keys@.len() implies
        ((#[trigger] post.load_keys@[p2]) == 0
            || post.load_keys@[p2] != (#[trigger] post.store_keys@[q2])) by {
        if p2 != p {
            assert(pre.load_keys@[p2] == 0 || pre.load_keys@[p2] != pre.store_keys@[q2]);
        }
    }
}

/// Re-enabling the slot of a just-claimed id keeps the allocator
/// well-formed: the claim removed the id's only buffer occurrence, so no
/// entry names the now-enabled slot.
proof fn lemma_enable_claimed_wf<T>(
    pre: SyncSlotMap<T>,
    mid: SyncSlotMap<T>,
    post: SyncSlotMap<T>,
    id: u32,
)
    requires
        pre.wf(),
        mid.wf(),
        1 <= id <= mid.slots@.len(),
        mid.slots == pre.slots,
        // the claim zeroed the id's occurrence in the scanned buffer
        exists|p: int| #[trigger] pre.first_free_at(p) && id == pre.scan_keys()[p]
            && mid.load_keys@ == pre.scan_keys().update(p, 0u32),
        mid.store_keys@ == (if pre.load_drained() { pre.load_keys@ } else { pre.store_keys@ }),
        post.load_keys == mid.load_keys,
        post.store_keys == mid.store_keys,
        post.load_meta == mid.load_meta,
        post.store_meta == mid.store_meta,
        post.slots@.len() == mid.slots@.len(),
        forall|i: int| 0 <= i < mid.slots@.len() && i != id - 1 ==>
            #[trigger] post.slots@[i] == mid.slots@[i],
    ensures
        post.wf(),
{
    let p = choose|p: int| #[trigger] pre.first_free_at(p) && id == pre.scan_keys()[p]
        && mid.load_keys@ == pre.scan_keys().update(p, 0u32);
    assert forall|k: int| 0 <= k < post.load_keys@.len() implies
        post.entry_ok(#[trigger] post.load_keys@[k]) by {
        assert(mid.entry_ok(mid.load_keys@[k]));
        if post.load_keys@[k] != 0 {
            // the claimed occurrence was the id's only one in this buffer
            if k != p {
                assert(mid.load_keys@[k] == pre.scan_keys()[k]);
                if pre.load_drained() {
                    if k < p {
                        assert(pre.store_keys@[k] == 0
                            || pre.store_keys@[k] != pre.store_keys@[p]);
                    } else {
                        assert(pre.store_keys@[p] == 0
                            || pre.store_keys@[p] != pre.store_keys@[k]);
                    }
                } else {
                    if k < p {
                        assert(pre.load_keys@[k] == 0
                            || pre.load_keys@[k] != pre.load_keys@[p]);
                    } else {
                        assert(pre.load_keys@[p] == 0
                            || pre.load_keys@[p] != pre.load_keys@[k]);
                    }
                }
                assert(post.load_keys@[k] != id);
            }
        }
    }
    assert forall|k: int| 0 <= k < post.store_keys@.len() implies
        post.entry_ok(#[trigger] post.store_keys@[k]) by {
        assert(mid.entry_ok(mid.store_keys@[k]));
        if post.store_keys@[k] != 0 {
            if pre.load_drained() {
                assert(pre.load_keys@[k] == 0 || pre.load_keys@[k] != pre.store_keys@[p]);
            } else {
                assert(pre.load_keys@[p] == 0 || pre.load_keys@[p] != pre.store_keys@[k]);
            }
            assert(post.store_keys@[k] != id);
        }
    }
    assert forall|p2: int, q2: int| 0 <= p2 < q2 < post.load_keys@.len() implies
        ((#[trigger] post.load_keys@[p2]) == 0
            || post.load_keys@[p2] != (#[trigger] post.load_keys@[q2])) by {
        assert(mid.load_keys@[p2] == 0 || mid.load_keys@[p2] != mid.load_keys@[q2]);
    }
    assert forall|p2: int, q2: int| 0 <= p2 < q2 < post.store_keys@.len() implies
        ((#[trigger] post.store_keys@[p2]) == 0
            || post.store_keys@[p2] != (#[trigger] post.store_keys@[q2])) by {
        assert(mid.store_keys@[p2] == 0 || mid.store_keys@[p2] != mid.store_keys@[q2]);
    }
    assert forall|p2: int, q2: int| 0 <= p2 < post.load_keys@.len()
            && 0 <= q2 < post.store_keys@.len() implies
        ((#[trigger] post.load_keys@[p2]) == 0
            || post.load_keys@[p2] != (#[trigger] post.store_keys@[q2])) by {
        assert(mid.load_keys@[p2] == 0 || mid.load_keys@[p2] != mid.store_keys@[q2]);
    }
}

/// Appending a brand-new slot keeps the allocator well-formed: every
/// recorded id names an older slot.
proof fn lemma_append_slot_wf<T>(pre: SyncSlotMap<T>, post: SyncSlotMap<T>)
    requires
        pre.wf(),
        post.load_keys == pre.load_keys,
        post.store_keys == pre.store_keys,
        post.load_meta == pre.load_meta,
        post.store_meta == pre.store_meta,
        post.slots@.len() == pre.slots@.len() + 1,
        forall|i: int| 0 <= i < pre.slots@.len() ==>
            #[trigger] post.slots@[i] == pre.slots@[i],
    ensures
        post.wf(),
{
    assert forall|k: int| 0 <= k < post.load_keys@.len() implies
        post.entry_ok(#[trigger] post.load_keys@[k]) by {
        assert(pre.entry_ok(pre.load_keys@[k]));
    }
    assert forall|k: int| 0 <= k < post.store_keys@.len() implies
        post.entry_ok(#[trigger] post.store_keys@[k]) by {
        assert(pre.entry_ok(pre.store_keys@[k]));
    }
}

/// Disabling a slot keeps the allocator well-formed: entries only ever
/// point at disabled slots, and one more slot is disabled now.
proof fn lemma_disable_slot_wf<T>(pre: SyncSlotMap<T>, post: SyncSlotMap<T>, id: u32)
    requires
        pre.wf(),
        1 <= id <= pre.slots@.len(),
        post.load_keys == pre.load_keys,
        post.store_keys == pre.store_keys,
        post.load_meta == pre.load_meta,
        post.store_meta == pre.store_meta,
        post.slots@.len() == pre.slots@.len(),
        !post.enabled(id as int - 1),
        forall|i: int| 0 <= i < pre.slots@.len() && i != id - 1 ==>
            #[trigger] post.slots@[i] == pre.slots@[i],
    ensures
        post.wf(),
{
    assert forall|k: int| 0 <= k < post.load_keys@.len() implies
        post.entry_ok(#[trigger] post.load_keys@[k]) by {
        assert(pre.entry_ok(pre.load_keys@[k]));
    }
    assert forall|k: int| 0 <= k < post.store_keys@.len() implies
        post.entry_ok(#[trigger] post.store_keys@[k]) by {
        assert(pre.entry_ok(pre.store_keys@[k]));
    }
}

/// Recording a freed id over a claimed store entry keeps the allocator
/// well-formed: the id's slot was enabled a moment ago, so no other entry
/// can already name it.
proof fn lemma_record_freed_wf<T>(
    pre: SyncSlotMap<T>,
    disabled: SyncSlotMap<T>,
    post: SyncSlotMap<T>,
    id: u32,
    p: int,
)
    requires
        pre.wf(),
        disabled.wf(),
        pre.enabled(id as int - 1),
        1 <= id <= pre.slots@.len(),
        disabled.load_keys@ == pre.load_keys@,
        disabled.store_keys@ == pre.store_keys@,
        disabled.slots@.len() == pre.slots@.len(),
        !disabled.enabled(id as int - 1),
        0 <= p < pre.store_keys@.len(),
        pre.store_keys@[p] == 0,
        post.slots@ == disabled.slots@,
        post.load_keys@ == pre.load_keys@,
        post.store_keys@ == pre.store_keys@.update(p, id),
        post.load_meta == pre.load_meta,
        post.store_meta == pre.store_meta,
    ensures
        post.wf(),
{
    assert forall|k: int| 0 <= k < post.load_keys@.len() implies
        post.entry_ok(#[trigger] post.load_keys@[k]) by {
        assert(disabled.entry_ok(disabled.load_keys@[k]));
    }
    assert forall|k: int| 0 <= k < post.store_keys@.len() implies
        post.entry_ok(#[trigger] post.store_keys@[k]) by {
        if k == p {
            assert(post.store_keys@[k] == id);
            assert(!disabled.enabled(id as int - 1));
        } else {
            assert(disabled.entry_ok(disabled.store_keys@[k]));
        }
    }
    assert forall|p2: int, q2: int| 0 <= p2 < q2 < post.store_keys@.len() implies
        ((#[trigger] post.store_keys@[p2]) == 0
            || post.store_keys@[p2] != (#[trigger] post.store_keys@[q2])) by {
        if p2 != p && q2 != p {
            assert(pre.store_keys@[p2] == 0 || pre.store_keys@[p2] != pre.store_keys@[q2]);
        } else {
            // the other entry cannot be the freed id: its slot was enabled
            if p2 == p && pre.store_keys@[q2] != 0 {
                assert(pre.entry_ok(pre.store_keys@[q2]));
            }
            if q2 == p && pre.store_keys@[p2] != 0 {
                assert(pre.entry_ok(pre.store_keys@[p2]));
            }
        }
    }
    assert forall|p2: int, q2: int| 0 <= p2 < q2 < post.load_keys@.len() implies
        ((#[trigger] post.load_keys@[p2]) == 0
            || post.load_keys@[p2] != (#[trigger] post.load_keys@[q2])) by {
        assert(pre.load_keys@[p2] == 0 || pre.load_keys@[p2] != pre.load_keys@[q2]);
    }
    assert forall|p2: int, q2: int| 0 <= p2 < post.load_keys@.len()
            && 0 <= q2 < post.store_keys@.len() implies
        ((#[trigger] post.load_keys@[p2]) == 0
            || post.load_keys@[p2] != (#[trigger] post.store_keys@[q2])) by {
        if q2 == p {
            if pre.load_keys@[p2] != 0 {
                assert(pre.entry_ok(pre.load_keys@[p2]));
            }
        } else {
            assert(pre.load_keys@[p2] == 0 || pre.load_keys@[p2] != pre.store_keys@[q2]);
        }
    }
}

/// Appending a freed id to the store buffer keeps the allocator
/// well-formed, for the same reason as recording it over a claimed entry.
proof fn lemma_append_freed_wf<T>(
    pre: SyncSlotMap<T>,
    disabled: SyncSlotMap<T>,
    post: SyncSlotMap<T>,
    id: u32,
)
    requires
        pre.wf(),
        disabled.wf(),
        pre.enabled(id as int - 1),
        1 <= id <= pre.slots@.len(),
        disabled.load_keys@ == pre.load_keys@,
        disabled.store_keys@ == pre.store_keys@,
        disabled.slots@.len() == pre.slots@.len(),
        !disabled.enabled(id as int - 1),
        post.slots@ == disabled.slots@,
        post.load_keys@ == pre.load_keys@,
        post.store_keys@ == pre.store_keys@.push(id),
        post.load_meta == pre.load_meta,
        post.store_meta == pre.store_meta,
    ensures
        post.wf(),
{
    let n = pre.store_keys@.len() as int;
    assert forall|k: int| 0 <= k < post.load_keys@.len() implies
        post.entry_ok(#[trigger] post.load_keys@[k]) by {
        assert(disabled.entry_ok(disabled.load_keys@[k]));
    }
    assert forall|k: int| 0 <= k < post.store_keys@.len() implies
        post.entry_ok(#[trigger] post.store_keys@[k]) by {
        if k == n {
            assert(post.store_keys@[k] == id);
        } else {
            assert(disabled.entry_ok(disabled.store_keys@[k]));
        }
    }
    assert forall|p2: int, q2: int| 0 <= p2 < q2 < post.store_keys@.len() implies
        ((#[trigger] post.store_keys@[p2]) == 0
            || post.store_keys@[p2] != (#[trigger] post.store_keys@[q2])) by {
        if q2 == n {
            if pre.store_keys@[p2] != 0 {
                assert(pre.entry_ok(pre.store_keys@[p2]));
            }
        } else {
            assert(pre.store_keys@[p2] == 0 || pre.store_keys@[p2] != pre.store_keys@[q2]);
        }
    }
    assert forall|p2: int, q2: int| 0 <= p2 < q2 < post.load_keys@.len() implies
        ((#[trigger] post.load_keys@[p2]) == 0
            || post.load_keys@[p2] != (#[trigger] post.load_keys@[q2])) by {
        assert(pre.load_keys@[p2] == 0 || pre.load_keys@[p2] != pre.load_keys@[q2]);
    }
    assert forall|p2: int, q2: int| 0 <= p2 < post.load_keys@.len()
            && 0 <= q2 < post.store_keys@.len() implies
        ((#[trigger] post.load_keys@[p2]) == 0
            || post.load_keys@[p2] != (#[trigger] post.store_keys@[q2])) by {
        if q2 == n {
            if pre.load_keys@[p2] != 0 {
                assert(pre.entry_ok(pre.load_keys@[p2]));
            }
        } else {
            assert(pre.load_keys@[p2] == 0 || pre.load_keys@[p2] != pre.store_keys@[q2]);
        }
    }
}

/// Pushing `n` values into an allocator that has no free ids yields exactly
/// the ids `1..=n`, in order: a permutation with no duplicates and no gaps.
pub fn push_all<T: Copy>(map: &mut SyncSlotMap<T>, values: &Vec<T>) -> (keys: Vec<u32>)
    requires
        old(map).wf(),
        old(map).fresh_free(),
        old(map).slots@.len() == 0,
        values@.len() < 0xFFFF_FFFE,
    ensures
        final(map).wf(),
        keys@.len() == values@.len(),
        forall|k: int| 0 <= k < keys@.len() ==> #[trigger] keys@[k] == k + 1,
        final(map).slots@.len() == values@.len(),
        forall|k: int| 0 <= k < values@.len() ==>
            #[trigger] final(map).slots@[k] == (true, values@[k]),
{
    let mut keys: Vec<u32> = Vec::new();
    let mut i: usize = 0;
    while i < values.len()
        invariant
            map.wf(),
            map.fresh_free(),
            i <= values@.len(),
            values@.len() < 0xFFFF_FFFE,
            map.slots@.len() == i,
            keys@.len() == i,
            forall|k: int| 0 <= k < i ==> #[trigger] keys@[k] == k + 1,
            forall|k: int| 0 <= k < i ==> #[trigger] map.slots@[k] == (true, values@[k]),
        decreases values@.len() - i,
    {
        let key: SyncSlot = map.push(values[i]);
        keys.push(key.as_u32());
        i = i + 1;
    }
    keys
}

} // verus!
