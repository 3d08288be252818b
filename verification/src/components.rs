//! Typed component store: one chunk directory per payload type, a live-entry
//! counter, and a "changed this frame" flag consumed by the end-of-frame
//! dispose pass. Also the resource-fetch decision protocol that units of
//! work follow when resolving their declared dependencies.

use vstd::prelude::*;
use crate::chunked_store::SyncSparseChunkedStore;
use crate::sparse_array::MAX_ITEMS_PER_ARRAY;
use crate::sparse_array::RANGE_EMPTY_MIN;
use crate::sparse_array::narrowed_min;
use crate::sparse_array::narrowed_max;
use crate::system::Stage;

verus! {

/// Marker for payload types that may live in a typed component store.
pub trait ComponnetsResource: Sized {
}

/// The per-type component store.
pub struct Components<T> {
    pub is_updated: bool,
    pub store: SyncSparseChunkedStore<T>,
    pub len: usize,
}

/// The part of the dispose contract that the idempotence law rests on:
/// the pass reports whether the store was marked changed, always leaves it
/// unmarked, and is a no-op on an unmarked store.
pub open spec fn dispose_step<T>(pre: Components<T>, post: Components<T>, r: bool) -> bool {
    &&& r == pre.is_updated
    &&& !post.is_updated
    &&& !pre.is_updated ==> post == pre
}

impl<T> Components<T> {
    pub open spec fn wf(self) -> bool {
        self.store.wf()
    }

    /// The live-entry counter agrees with the number of live entries. Holds
    /// from construction and is preserved by `set` and the dispose pass;
    /// `store_set` bypasses the counter and may break it.
    pub open spec fn len_exact(self) -> bool {
        self.len == self.store.live_count()
    }

    /// Slot `id` of archetype `arch` holds a live value.
    pub open spec fn is_live(self, arch: int, id: int) -> bool {
        self.store.is_live(arch, id)
    }

    pub open spec fn value_at(self, arch: int, id: int) -> T {
        self.store.value_at(arch, id)
    }

    /// An empty store: nothing live, nothing changed.
    pub fn new() -> (r: Components<T>)
        ensures
            r.wf(),
            !r.is_updated,
            r.len == 0,
            r.store.chunks@.len() == 0,
            forall|arch: int, id: int| !r.is_live(arch, id),
            r.len_exact(),
    {
        Components {
            is_updated: false,
            store: SyncSparseChunkedStore::new(),
            len: 0,
        }
    }

    /// Number of live entries, counted once per newly-occupied slot.
    pub fn len(&self) -> (r: usize)
        ensures
            r == self.len,
    {
        self.len
    }

    /// Write into the chunk directory without touching the live counter:
    /// locate or create the archetype's array and set the slot there,
    /// returning the previous value when the slot was already live.
    pub fn store_set(&mut self, chunk_id: usize, entry_id: usize, data: T) -> (r: Option<T>)
        requires
            old(self).wf(),
            entry_id < MAX_ITEMS_PER_ARRAY,
        ensures
            final(self).wf(),
            r == (if old(self).is_live(chunk_id as int, entry_id as int) {
                Some(old(self).value_at(chunk_id as int, entry_id as int))
            } else {
                None::<T>
            }),
            forall|a: int, j: int| 0 <= j < 8192 ==>
                (#[trigger] final(self).is_live(a, j) <==>
                    (old(self).is_live(a, j) || (a == chunk_id && j == entry_id))),
            final(self).is_live(chunk_id as int, entry_id as int),
            final(self).value_at(chunk_id as int, entry_id as int) == data,
            forall|a: int, j: int| 0 <= j < 8192 && #[trigger] old(self).is_live(a, j)
                && !(a == chunk_id && j == entry_id) ==>
                final(self).value_at(a, j) == old(self).value_at(a, j),
            final(self).store.chunks@.len() == (if old(self).store.has_arch(chunk_id as int) {
                old(self).store.chunks@.len() as int
            } else {
                old(self).store.chunks@.len() as int + 1
            }),
            final(self).is_updated == old(self).is_updated,
            final(self).len == old(self).len,
            final(self).store.live_count() == old(self).store.live_count()
                + (if old(self).is_live(chunk_id as int, entry_id as int) { 0int } else { 1 }),
            final(self).store.has_arch(chunk_id as int),
            forall|a: int| a != chunk_id ==>
                (#[trigger] final(self).store.has_arch(a) <==> old(self).store.has_arch(a)),
            forall|a: int| a != chunk_id && #[trigger] old(self).store.has_arch(a) ==>
                final(self).store.arch_array(a) == old(self).store.arch_array(a),
            arch_bounds_after_set(*old(self), *final(self), chunk_id as int, entry_id as int),
    {
        let ghost pre = *self;
        let i: usize = self.store.get_or_insert(chunk_id);
        let ghost mid = *self;
        let pair = &mut self.store.chunks[i];
        let r = pair.1.arr.set_in_place(entry_id, data);
        proof {
            let archi = chunk_id as int;
            let idi = entry_id as int;
            let ii = i as int;
            assert(self.store.chunks@.len() == mid.store.chunks@.len());
            assert forall|k: int| 0 <= k < self.store.chunks@.len() implies
                #[trigger] self.store.chunks@[k].0 == mid.store.chunks@[k].0 by {}
            assert forall|a: int, b: int| 0 <= a < b < self.store.chunks@.len() implies
                #[trigger] self.store.chunks@[a].0 < #[trigger] self.store.chunks@[b].0 by {
                assert(mid.store.chunks@[a].0 < mid.store.chunks@[b].0);
            }
            assert(self.store.wf());
            if !pre.store.has_arch(archi) {
                crate::chunked_store::lemma_fresh_chunk_preserves(pre.store, mid.store, ii);
            }
            crate::chunked_store::lemma_replace_chunk(mid.store, self.store, ii);
            assert forall|a: int, j: int| 0 <= j < 8192 implies
                (#[trigger] self.is_live(a, j) <==>
                    (pre.is_live(a, j) || (a == archi && j == idi))) by {
                if a == archi {
                    assert(self.is_live(a, j) <==> self.store.chunks@[ii].1.arr.is_live(j));
                    assert(mid.is_live(a, j) <==> mid.store.chunks@[ii].1.arr.is_live(j));
                }
            }
            assert forall|a: int, j: int| 0 <= j < 8192 && #[trigger] pre.is_live(a, j)
                && !(a == archi && j == idi) implies
                self.value_at(a, j) == pre.value_at(a, j) by {
                assert(mid.is_live(a, j));
                assert(mid.value_at(a, j) == pre.value_at(a, j));
                if a == archi {
                    assert(mid.store.chunks@[ii].1.arr.is_live(j));
                    assert(self.store.chunks@[ii].1.arr.is_live(j));
                    assert(self.store.chunks@[ii].1.arr.value_at(j)
                        == mid.store.chunks@[ii].1.arr.value_at(j));
                    assert(mid.value_at(a, j) == mid.store.chunks@[ii].1.arr.value_at(j));
                    assert(self.value_at(a, j) == self.store.chunks@[ii].1.arr.value_at(j));
                } else {
                    assert(self.value_at(a, j) == mid.value_at(a, j));
                }
            }
            assert(self.is_live(archi, idi) && self.value_at(archi, idi) == data) by {
                assert(self.store.chunks@[ii].1.arr.is_live(idi));
            }
            assert(r == (if pre.is_live(archi, idi) {
                Some(pre.value_at(archi, idi))
            } else {
                None::<T>
            })) by {
                if mid.store.chunks@[ii].1.arr.is_live(idi) {
                    assert(mid.is_live(archi, idi));
                    assert(pre.is_live(archi, idi));
                    assert(mid.value_at(archi, idi) == pre.value_at(archi, idi));
                } else {
                    assert(!mid.is_live(archi, idi));
                    assert(!pre.is_live(archi, idi));
                }
            }
            crate::chunked_store::lemma_count_chunks_update(mid.store.chunks@, ii,
                self.store.chunks@[ii]);
            assert(self.store.chunks@ =~= mid.store.chunks@.update(ii,
                self.store.chunks@[ii]));
            assert(self.store.chunks@[ii].1.arr.live_count()
                == mid.store.chunks@[ii].1.arr.live_count()
                    + (if mid.store.chunks@[ii].1.arr.is_live(idi) { 0int } else { 1 }));
            crate::chunked_store::lemma_arch_index_of(self.store, archi, ii);
            crate::chunked_store::lemma_arch_index_of(mid.store, archi, ii);
            assert forall|a: int| a != archi implies
                (#[trigger] self.store.has_arch(a) <==> pre.store.has_arch(a)) by {
                if pre.store.has_arch(a) {
                    let ka = choose|ka: int| 0 <= ka < pre.store.chunks@.len()
                        && (#[trigger] pre.store.chunks@[ka].0) == a;
                    let ka2 = if pre.store.has_arch(archi) || ka < ii { ka } else { ka + 1 };
                    assert(mid.store.chunks@[ka2] == pre.store.chunks@[ka]);
                    assert(self.store.chunks@[ka2].0 == a);
                }
                if self.store.has_arch(a) {
                    let ka = choose|ka: int| 0 <= ka < self.store.chunks@.len()
                        && (#[trigger] self.store.chunks@[ka].0) == a;
                    assert(mid.store.chunks@[ka].0 == a);
                    if pre.store.has_arch(archi) {
                        assert(pre.store.chunks@[ka].0 == a);
                    } else {
                        let ka0 = if ka < ii { ka } else { ka - 1 };
                        assert(pre.store.chunks@[ka0] == mid.store.chunks@[ka]);
                        assert(pre.store.chunks@[ka0].0 == a);
                    }
                }
            }
            assert forall|a: int| a != archi && #[trigger] pre.store.has_arch(a) implies
                self.store.arch_array(a) == pre.store.arch_array(a) by {
                let ka = choose|ka: int| 0 <= ka < pre.store.chunks@.len()
                    && (#[trigger] pre.store.chunks@[ka].0) == a;
                crate::chunked_store::lemma_arch_index_of(pre.store, a, ka);
                let ka2 = if pre.store.has_arch(archi) || ka < ii { ka } else { ka + 1 };
                assert(mid.store.chunks@[ka2] == pre.store.chunks@[ka]);
                assert(ka2 != ii);
                assert(self.store.chunks@[ka2] == mid.store.chunks@[ka2]);
                crate::chunked_store::lemma_arch_index_of(self.store, a, ka2);
            }
            assert(arch_bounds_after_set(pre, *self, archi, idi)) by {
                assert(self.store.arch_array(archi) == self.store.chunks@[ii].1.arr);
                if pre.store.has_arch(archi) {
                    crate::chunked_store::lemma_arch_index_of(pre.store, archi, ii);
                    assert(pre.store.arch_array(archi) == mid.store.chunks@[ii].1.arr);
                }
            }
        }
        r
    }

    /// Write a component and keep the live counter exact: it grows by one
    /// exactly when the slot was newly occupied. Marks the store changed.
    pub fn set(&mut self, arch_id: usize, entity_id: usize, data: T) -> (r: Option<T>)
        requires
            old(self).wf(),
            entity_id < MAX_ITEMS_PER_ARRAY,
            old(self).len < usize::MAX,
        ensures
            final(self).wf(),
            r == (if old(self).is_live(arch_id as int, entity_id as int) {
                Some(old(self).value_at(arch_id as int, entity_id as int))
            } else {
                None::<T>
            }),
            forall|a: int, j: int| 0 <= j < 8192 ==>
                (#[trigger] final(self).is_live(a, j) <==>
                    (old(self).is_live(a, j) || (a == arch_id && j == entity_id))),
            final(self).value_at(arch_id as int, entity_id as int) == data,
            forall|a: int, j: int| 0 <= j < 8192 && #[trigger] old(self).is_live(a, j)
                && !(a == arch_id && j == entity_id) ==>
                final(self).value_at(a, j) == old(self).value_at(a, j),
            final(self).store.chunks@.len() == (if old(self).store.has_arch(arch_id as int) {
                old(self).store.chunks@.len() as int
            } else {
                old(self).store.chunks@.len() as int + 1
            }),
            final(self).len == (if old(self).is_live(arch_id as int, entity_id as int) {
                old(self).len as int
            } else {
                old(self).len + 1
            }),
            final(self).is_updated,
            old(self).len_exact() ==> final(self).len_exact(),
            final(self).store.live_count() == old(self).store.live_count()
                + (if old(self).is_live(arch_id as int, entity_id as int) { 0int } else { 1 }),
            final(self).store.has_arch(arch_id as int),
            forall|a: int| a != arch_id ==>
                (#[trigger] final(self).store.has_arch(a) <==> old(self).store.has_arch(a)),
            forall|a: int| a != arch_id && #[trigger] old(self).store.has_arch(a) ==>
                final(self).store.arch_array(a) == old(self).store.arch_array(a),
            arch_bounds_after_set(*old(self), *final(self), arch_id as int, entity_id as int),
    {
        let ghost pre = *self;
        let r = self.store_set(arch_id, entity_id, data);
        let ghost mid = *self;
        if r.is_none() {
            self.len = self.len + 1;
        }
        let _ = self.touch();
        proof {
            let archi = arch_id as int;
            let idi = entity_id as int;
            assert(self.store == mid.store);
            assert forall|a: int, j: int| 0 <= j < 8192 implies
                (#[trigger] self.is_live(a, j) <==>
                    (pre.is_live(a, j) || (a == archi && j == idi))) by {
                assert(self.is_live(a, j) == mid.is_live(a, j));
                assert(mid.is_live(a, j) <==> (pre.is_live(a, j) || (a == archi && j == idi)));
            }
            assert forall|a: int, j: int| 0 <= j < 8192 && #[trigger] pre.is_live(a, j)
                && !(a == archi && j == idi) implies
                self.value_at(a, j) == pre.value_at(a, j) by {
                assert(mid.value_at(a, j) == pre.value_at(a, j));
                assert(self.value_at(a, j) == mid.value_at(a, j));
            }
            assert(self.value_at(archi, idi) == mid.value_at(archi, idi));
            assert forall|a: int| a != archi implies
                (#[trigger] self.store.has_arch(a) <==> pre.store.has_arch(a)) by {
                assert(self.store.has_arch(a) == mid.store.has_arch(a));
                assert(mid.store.has_arch(a) <==> pre.store.has_arch(a));
            }
            assert forall|a: int| a != archi && #[trigger] pre.store.has_arch(a) implies
                self.store.arch_array(a) == pre.store.arch_array(a) by {
                assert(self.store.arch_array(a) == mid.store.arch_array(a));
                assert(mid.store.arch_array(a) == pre.store.arch_array(a));
            }
            assert(arch_bounds_after_set(pre, *self, archi, idi)) by {
                assert(arch_bounds_after_set(pre, mid, archi, idi));
                assert(self.store.arch_array(archi) == mid.store.arch_array(archi));
                assert(self.store.has_arch(archi) == mid.store.has_arch(archi));
            }
        }
        r
    }

    /// Whether slot `entity_id` of archetype `arch_id` holds a live value.
    pub fn has(&self, arch_id: usize, entity_id: usize) -> (r: bool)
        requires
            self.wf(),
            entity_id < MAX_ITEMS_PER_ARRAY,
        ensures
            r == self.is_live(arch_id as int, entity_id as int),
    {
        let (found, pos) = self.store.search(arch_id);
        if found {
            let arr = self.store.array_at(pos);
            let r = arr.has(entity_id);
            proof {
                if r {
                    assert(self.store.chunks@[pos as int].0 == arch_id);
                    assert(self.store.chunks@[pos as int].1.arr.is_live(entity_id as int));
                    assert(self.is_live(arch_id as int, entity_id as int));
                } else {
                    if self.is_live(arch_id as int, entity_id as int) {
                        let w = choose|w: int| 0 <= w < self.store.chunks@.len()
                            && #[trigger] self.store.chunks@[w].0 == arch_id
                            && self.store.chunks@[w].1.arr.is_live(entity_id as int);
                        crate::chunked_store::lemma_arch_index_unique(
                            self.store, w, pos as int);
                    }
                }
            }
            r
        } else {
            proof {
                if self.is_live(arch_id as int, entity_id as int) {
                    let w = choose|w: int| 0 <= w < self.store.chunks@.len()
                        && #[trigger] self.store.chunks@[w].0 == arch_id
                        && self.store.chunks@[w].1.arr.is_live(entity_id as int);
                    assert(self.store.has_arch(arch_id as int));
                }
            }
            false
        }
    }

    /// The value at `(arch_id, entity_id)`, if live.
    pub fn get_copy(&self, arch_id: usize, entity_id: usize) -> (r: Option<T>)
        where T: Copy
        requires
            self.wf(),
            entity_id < MAX_ITEMS_PER_ARRAY,
        ensures
            r == (if self.is_live(arch_id as int, entity_id as int) {
                Some(self.value_at(arch_id as int, entity_id as int))
            } else {
                None::<T>
            }),
    {
        let (found, pos) = self.store.search(arch_id);
        if found {
            let arr = self.store.array_at(pos);
            let b: usize = crate::sparse_array::get_bucket_index(entity_id);
            if b < arr.bucket_count() {
                let r = arr.bucket(entity_id).get_copy(entity_id);
                proof {
                    if self.store.chunks@[pos as int].1.arr.is_live(entity_id as int) {
                        crate::chunked_store::lemma_value_at_index(
                            self.store, arch_id as int, entity_id as int, pos as int);
                    } else {
                        if self.is_live(arch_id as int, entity_id as int) {
                            let w = choose|w: int| 0 <= w < self.store.chunks@.len()
                                && #[trigger] self.store.chunks@[w].0 == arch_id
                                && self.store.chunks@[w].1.arr.is_live(entity_id as int);
                            crate::chunked_store::lemma_arch_index_unique(
                                self.store, w, pos as int);
                        }
                    }
                }
                r
            } else {
                proof {
                    if self.is_live(arch_id as int, entity_id as int) {
                        let w = choose|w: int| 0 <= w < self.store.chunks@.len()
                            && #[trigger] self.store.chunks@[w].0 == arch_id
                            && self.store.chunks@[w].1.arr.is_live(entity_id as int);
                        crate::chunked_store::lemma_arch_index_unique(
                            self.store, w, pos as int);
                    }
                }
                None
            }
        } else {
            proof {
                if self.is_live(arch_id as int, entity_id as int) {
                    let w = choose|w: int| 0 <= w < self.store.chunks@.len()
                        && #[trigger] self.store.chunks@[w].0 == arch_id
                        && self.store.chunks@[w].1.arr.is_live(entity_id as int);
                    assert(self.store.has_arch(arch_id as int));
                }
            }
            None
        }
    }

    /// Mark the type "changed this frame"; reports whether this call made
    /// the transition, so the caller can register the store with the
    /// process-wide changed list exactly once per frame.
    pub fn touch(&mut self) -> (first: bool)
        ensures
            final(self).is_updated,
            first == !old(self).is_updated,
            final(self).store == old(self).store,
            final(self).len == old(self).len,
    {
        let first: bool = !self.is_updated;
        self.is_updated = true;
        first
    }

    /// The end-of-frame pass: a no-op on an unchanged store; otherwise, for
    /// every archetype array marked changed, tighten its existence range at
    /// provably empty edge buckets, zero its mutation masks, reset its
    /// mutation range to the empty sentinel and clear its changed flag;
    /// finally clear the store's own changed flag. Returns whether the
    /// store had been marked changed. Payloads and occupancy are untouched.
    pub fn dispose_frame(&mut self) -> (r: bool)
        requires
            old(self).wf(),
        ensures
            final(self).wf(),
            dispose_step(*old(self), *final(self), r),
            final(self).len == old(self).len,
            final(self).store.chunks@.len() == old(self).store.chunks@.len(),
            forall|k: int| 0 <= k < old(self).store.chunks@.len() ==>
                #[trigger] final(self).store.chunks@[k].0 == old(self).store.chunks@[k].0,
            forall|k: int| 0 <= k < old(self).store.chunks@.len() ==> {
                let pre_arr = old(self).store.chunks@[k].1.arr;
                let post_arr = #[trigger] final(self).store.chunks@[k].1.arr;
                if old(self).is_updated && pre_arr.is_updated {
                    &&& post_arr.buckets@.len() == pre_arr.buckets@.len()
                    &&& (forall|b: int| 0 <= b < pre_arr.buckets@.len() ==> {
                        let post_b = #[trigger] post_arr.buckets@[b];
                        let pre_b = pre_arr.buckets@[b];
                        post_b.idx == pre_b.idx && post_b.bits == pre_b.bits
                            && post_b.slots == pre_b.slots && post_b.updated_bits == 0
                    })
                    &&& post_arr.min_existed_id == narrowed_min(pre_arr)
                    &&& post_arr.max_existed_id == narrowed_max(pre_arr)
                    &&& post_arr.min_updated_id == RANGE_EMPTY_MIN
                    &&& post_arr.max_updated_id == 0
                    &&& !post_arr.is_updated
                } else {
                    post_arr == pre_arr
                }
            },
            forall|a: int, j: int| 0 <= j < 8192 ==>
                (#[trigger] final(self).is_live(a, j) <==> old(self).is_live(a, j)),
            final(self).store.live_count() == old(self).store.live_count(),
            old(self).len_exact() ==> final(self).len_exact(),
    {
        let ghost pre = *self;
        if !self.is_updated {
            return false;
        }
        let n: usize = self.store.chunks.len();
        let mut k: usize = 0;
        while k < n
            invariant
                pre.wf(),
                pre.is_updated,
                self.is_updated == pre.is_updated,
                self.len == pre.len,
                k <= n,
                n == self.store.chunks@.len(),
                n == pre.store.chunks@.len(),
                forall|i: int| 0 <= i < n ==>
                    #[trigger] self.store.chunks@[i].0 == pre.store.chunks@[i].0,
                forall|i: int| k <= i < n ==>
                    #[trigger] self.store.chunks@[i].1.arr == pre.store.chunks@[i].1.arr,
                forall|i: int| 0 <= i < n ==>
                    (#[trigger] self.store.chunks@[i]).1.arr.live_count()
                        == pre.store.chunks@[i].1.arr.live_count(),
                forall|i: int| 0 <= i < k ==> {
                    let pre_arr = pre.store.chunks@[i].1.arr;
                    let post_arr = #[trigger] self.store.chunks@[i].1.arr;
                    if pre_arr.is_updated {
                        &&& post_arr.wf()
                        &&& post_arr.buckets@.len() == pre_arr.buckets@.len()
                        &&& (forall|b: int| 0 <= b < pre_arr.buckets@.len() ==> {
                            let post_b = #[trigger] post_arr.buckets@[b];
                            let pre_b = pre_arr.buckets@[b];
                            post_b.idx == pre_b.idx && post_b.bits == pre_b.bits
                                && post_b.slots == pre_b.slots && post_b.updated_bits == 0
                        })
                        &&& post_arr.min_existed_id == narrowed_min(pre_arr)
                        &&& post_arr.max_existed_id == narrowed_max(pre_arr)
                        &&& post_arr.min_updated_id == RANGE_EMPTY_MIN
                        &&& post_arr.max_updated_id == 0
                        &&& !post_arr.is_updated
                    } else {
                        post_arr == pre_arr
                    }
                },
            decreases n - k,
        {
            if self.store.chunks[k].1.arr.is_updated {
                let pair = &mut self.store.chunks[k];
                pair.1.arr.dispose_pass();
            }
            k = k + 1;
        }
        self.is_updated = false;
        proof {
            assert forall|a: int, j: int| 0 <= j < 8192 implies
                (#[trigger] self.is_live(a, j) <==> pre.is_live(a, j)) by {
                lemma_dispose_liveness(pre, *self, a, j);
            }
            crate::chunked_store::lemma_count_chunks_congruent(
                pre.store.chunks@, self.store.chunks@);
        }
        true
    }
}

/// Liveness at every (archetype, id) survives the dispose walk, which
/// changes no occupancy bit and no payload slot.
proof fn lemma_dispose_liveness<T>(pre: Components<T>, post: Components<T>, a: int, j: int)
    requires
        pre.wf(),
        0 <= j < 8192,
        post.store.chunks@.len() == pre.store.chunks@.len(),
        forall|i: int| 0 <= i < pre.store.chunks@.len() ==>
            #[trigger] post.store.chunks@[i].0 == pre.store.chunks@[i].0,
        forall|i: int| 0 <= i < pre.store.chunks@.len() ==> {
            let pre_arr = pre.store.chunks@[i].1.arr;
            let post_arr = #[trigger] post.store.chunks@[i].1.arr;
            post_arr.buckets@.len() == pre_arr.buckets@.len()
                && (forall|b: int| 0 <= b < pre_arr.buckets@.len() ==>
                    (#[trigger] post_arr.buckets@[b]).slots == pre_arr.buckets@[b].slots)
        },
    ensures
        post.is_live(a, j) <==> pre.is_live(a, j),
{
    if pre.is_live(a, j) {
        let i = choose|i: int| 0 <= i < pre.store.chunks@.len()
            && #[trigger] pre.store.chunks@[i].0 == a && pre.store.chunks@[i].1.arr.is_live(j);
        assert(post.store.chunks@[i].1.arr.buckets@[j / 64].slots
            == pre.store.chunks@[i].1.arr.buckets@[j / 64].slots);
        assert(post.store.chunks@[i].0 == a);
        assert(post.store.chunks@[i].1.arr.is_live(j));
        assert(post.is_live(a, j));
    }
    if post.is_live(a, j) {
        let i = choose|i: int| 0 <= i < post.store.chunks@.len()
            && #[trigger] post.store.chunks@[i].0 == a && post.store.chunks@[i].1.arr.is_live(j);
        assert(post.store.chunks@[i].1.arr.buckets@[j / 64].slots
            == pre.store.chunks@[i].1.arr.buckets@[j / 64].slots);
        assert(pre.store.chunks@[i].0 == a);
        assert(pre.store.chunks@[i].1.arr.is_live(j));
        assert(pre.is_live(a, j));
    }
}

/// How one write at `(arch, id)` moves the archetype array's conservative
/// bounds and changed flag: both the existence and the mutation range widen
/// over the touched bucket's full span (from the empty sentinels when the
/// archetype is new), and the array is marked changed.
pub open spec fn arch_bounds_after_set<T>(
    pre: Components<T>,
    post: Components<T>,
    arch: int,
    id: int,
) -> bool {
    let post_arr = post.store.arch_array(arch);
    let lo = (id / 64 * 64) as u32;
    let hi = (id / 64 * 64 + 63) as u32;
    &&& post_arr.is_updated
    &&& if pre.store.has_arch(arch) {
        let pre_arr = pre.store.arch_array(arch);
        &&& post_arr.min_existed_id
            == (if lo < pre_arr.min_existed_id { lo } else { pre_arr.min_existed_id })
        &&& post_arr.max_existed_id
            == (if hi > pre_arr.max_existed_id { hi } else { pre_arr.max_existed_id })
        &&& post_arr.min_updated_id
            == (if lo < pre_arr.min_updated_id { lo } else { pre_arr.min_updated_id })
        &&& post_arr.max_updated_id
            == (if hi > pre_arr.max_updated_id { hi } else { pre_arr.max_updated_id })
    } else {
        &&& post_arr.min_existed_id == lo
        &&& post_arr.max_existed_id == hi
        &&& post_arr.min_updated_id == lo
        &&& post_arr.max_updated_id == hi
    }
}

/// Idempotence of the end-of-frame dispose pass: two passes in succession
/// with no intervening mutation leave the changed flags and per-frame
/// bounds exactly as the first pass left them — the second pass is a no-op
/// and reports that nothing was changed.
pub proof fn lemma_dispose_idempotent<T>(
    c0: Components<T>,
    c1: Components<T>,
    c2: Components<T>,
    r1: bool,
    r2: bool,
)
    requires
        dispose_step(c0, c1, r1),
        dispose_step(c1, c2, r2),
    ensures
        c2 == c1,
        r2 == false,
{
}

/// What a successful dependency fetch tells the caller to do.
#[derive(Clone, Copy, PartialEq, Eq, Structural, Debug)]
pub enum FetchAction {
    UseExisting,
    CreateNew,
}

/// Why a dependency fetch is refused. Every variant is fatal to the frame.
#[derive(Clone, Copy, PartialEq, Eq, Structural, Debug)]
pub enum FetchError {
    /// The Instantination stage can never be used to fetch a dependency.
    InstantinationFetch,
    /// The store does not exist during Execution: its creation during
    /// Initialization was skipped, a programming error.
    NonExists,
    /// A unique resource was requested that was never registered; unique
    /// resources cannot be added to the world dynamically.
    UniqueNotRegistered,
}

/// Dependency resolution for a typed component store, given the caller's
/// stage and whether the store already exists: during Initialization a
/// missing store is created lazily; during Execution it must already exist;
/// during Instantination fetching is refused outright.
pub fn components_fetch_decision(stage: Stage, exists: bool) -> (r: Result<FetchAction, FetchError>)
    ensures
        stage is Instantination ==> r == Err::<FetchAction, FetchError>(FetchError::InstantinationFetch),
        stage is Initialization && exists ==> r == Ok::<FetchAction, FetchError>(FetchAction::UseExisting),
        stage is Initialization && !exists ==> r == Ok::<FetchAction, FetchError>(FetchAction::CreateNew),
        stage is Execution && exists ==> r == Ok::<FetchAction, FetchError>(FetchAction::UseExisting),
        stage is Execution && !exists ==> r == Err::<FetchAction, FetchError>(FetchError::NonExists),
{
    match stage {
        Stage::Instantination => Err(FetchError::InstantinationFetch),
        Stage::Initialization => if exists {
            Ok(FetchAction::UseExisting)
        } else {
            Ok(FetchAction::CreateNew)
        },
        Stage::Execution => if exists {
            Ok(FetchAction::UseExisting)
        } else {
            Err(FetchError::NonExists)
        },
    }
}

/// Dependency resolution for a unique resource: unlike a typed store it is
/// never created lazily, so a miss during Initialization is an error too.
pub fn unique_fetch_decision(stage: Stage, exists: bool) -> (r: Result<FetchAction, FetchError>)
    ensures
        stage is Instantination ==> r == Err::<FetchAction, FetchError>(FetchError::InstantinationFetch),
        stage is Initialization && exists ==> r == Ok::<FetchAction, FetchError>(FetchAction::UseExisting),
        stage is Initialization && !exists ==> r == Err::<FetchAction, FetchError>(FetchError::UniqueNotRegistered),
        stage is Execution && exists ==> r == Ok::<FetchAction, FetchError>(FetchAction::UseExisting),
        stage is Execution && !exists ==> r == Err::<FetchAction, FetchError>(FetchError::NonExists),
{
    match stage {
        Stage::Instantination => Err(FetchError::InstantinationFetch),
        Stage::Initialization => if exists {
            Ok(FetchAction::UseExisting)
        } else {
            Err(FetchError::UniqueNotRegistered)
        },
        Stage::Execution => if exists {
            Ok(FetchAction::UseExisting)
        } else {
            Err(FetchError::NonExists)
        },
    }
}

} // verus!
