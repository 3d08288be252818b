//! Bucketed sparse array: fixed-capacity buckets of 64 slots, each with a
//! 64-bit occupancy mask and a per-frame mutation mask, plus conservative
//! existence and mutation ranges on the array. A bucket is the unit of
//! exclusion: `bucket_lock` lends the bucket out by value and `unlock`
//! returns it, widening the array's ranges, so the exclusion a per-bucket
//! spinlock would buy at run time is enforced here by ownership.

use vstd::prelude::*;

verus! {

/// Total buckets a single array may grow to.
pub const BUCKETS_PER_ARRAY: usize = 128;

/// Slots per bucket; equals the bit width of the occupancy mask.
pub const BUCKET_DENSITY: usize = 64;

/// Bits in one occupancy mask.
pub const BITS_PER_BUCKET: usize = 64;

/// Maximum id storable in one array: `BUCKETS_PER_ARRAY * BUCKET_DENSITY`.
pub const MAX_ITEMS_PER_ARRAY: usize = 8192;

/// Sentinel for an empty existence or mutation range: `min` holds this
/// (`u32::MAX`) and `max` holds zero until a slot is observed occupied.
pub const RANGE_EMPTY_MIN: u32 = 0xFFFF_FFFF;

/// Slot index of `id` within its bucket.
pub fn get_slot_index(id: usize) -> (r: usize)
    ensures
        r == id % 64,
{
    id % BUCKET_DENSITY
}

/// Index of the bucket covering `id`.
pub fn get_bucket_index(id: usize) -> (r: usize)
    ensures
        r == id / 64,
{
    id / BUCKET_DENSITY
}

/// Whether bit `i` of an occupancy mask is set.
pub open spec fn bit_at(bits: u64, i: int) -> bool
    recommends
        0 <= i < 64,
{
    bits & (1u64 << (i as u64)) != 0
}

proof fn lemma_bit_or(b: u64, s: u64, j: u64)
    by (bit_vector)
    requires
        s < 64,
        j < 64,
    ensures
        (b | (1u64 << s)) & (1u64 << j) != 0 <==> (b & (1u64 << j) != 0 || j == s),
        b | (1u64 << s) != 0,
{
}

proof fn lemma_bit_clear(b: u64, s: u64, j: u64)
    by (bit_vector)
    requires
        s < 64,
        j < 64,
    ensures
        (b & !(1u64 << s)) & (1u64 << j) != 0 <==> (b & (1u64 << j) != 0 && j != s),
{
}

proof fn lemma_bit_zero(j: u64)
    by (bit_vector)
    ensures
        0u64 & (1u64 << j) == 0,
{
}

/// One bucket: its own index, the occupancy mask, the per-frame mutation
/// mask, and 64 payload slots. Invariant: bit `i` of the occupancy mask is
/// set iff slot `i` holds a live value.
pub struct Bucket<T> {
    pub idx: usize,
    pub bits: u64,
    pub updated_bits: u64,
    pub slots: Vec<Option<T>>,
}

impl<T> Bucket<T> {
    pub open spec fn wf(self) -> bool {
        &&& self.slots@.len() == 64
        &&& forall|i: int| 0 <= i < 64 ==> (bit_at(self.bits, i) <==> self.slots@[i] is Some)
    }

    /// Slot `i` holds a live value.
    pub open spec fn live(self, i: int) -> bool
        recommends
            0 <= i < 64,
    {
        0 <= i < 64 && self.slots@[i] is Some
    }

    pub open spec fn value_at(self, i: int) -> T
        recommends
            self.live(i),
    {
        self.slots@[i]->0
    }

    /// All slots free, both masks clear.
    pub open spec fn is_empty(self) -> bool {
        &&& self.bits == 0
        &&& self.updated_bits == 0
        &&& self.slots@.len() == 64
        &&& forall|i: int| 0 <= i < 64 ==> self.slots@[i] is None
    }

    /// A fresh bucket with the given index and no live slots.
    pub fn new(idx: usize) -> (r: Bucket<T>)
        ensures
            r.wf(),
            r.is_empty(),
            r.idx == idx,
            count_live_slots(r.slots@) == 0,
    {
        let mut slots: Vec<Option<T>> = Vec::new();
        let mut i: usize = 0;
        while i < BUCKET_DENSITY
            invariant
                i <= 64,
                slots@.len() == i,
                forall|k: int| 0 <= k < i ==> slots@[k] is None,
            decreases 64 - i,
        {
            slots.push(None);
            i = i + 1;
        }
        proof {
            assert forall|k: int| 0 <= k < 64 implies !bit_at(0u64, k) by {
                lemma_bit_zero(k as u64);
            }
            lemma_count_none(slots@);
        }
        Bucket { idx, bits: 0, updated_bits: 0, slots }
    }

    pub fn bits(&self) -> (r: u64)
        ensures
            r == self.bits,
    {
        self.bits
    }

    /// Whether the slot covering `id` is live in this bucket.
    pub fn has(&self, id: usize) -> (r: bool)
        requires
            self.wf(),
        ensures
            r == self.live(id as int % 64),
    {
        let slot: usize = get_slot_index(id);
        self.slots[slot].is_some()
    }

    /// The value at the slot covering `id`, if live.
    pub fn get_copy(&self, id: usize) -> (r: Option<T>)
        where T: Copy
        requires
            self.wf(),
        ensures
            r == (if self.live(id as int % 64) {
                Some(self.value_at(id as int % 64))
            } else {
                None::<T>
            }),
    {
        let slot: usize = get_slot_index(id);
        match &self.slots[slot] {
            Some(v) => Some(*v),
            None => None,
        }
    }
}

/// A bucket lent out for exclusive mutation, with a flag recording whether
/// any slot was mutated while held. Obtained from `bucket_lock`, surrendered
/// to `unlock`.
pub struct BucketRefMut<T> {
    pub bucket: Bucket<T>,
    pub dirty: bool,
}

impl<T> BucketRefMut<T> {
    pub fn bits(&self) -> (r: u64)
        ensures
            r == self.bucket.bits,
    {
        self.bucket.bits
    }

    pub fn has(&self, id: usize) -> (r: bool)
        requires
            self.bucket.wf(),
        ensures
            r == self.bucket.live(id as int % 64),
    {
        self.bucket.has(id)
    }

    pub fn get_copy(&self, id: usize) -> (r: Option<T>)
        where T: Copy
        requires
            self.bucket.wf(),
        ensures
            r == (if self.bucket.live(id as int % 64) {
                Some(self.bucket.value_at(id as int % 64))
            } else {
                None::<T>
            }),
    {
        self.bucket.get_copy(id)
    }

    /// A clone of the value at the slot covering `id`, if live. Nothing is
    /// promised of what the clone holds beyond its presence.
    pub fn get_clone(&self, id: usize) -> (r: Option<T>)
        where T: Clone
        requires
            self.bucket.wf(),
        ensures
            r is Some <==> self.bucket.live(id as int % 64),
    {
        let slot: usize = get_slot_index(id);
        match &self.bucket.slots[slot] {
            Some(v) => Some(v.clone()),
            None => None,
        }
    }

    /// Write `data` at the slot covering `id`: if the slot was free, occupy
    /// it and return nothing; if live, swap in the new value and return the
    /// previous one. Marks the slot mutated.
    pub fn set(&mut self, id: usize, data: T) -> (r: Option<T>)
        requires
            old(self).bucket.wf(),
            id < MAX_ITEMS_PER_ARRAY,
            id / 64 == old(self).bucket.idx,
        ensures
            final(self).bucket.wf(),
            final(self).bucket.idx == old(self).bucket.idx,
            final(self).dirty,
            r == (if old(self).bucket.live(id as int % 64) {
                Some(old(self).bucket.value_at(id as int % 64))
            } else {
                None::<T>
            }),
            forall|j: int| 0 <= j < 64 ==>
                (final(self).bucket.live(j) <==> (old(self).bucket.live(j) || j == id as int % 64)),
            forall|j: int| 0 <= j < 64 && j != id as int % 64 ==>
                final(self).bucket.slots@[j] == old(self).bucket.slots@[j],
            final(self).bucket.value_at(id as int % 64) == data,
            final(self).bucket.bits == old(self).bucket.bits | (1u64 << ((id % 64) as u64)),
            final(self).bucket.bits != 0,
            count_live_slots(final(self).bucket.slots@)
                == count_live_slots(old(self).bucket.slots@)
                    + (if old(self).bucket.live(id as int % 64) { 0int } else { 1 }),
    {
        let slot: usize = get_slot_index(id);
        let slot_ref: &mut Option<T> = &mut self.bucket.slots[slot];
        let prev: Option<T> = slot_ref.take();
        *slot_ref = Some(data);
        let mask: u64 = 1u64 << (slot as u64);
        self.bucket.bits = self.bucket.bits | mask;
        self.bucket.updated_bits = self.bucket.updated_bits | mask;
        self.dirty = true;
        proof {
            assert(self.bucket.slots@ =~= old(self).bucket.slots@.update(slot as int, Some(data)));
            assert forall|j: int| 0 <= j < 64 implies
                (bit_at(self.bucket.bits, j) <==> self.bucket.slots@[j] is Some) by {
                lemma_bit_or(old(self).bucket.bits, slot as u64, j as u64);
                assert(bit_at(old(self).bucket.bits, j) <==> old(self).bucket.slots@[j] is Some);
            }
            lemma_bit_or(old(self).bucket.bits, slot as u64, slot as u64);
            lemma_count_update(old(self).bucket.slots@, slot as int, Some(data));
        }
        prev
    }

    /// Remove and return the value at the slot covering `id`, if live.
    /// Marks the slot mutated.
    pub fn delete(&mut self, id: usize) -> (r: Option<T>)
        requires
            old(self).bucket.wf(),
            id < MAX_ITEMS_PER_ARRAY,
            id / 64 == old(self).bucket.idx,
        ensures
            final(self).bucket.wf(),
            final(self).bucket.idx == old(self).bucket.idx,
            final(self).dirty,
            r == (if old(self).bucket.live(id as int % 64) {
                Some(old(self).bucket.value_at(id as int % 64))
            } else {
                None::<T>
            }),
            forall|j: int| 0 <= j < 64 ==>
                (final(self).bucket.live(j) <==> (old(self).bucket.live(j) && j != id as int % 64)),
            forall|j: int| 0 <= j < 64 && j != id as int % 64 ==>
                final(self).bucket.slots@[j] == old(self).bucket.slots@[j],
            final(self).bucket.bits == old(self).bucket.bits & !(1u64 << ((id % 64) as u64)),
            count_live_slots(final(self).bucket.slots@)
                == count_live_slots(old(self).bucket.slots@)
                    - (if old(self).bucket.live(id as int % 64) { 1int } else { 0 }),
    {
        let slot: usize = get_slot_index(id);
        let slot_ref: &mut Option<T> = &mut self.bucket.slots[slot];
        let prev: Option<T> = slot_ref.take();
        let mask: u64 = 1u64 << (slot as u64);
        self.bucket.bits = self.bucket.bits & !mask;
        self.bucket.updated_bits = self.bucket.updated_bits | mask;
        self.dirty = true;
        proof {
            assert forall|j: int| 0 <= j < 64 implies
                (bit_at(self.bucket.bits, j) <==> self.bucket.slots@[j] is Some) by {
                lemma_bit_clear(old(self).bucket.bits, slot as u64, j as u64);
                assert(bit_at(old(self).bucket.bits, j) <==> old(self).bucket.slots@[j] is Some);
            }
            lemma_count_update(old(self).bucket.slots@, slot as int, None::<T>);
        }
        prev
    }
}

/// Sparse array of up to `MAX_ITEMS_PER_ARRAY` slots in lazily created
/// buckets, with conservative existence bounds (`min_existed_id`,
/// `max_existed_id`), per-frame mutation bounds, and a per-array changed
/// flag. Bounds are only widened by ordinary mutation; the end-of-frame
/// dispose pass alone narrows them.
pub struct SyncSparseArray<T> {
    pub buckets: Vec<Bucket<T>>,
    pub min_existed_id: u32,
    pub max_existed_id: u32,
    pub min_updated_id: u32,
    pub max_updated_id: u32,
    pub is_updated: bool,
}

/// A fresh, empty sparse array.
pub fn sync_array<T>() -> (r: SyncSparseArray<T>)
    ensures
        r.wf(),
        r.buckets@.len() == 0,
        r.min_existed_id == RANGE_EMPTY_MIN,
        r.max_existed_id == 0,
        r.min_updated_id == RANGE_EMPTY_MIN,
        r.max_updated_id == 0,
        !r.is_updated,
        forall|id: int| 0 <= id < 8192 ==> !r.is_live(id),
        r.live_count() == 0,
{
    SyncSparseArray::new()
}

impl<T> SyncSparseArray<T> {
    pub open spec fn buckets_wf(self) -> bool {
        &&& self.buckets@.len() <= 128
        &&& forall|b: int| 0 <= b < self.buckets@.len() ==>
            (#[trigger] self.buckets@[b]).wf() && self.buckets@[b].idx == b
    }

    /// Slot `id` holds a live value.
    pub open spec fn is_live(self, id: int) -> bool
        recommends
            0 <= id < 8192,
    {
        &&& 0 <= id / 64 < self.buckets@.len()
        &&& self.buckets@[id / 64].live(id % 64)
    }

    pub open spec fn value_at(self, id: int) -> T
        recommends
            self.is_live(id),
    {
        self.buckets@[id / 64].value_at(id % 64)
    }

    /// The existence range is conservative: it never excludes a live slot.
    pub open spec fn range_wf(self) -> bool {
        forall|id: int| 0 <= id < 8192 && #[trigger] self.is_live(id) ==>
            self.min_existed_id <= id && id <= self.max_existed_id
    }

    /// The mutation range covers every bucket with a non-zero mutation mask.
    pub open spec fn updated_range_wf(self) -> bool {
        forall|b: int| 0 <= b < self.buckets@.len() &&
            (#[trigger] self.buckets@[b]).updated_bits != 0 ==>
            self.min_updated_id <= b * 64 && b * 64 + 63 <= self.max_updated_id
    }

    pub open spec fn wf(self) -> bool {
        &&& self.buckets_wf()
        &&& self.range_wf()
        &&& self.updated_range_wf()
    }

    /// Number of live slots across the whole array.
    pub open spec fn live_count(self) -> int {
        count_buckets(self.buckets@)
    }

    /// An empty array: no buckets, both ranges at the empty sentinel.
    pub fn new() -> (r: SyncSparseArray<T>)
        ensures
            r.wf(),
            r.buckets@.len() == 0,
            r.min_existed_id == RANGE_EMPTY_MIN,
            r.max_existed_id == 0,
            r.min_updated_id == RANGE_EMPTY_MIN,
            r.max_updated_id == 0,
            !r.is_updated,
            forall|id: int| 0 <= id < 8192 ==> !r.is_live(id),
            r.live_count() == 0,
    {
        SyncSparseArray {
            buckets: Vec::new(),
            min_existed_id: RANGE_EMPTY_MIN,
            max_existed_id: 0,
            min_updated_id: RANGE_EMPTY_MIN,
            max_updated_id: 0,
            is_updated: false,
        }
    }

    /// Number of buckets created so far.
    pub fn bucket_count(&self) -> (r: usize)
        ensures
            r == self.buckets@.len(),
    {
        self.buckets.len()
    }

    pub fn min_relaxed(&self) -> (r: usize)
        ensures
            r == self.min_existed_id as usize,
    {
        self.min_existed_id as usize
    }

    pub fn max_relaxed(&self) -> (r: usize)
        ensures
            r == self.max_existed_id as usize,
    {
        self.max_existed_id as usize
    }

    /// The occupancy mask of the bucket covering `id`, which must exist.
    pub fn get_bits(&self, id: usize) -> (r: u64)
        requires
            id / 64 < self.buckets@.len(),
        ensures
            r == self.buckets@[id as int / 64].bits,
    {
        let b: usize = get_bucket_index(id);
        self.buckets[b].bits
    }

    /// Read-only access to the bucket covering `id`, which must exist.
    pub fn bucket(&self, id: usize) -> (r: &Bucket<T>)
        requires
            id / 64 < self.buckets@.len(),
        ensures
            *r == self.buckets@[id as int / 64],
    {
        let b: usize = get_bucket_index(id);
        &self.buckets[b]
    }

    /// Locate or lazily create the bucket covering `id` and lend it out for
    /// exclusive mutation. The array keeps an empty placeholder until the
    /// guard is surrendered to `unlock`.
    pub fn bucket_lock(&mut self, id: usize) -> (g: BucketRefMut<T>)
        requires
            old(self).wf(),
            id < MAX_ITEMS_PER_ARRAY,
        ensures
            final(self).wf(),
            g.bucket.wf(),
            g.bucket.idx == id as int / 64,
            !g.dirty,
            id as int / 64 < old(self).buckets@.len() ==>
                g.bucket == old(self).buckets@[id as int / 64],
            id as int / 64 >= old(self).buckets@.len() ==> g.bucket.is_empty(),
            g.bucket.updated_bits != 0 ==>
                final(self).min_updated_id <= g.bucket.idx * 64
                    && g.bucket.idx * 64 + 63 <= final(self).max_updated_id,
            final(self).buckets@.len() ==
                (if id as int / 64 < old(self).buckets@.len() {
                    old(self).buckets@.len() as int
                } else {
                    id as int / 64 + 1
                }),
            forall|b: int| 0 <= b < old(self).buckets@.len() && b != id as int / 64 ==>
                final(self).buckets@[b] == old(self).buckets@[b],
            final(self).buckets@[id as int / 64].is_empty(),
            final(self).buckets@[id as int / 64].idx == id as int / 64,
            forall|b: int| old(self).buckets@.len() <= b < final(self).buckets@.len() ==>
                (#[trigger] final(self).buckets@[b]).is_empty(),
            final(self).min_existed_id == old(self).min_existed_id,
            final(self).max_existed_id == old(self).max_existed_id,
            final(self).min_updated_id == old(self).min_updated_id,
            final(self).max_updated_id == old(self).max_updated_id,
            final(self).is_updated == old(self).is_updated,
            final(self).live_count() == old(self).live_count()
                - count_live_slots(g.bucket.slots@),
    {
        let b_idx: usize = get_bucket_index(id);
        while self.buckets.len() <= b_idx
            invariant
                old(self).wf(),
                id < 8192,
                b_idx == id as int / 64,
                b_idx < 128,
                self.buckets@.len() >= old(self).buckets@.len(),
                self.buckets@.len() <= b_idx + 1
                    || self.buckets@.len() == old(self).buckets@.len(),
                forall|b: int| 0 <= b < old(self).buckets@.len() ==>
                    self.buckets@[b] == old(self).buckets@[b],
                forall|b: int| old(self).buckets@.len() <= b < self.buckets@.len() ==>
                    (#[trigger] self.buckets@[b]).is_empty() && self.buckets@[b].wf()
                        && self.buckets@[b].idx == b,
                self.min_existed_id == old(self).min_existed_id,
                self.max_existed_id == old(self).max_existed_id,
                self.min_updated_id == old(self).min_updated_id,
                self.max_updated_id == old(self).max_updated_id,
                self.is_updated == old(self).is_updated,
                self.live_count() == old(self).live_count(),
            decreases b_idx + 1 - self.buckets@.len(),
        {
            let n: usize = self.buckets.len();
            let fresh: Bucket<T> = Bucket::new(n);
            proof {
                lemma_count_buckets_push(self.buckets@, fresh);
            }
            self.buckets.push(fresh);
        }
        let ghost grown = *self;
        let mut placeholder: Bucket<T> = Bucket::new(b_idx);
        let bucket_ref: &mut Bucket<T> = &mut self.buckets[b_idx];
        core::mem::swap(bucket_ref, &mut placeholder);
        proof {
            lemma_count_buckets_update(grown.buckets@, b_idx as int,
                self.buckets@[b_idx as int]);
            assert(self.buckets@ =~= grown.buckets@.update(b_idx as int,
                self.buckets@[b_idx as int]));
            assert forall|jd: int| 0 <= jd < 8192 && #[trigger] self.is_live(jd) implies
                self.min_existed_id <= jd && jd <= self.max_existed_id by {
                assert(old(self).is_live(jd) || jd / 64 == b_idx);
                if jd / 64 == b_idx {
                    assert(!self.buckets@[jd / 64].live(jd % 64));
                }
            }
        }
        BucketRefMut { bucket: placeholder, dirty: false }
    }

    /// Surrender a lent-out bucket: store it back and widen the existence
    /// range over the bucket's full span when its mask is non-zero; when
    /// the holder mutated the bucket, widen the mutation range likewise and
    /// mark the array changed. Widening-only keeps the release cheap and
    /// keeps a scan over the recorded bounds safe to start and stop there.
    pub fn unlock(&mut self, g: BucketRefMut<T>)
        requires
            old(self).wf(),
            g.bucket.wf(),
            g.bucket.idx < old(self).buckets@.len(),
            old(self).buckets@[g.bucket.idx as int].is_empty(),
            !g.dirty && g.bucket.updated_bits != 0 ==>
                old(self).min_updated_id <= g.bucket.idx * 64
                    && g.bucket.idx * 64 + 63 <= old(self).max_updated_id,
        ensures
            final(self).wf(),
            final(self).buckets@.len() == old(self).buckets@.len(),
            final(self).buckets@[g.bucket.idx as int] == g.bucket,
            forall|b: int| 0 <= b < old(self).buckets@.len() && b != g.bucket.idx ==>
                final(self).buckets@[b] == old(self).buckets@[b],
            final(self).min_existed_id == (if g.bucket.bits != 0
                && ((g.bucket.idx * 64) as u32) < old(self).min_existed_id {
                (g.bucket.idx * 64) as u32
            } else {
                old(self).min_existed_id
            }),
            final(self).max_existed_id == (if g.bucket.bits != 0
                && ((g.bucket.idx * 64 + 63) as u32) > old(self).max_existed_id {
                (g.bucket.idx * 64 + 63) as u32
            } else {
                old(self).max_existed_id
            }),
            final(self).min_updated_id == (if g.dirty
                && ((g.bucket.idx * 64) as u32) < old(self).min_updated_id {
                (g.bucket.idx * 64) as u32
            } else {
                old(self).min_updated_id
            }),
            final(self).max_updated_id == (if g.dirty
                && ((g.bucket.idx * 64 + 63) as u32) > old(self).max_updated_id {
                (g.bucket.idx * 64 + 63) as u32
            } else {
                old(self).max_updated_id
            }),
            final(self).is_updated == (old(self).is_updated || g.dirty),
            final(self).live_count() == old(self).live_count()
                + count_live_slots(g.bucket.slots@),
    {
        let b_idx: usize = g.bucket.idx;
        let has_live: bool = g.bucket.bits != 0;
        let dirty: bool = g.dirty;
        let has_updated: bool = g.bucket.updated_bits != 0;
        let ghost old_self = *self;
        let mut bucket: Bucket<T> = g.bucket;
        let bucket_ref: &mut Bucket<T> = &mut self.buckets[b_idx];
        core::mem::swap(bucket_ref, &mut bucket);
        if has_live {
            let min: u32 = (b_idx * 64) as u32;
            let max: u32 = (b_idx * 64 + 63) as u32;
            if min < self.min_existed_id {
                self.min_existed_id = min;
            }
            if max > self.max_existed_id {
                self.max_existed_id = max;
            }
        }
        if dirty {
            let min: u32 = (b_idx * 64) as u32;
            let max: u32 = (b_idx * 64 + 63) as u32;
            if min < self.min_updated_id {
                self.min_updated_id = min;
            }
            if max > self.max_updated_id {
                self.max_updated_id = max;
            }
            self.is_updated = true;
        }
        proof {
            lemma_unlock_wf(old_self, *self, g, b_idx as int);
            lemma_count_buckets_update(old_self.buckets@, b_idx as int, g.bucket);
            assert(self.buckets@ =~= old_self.buckets@.update(b_idx as int, g.bucket));
            lemma_count_none(old_self.buckets@[b_idx as int].slots@);
        }
    }

    /// Whether slot `id` currently holds a live value.
    pub fn has(&self, id: usize) -> (r: bool)
        requires
            self.wf(),
            id < MAX_ITEMS_PER_ARRAY,
        ensures
            r == self.is_live(id as int),
    {
        let b: usize = get_bucket_index(id);
        if b < self.buckets.len() {
            self.buckets[b].has(id)
        } else {
            false
        }
    }

    /// Lock the bucket covering `id`, write `data` there, release. Returns
    /// the previous value when the slot was already live. Widens the
    /// existence and mutation ranges over the bucket's span and marks the
    /// array changed.
    pub fn set_in_place(&mut self, id: usize, data: T) -> (r: Option<T>)
        requires
            old(self).wf(),
            id < MAX_ITEMS_PER_ARRAY,
        ensures
            final(self).wf(),
            r == (if old(self).is_live(id as int) {
                Some(old(self).value_at(id as int))
            } else {
                None::<T>
            }),
            forall|j: int| 0 <= j < 8192 ==>
                (final(self).is_live(j) <==> (old(self).is_live(j) || j == id)),
            forall|j: int| 0 <= j < 8192 && final(self).is_live(j) && j != id ==>
                final(self).value_at(j) == old(self).value_at(j),
            final(self).value_at(id as int) == data,
            final(self).is_updated,
            final(self).buckets@.len() == (if id as int / 64 < old(self).buckets@.len() {
                old(self).buckets@.len() as int
            } else {
                id as int / 64 + 1
            }),
            final(self).min_existed_id == (if ((id / 64 * 64) as u32) < old(self).min_existed_id {
                (id / 64 * 64) as u32
            } else {
                old(self).min_existed_id
            }),
            final(self).max_existed_id == (if ((id / 64 * 64 + 63) as u32) > old(self).max_existed_id {
                (id / 64 * 64 + 63) as u32
            } else {
                old(self).max_existed_id
            }),
            final(self).min_updated_id == (if ((id / 64 * 64) as u32) < old(self).min_updated_id {
                (id / 64 * 64) as u32
            } else {
                old(self).min_updated_id
            }),
            final(self).max_updated_id == (if ((id / 64 * 64 + 63) as u32) > old(self).max_updated_id {
                (id / 64 * 64 + 63) as u32
            } else {
                old(self).max_updated_id
            }),
            final(self).live_count() == old(self).live_count()
                + (if old(self).is_live(id as int) { 0int } else { 1 }),
    {
        let ghost pre = *self;
        let mut g = self.bucket_lock(id);
        proof {
            if id as int / 64 < pre.buckets@.len() {
                assert(g.bucket == pre.buckets@[id as int / 64]);
            }
            assert(g.bucket.live(id as int % 64) == pre.is_live(id as int));
        }
        let r = g.set(id, data);
        let ghost gs = g;
        self.unlock(g);
        proof {
            let b = id as int / 64;
            assert forall|j: int| 0 <= j < 8192 implies
                (self.is_live(j) <==> (pre.is_live(j) || j == id)) by {
                lemma_same_slot(j, id as int);
                if j / 64 == b {
                    assert(self.buckets@[j / 64] == gs.bucket);
                } else {
                    if 0 <= j / 64 < pre.buckets@.len() {
                        assert(self.buckets@[j / 64] == pre.buckets@[j / 64]);
                    }
                }
            }
            assert forall|j: int| 0 <= j < 8192 && self.is_live(j) && j != id implies
                self.value_at(j) == pre.value_at(j) by {
                lemma_same_slot(j, id as int);
                if j / 64 == b {
                    assert(self.buckets@[j / 64] == gs.bucket);
                } else {
                    assert(self.buckets@[j / 64] == pre.buckets@[j / 64]);
                }
            }
        }
        r
    }

    /// Lock the bucket covering `id` (creating it if absent), remove the
    /// value there if live, release. Deletion never narrows the existence
    /// range; it widens the mutation range and marks the array changed.
    pub fn delete_in_place(&mut self, id: usize) -> (r: Option<T>)
        requires
            old(self).wf(),
            id < MAX_ITEMS_PER_ARRAY,
        ensures
            final(self).wf(),
            r == (if old(self).is_live(id as int) {
                Some(old(self).value_at(id as int))
            } else {
                None::<T>
            }),
            forall|j: int| 0 <= j < 8192 ==>
                (final(self).is_live(j) <==> (old(self).is_live(j) && j != id)),
            forall|j: int| 0 <= j < 8192 && final(self).is_live(j) ==>
                final(self).value_at(j) == old(self).value_at(j),
            final(self).is_updated,
            final(self).min_existed_id == (if final(self).buckets@[id as int / 64].bits != 0
                && ((id / 64 * 64) as u32) < old(self).min_existed_id {
                (id / 64 * 64) as u32
            } else {
                old(self).min_existed_id
            }),
            final(self).max_existed_id == (if final(self).buckets@[id as int / 64].bits != 0
                && ((id / 64 * 64 + 63) as u32) > old(self).max_existed_id {
                (id / 64 * 64 + 63) as u32
            } else {
                old(self).max_existed_id
            }),
            final(self).min_updated_id == (if ((id / 64 * 64) as u32) < old(self).min_updated_id {
                (id / 64 * 64) as u32
            } else {
                old(self).min_updated_id
            }),
            final(self).max_updated_id == (if ((id / 64 * 64 + 63) as u32) > old(self).max_updated_id {
                (id / 64 * 64 + 63) as u32
            } else {
                old(self).max_updated_id
            }),
            final(self).live_count() == old(self).live_count()
                - (if old(self).is_live(id as int) { 1int } else { 0 }),
    {
        let ghost pre = *self;
        let mut g = self.bucket_lock(id);
        proof {
            if id as int / 64 < pre.buckets@.len() {
                assert(g.bucket == pre.buckets@[id as int / 64]);
            }
            assert(g.bucket.live(id as int % 64) == pre.is_live(id as int));
        }
        let r = g.delete(id);
        let ghost gs = g;
        self.unlock(g);
        proof {
            let b = id as int / 64;
            assert forall|j: int| 0 <= j < 8192 implies
                (self.is_live(j) <==> (pre.is_live(j) && j != id)) by {
                lemma_same_slot(j, id as int);
                if j / 64 == b {
                    assert(self.buckets@[j / 64] == gs.bucket);
                } else {
                    if 0 <= j / 64 < pre.buckets@.len() {
                        assert(self.buckets@[j / 64] == pre.buckets@[j / 64]);
                    }
                }
            }
            assert forall|j: int| 0 <= j < 8192 && self.is_live(j) implies
                self.value_at(j) == pre.value_at(j) by {
                lemma_same_slot(j, id as int);
                if j / 64 == b {
                    assert(self.buckets@[j / 64] == gs.bucket);
                } else {
                    assert(self.buckets@[j / 64] == pre.buckets@[j / 64]);
                }
            }
        }
        r
    }
}

/// The existence minimum after the dispose pass: when the range spans more
/// than one bucket and the edge bucket at the minimum is provably empty, the
/// minimum moves to the start of the next bucket; otherwise it is kept.
pub open spec fn narrowed_min<T>(a: SyncSparseArray<T>) -> u32 {
    let bmin = a.min_existed_id as int / 64;
    let bmax = a.max_existed_id as int / 64;
    if a.max_existed_id != 0 && bmin != bmax && bmin < a.buckets@.len()
        && a.buckets@[bmin].bits == 0 {
        (((bmin + 1) * 64) as u32)
    } else {
        a.min_existed_id
    }
}

/// The existence maximum after the dispose pass: when the range spans more
/// than one bucket and the edge bucket at the maximum is provably empty, the
/// maximum moves to the end of the previous bucket; otherwise it is kept.
pub open spec fn narrowed_max<T>(a: SyncSparseArray<T>) -> u32 {
    let bmin = a.min_existed_id as int / 64;
    let bmax = a.max_existed_id as int / 64;
    if a.max_existed_id != 0 && bmin != bmax && 0 < bmax < a.buckets@.len()
        && a.buckets@[bmax].bits == 0 {
        ((bmax * 64 - 1) as u32)
    } else {
        a.max_existed_id
    }
}

impl<T> SyncSparseArray<T> {
    /// The end-of-frame pass over one array: tighten the existence range at
    /// its two edge buckets when their masks prove them empty, zero every
    /// bucket's mutation mask, reset the mutation range to the empty
    /// sentinel, and clear the changed flag. Occupancy and payloads are
    /// untouched.
    pub fn dispose_pass(&mut self)
        requires
            old(self).wf(),
        ensures
            final(self).wf(),
            final(self).buckets@.len() == old(self).buckets@.len(),
            forall|b: int| 0 <= b < old(self).buckets@.len() ==> {
                let post = #[trigger] final(self).buckets@[b];
                let pre = old(self).buckets@[b];
                post.idx == pre.idx && post.bits == pre.bits && post.slots == pre.slots
                    && post.updated_bits == 0
            },
            forall|j: int| 0 <= j < 8192 ==>
                (final(self).is_live(j) <==> old(self).is_live(j)),
            forall|j: int| 0 <= j < 8192 && old(self).is_live(j) ==>
                final(self).value_at(j) == old(self).value_at(j),
            final(self).min_existed_id == narrowed_min(*old(self)),
            final(self).max_existed_id == narrowed_max(*old(self)),
            final(self).min_updated_id == RANGE_EMPTY_MIN,
            final(self).max_updated_id == 0,
            !final(self).is_updated,
            final(self).live_count() == old(self).live_count(),
    {
        let ghost pre = *self;
        if self.max_existed_id != 0 {
            let min_id: usize = self.min_existed_id as usize;
            let max_id: usize = self.max_existed_id as usize;
            let bmin: usize = min_id / 64;
            let bmax: usize = max_id / 64;
            if bmin != bmax {
                if bmin < self.buckets.len() && self.buckets[bmin].bits == 0 {
                    proof {
                        lemma_narrow_min_safe(pre);
                    }
                    self.min_existed_id = ((bmin + 1) * 64) as u32;
                }
                if bmax > 0 && bmax < self.buckets.len() && self.buckets[bmax].bits == 0 {
                    proof {
                        lemma_narrow_max_safe(pre);
                    }
                    self.max_existed_id = (bmax * 64 - 1) as u32;
                }
            }
        }
        let mut b: usize = 0;
        let n: usize = self.buckets.len();
        while b < n
            invariant
                pre.buckets_wf(),
                n == self.buckets@.len(),
                n == pre.buckets@.len(),
                b <= n,
                forall|k: int| 0 <= k < b ==> {
                    let post = #[trigger] self.buckets@[k];
                    let prek = pre.buckets@[k];
                    post.idx == prek.idx && post.bits == prek.bits && post.slots == prek.slots
                        && post.updated_bits == 0
                },
                forall|k: int| b <= k < n ==> self.buckets@[k] == pre.buckets@[k],
                self.min_existed_id == narrowed_min(pre),
                self.max_existed_id == narrowed_max(pre),
                self.min_updated_id == pre.min_updated_id,
                self.max_updated_id == pre.max_updated_id,
                self.is_updated == pre.is_updated,
                forall|id: int| 0 <= id < 8192 && #[trigger] pre.is_live(id) ==>
                    self.min_existed_id <= id && id <= self.max_existed_id,
            decreases n - b,
        {
            if self.buckets[b].updated_bits != 0 {
                let bucket_ref: &mut Bucket<T> = &mut self.buckets[b];
                bucket_ref.updated_bits = 0;
            }
            b = b + 1;
        }
        self.min_updated_id = RANGE_EMPTY_MIN;
        self.max_updated_id = 0;
        self.is_updated = false;
        proof {
            assert forall|j: int| 0 <= j < 8192 implies
                (self.is_live(j) <==> pre.is_live(j)) by {
                if 0 <= j / 64 < n {
                    assert(self.buckets@[j / 64].slots == pre.buckets@[j / 64].slots);
                }
            }
            assert forall|id: int| 0 <= id < 8192 && #[trigger] self.is_live(id) implies
                self.min_existed_id <= id && id <= self.max_existed_id by {
                assert(pre.is_live(id));
            }
            lemma_count_buckets_congruent(pre.buckets@, self.buckets@);
        }
    }
}

/// When the existence range is narrowed at the minimum edge because that
/// bucket's mask is zero, every live id still lies at or above the new
/// minimum.
proof fn lemma_narrow_min_safe<T>(a: SyncSparseArray<T>)
    requires
        a.wf(),
        a.min_existed_id as int / 64 < a.buckets@.len(),
        a.buckets@[a.min_existed_id as int / 64].bits == 0,
    ensures
        forall|id: int| 0 <= id < 8192 && #[trigger] a.is_live(id) ==>
            (a.min_existed_id as int / 64 + 1) * 64 <= id,
{
    let bmin = a.min_existed_id as int / 64;
    assert forall|id: int| 0 <= id < 8192 && #[trigger] a.is_live(id) implies
        (bmin + 1) * 64 <= id by {
        vstd::arithmetic::div_mod::lemma_fundamental_div_mod(id, 64);
        vstd::arithmetic::div_mod::lemma_fundamental_div_mod(a.min_existed_id as int, 64);
        assert(a.min_existed_id <= id);
        vstd::arithmetic::div_mod::lemma_div_is_ordered(a.min_existed_id as int, id, 64);
        assert(id / 64 >= bmin);
        if id / 64 == bmin {
            assert(bit_at(a.buckets@[bmin].bits, id % 64));
            lemma_bit_zero((id % 64) as u64);
            assert(false);
        }
        assert(id / 64 >= bmin + 1);
    }
}

/// When the existence range is narrowed at the maximum edge because that
/// bucket's mask is zero, every live id still lies below the new maximum.
proof fn lemma_narrow_max_safe<T>(a: SyncSparseArray<T>)
    requires
        a.wf(),
        0 < a.max_existed_id as int / 64 < a.buckets@.len(),
        a.buckets@[a.max_existed_id as int / 64].bits == 0,
    ensures
        forall|id: int| 0 <= id < 8192 && #[trigger] a.is_live(id) ==>
            id <= (a.max_existed_id as int / 64) * 64 - 1,
{
    let bmax = a.max_existed_id as int / 64;
    assert forall|id: int| 0 <= id < 8192 && #[trigger] a.is_live(id) implies
        id <= bmax * 64 - 1 by {
        vstd::arithmetic::div_mod::lemma_fundamental_div_mod(id, 64);
        vstd::arithmetic::div_mod::lemma_fundamental_div_mod(a.max_existed_id as int, 64);
        assert(id <= a.max_existed_id);
        vstd::arithmetic::div_mod::lemma_div_is_ordered(id, a.max_existed_id as int, 64);
        assert(id / 64 <= bmax);
        if id / 64 == bmax {
            assert(bit_at(a.buckets@[bmax].bits, id % 64));
            lemma_bit_zero((id % 64) as u64);
            assert(false);
        }
        assert(id / 64 <= bmax - 1);
    }
}

/// Range-safety: under the array invariant, every live id lies inside the
/// reported existence bounds, and its bit is set in its bucket's occupancy
/// mask — so a scan that visits only the buckets between `min_relaxed` and
/// `max_relaxed` and follows the masks enumerates every live id.
pub proof fn lemma_range_covers_live<T>(a: SyncSparseArray<T>, id: int)
    requires
        a.wf(),
        0 <= id < 8192,
        a.is_live(id),
    ensures
        a.min_existed_id <= id,
        id <= a.max_existed_id,
        bit_at(a.buckets@[id / 64].bits, id % 64),
        a.buckets@[id / 64].bits != 0,
{
    if a.buckets@[id / 64].bits == 0 {
        lemma_bit_zero((id % 64) as u64);
    }
}

/// Two ids under the array's capacity agree exactly when their bucket and
/// slot indices agree.
proof fn lemma_same_slot(j: int, id: int)
    requires
        0 <= j < 8192,
        0 <= id < 8192,
    ensures
        (j / 64 == id / 64 && j % 64 == id % 64) <==> j == id,
{
    vstd::arithmetic::div_mod::lemma_fundamental_div_mod(j, 64);
    vstd::arithmetic::div_mod::lemma_fundamental_div_mod(id, 64);
}

/// The array invariants survive storing a lent-out bucket back and widening
/// the ranges over its span.
proof fn lemma_unlock_wf<T>(pre: SyncSparseArray<T>, post: SyncSparseArray<T>, g: BucketRefMut<T>, b_idx: int)
    requires
        pre.wf(),
        g.bucket.wf(),
        0 <= b_idx < pre.buckets@.len(),
        g.bucket.idx == b_idx,
        pre.buckets@[b_idx].is_empty(),
        post.buckets@.len() == pre.buckets@.len(),
        post.buckets@[b_idx] == g.bucket,
        forall|b: int| 0 <= b < pre.buckets@.len() && b != b_idx ==>
            post.buckets@[b] == pre.buckets@[b],
        g.bucket.bits != 0 ==> post.min_existed_id <= b_idx * 64
            && b_idx * 64 + 63 <= post.max_existed_id,
        post.min_existed_id <= pre.min_existed_id,
        post.max_existed_id >= pre.max_existed_id,
        g.dirty ==> post.min_updated_id <= b_idx * 64
            && b_idx * 64 + 63 <= post.max_updated_id,
        !g.dirty && g.bucket.updated_bits != 0 ==> pre.min_updated_id <= b_idx * 64
            && b_idx * 64 + 63 <= pre.max_updated_id,
        post.min_updated_id <= pre.min_updated_id,
        post.max_updated_id >= pre.max_updated_id,
    ensures
        post.wf(),
{
    assert(post.buckets_wf());
    assert forall|id: int| 0 <= id < 8192 && #[trigger] post.is_live(id) implies
        post.min_existed_id <= id && id <= post.max_existed_id by {
        if id / 64 == b_idx {
            assert(g.bucket.live(id % 64));
            assert(bit_at(g.bucket.bits, id % 64));
            assert(g.bucket.bits != 0);
            vstd::arithmetic::div_mod::lemma_fundamental_div_mod(id, 64);
            assert(b_idx * 64 <= id && id <= b_idx * 64 + 63);
        } else {
            assert(pre.is_live(id));
        }
    }
    assert forall|b: int| 0 <= b < post.buckets@.len() &&
        (#[trigger] post.buckets@[b]).updated_bits != 0 implies
        post.min_updated_id <= b * 64 && b * 64 + 63 <= post.max_updated_id by {
        if b == b_idx {
            if !g.dirty {
                assert(pre.buckets@[b_idx].updated_bits == 0);
            }
        } else {
            assert(pre.buckets@[b].updated_bits != 0);
        }
    }
}

/// Number of occupied slots in one bucket's slot sequence.
pub open spec fn count_live_slots<T>(s: Seq<Option<T>>) -> int
    decreases s.len(),
{
    if s.len() <= 0 {
        0
    } else {
        count_live_slots(s.drop_last()) + (if s.last() is Some {
            1int
        } else {
            0
        })
    }
}

/// Number of occupied slots across a sequence of buckets.
pub open spec fn count_buckets<T>(bs: Seq<Bucket<T>>) -> int
    decreases bs.len(),
{
    if bs.len() <= 0 {
        0
    } else {
        count_buckets(bs.drop_last()) + count_live_slots(bs.last().slots@)
    }
}

/// A sequence of empty slots counts zero.
pub proof fn lemma_count_none<T>(s: Seq<Option<T>>)
    requires
        forall|i: int| 0 <= i < s.len() ==> s[i] is None,
    ensures
        count_live_slots(s) == 0,
    decreases s.len(),
{
    if s.len() > 0 {
        lemma_count_none(s.drop_last());
    }
}

/// Updating one slot moves the count by the difference in occupancy.
pub proof fn lemma_count_update<T>(s: Seq<Option<T>>, i: int, v: Option<T>)
    requires
        0 <= i < s.len(),
    ensures
        count_live_slots(s.update(i, v)) == count_live_slots(s)
            - (if s[i] is Some { 1int } else { 0 })
            + (if v is Some { 1int } else { 0 }),
    decreases s.len(),
{
    if i == s.len() - 1 {
        assert(s.update(i, v).drop_last() =~= s.drop_last());
    } else {
        assert(s.update(i, v).drop_last() =~= s.drop_last().update(i, v));
        lemma_count_update(s.drop_last(), i, v);
    }
}

/// Two slot sequences occupied at the same positions count the same.
pub proof fn lemma_count_congruent<T>(s1: Seq<Option<T>>, s2: Seq<Option<T>>)
    requires
        s1.len() == s2.len(),
        forall|i: int| 0 <= i < s1.len() ==> (s1[i] is Some <==> #[trigger] s2[i] is Some),
    ensures
        count_live_slots(s1) == count_live_slots(s2),
    decreases s1.len(),
{
    if s1.len() > 0 {
        assert forall|i: int| 0 <= i < s1.drop_last().len() implies
            (s1.drop_last()[i] is Some <==> #[trigger] s2.drop_last()[i] is Some) by {
            assert(s2[i] is Some <==> s1[i] is Some);
        }
        lemma_count_congruent(s1.drop_last(), s2.drop_last());
    }
}

/// Replacing one bucket moves the bucket-sequence count by the difference
/// of the two buckets' counts.
pub proof fn lemma_count_buckets_update<T>(bs: Seq<Bucket<T>>, i: int, b: Bucket<T>)
    requires
        0 <= i < bs.len(),
    ensures
        count_buckets(bs.update(i, b)) == count_buckets(bs)
            - count_live_slots(bs[i].slots@) + count_live_slots(b.slots@),
    decreases bs.len(),
{
    if i == bs.len() - 1 {
        assert(bs.update(i, b).drop_last() =~= bs.drop_last());
    } else {
        assert(bs.update(i, b).drop_last() =~= bs.drop_last().update(i, b));
        lemma_count_buckets_update(bs.drop_last(), i, b);
    }
}

/// Appending a bucket adds its count.
pub proof fn lemma_count_buckets_push<T>(bs: Seq<Bucket<T>>, b: Bucket<T>)
    ensures
        count_buckets(bs.push(b)) == count_buckets(bs) + count_live_slots(b.slots@),
{
    assert(bs.push(b).drop_last() =~= bs);
    assert(bs.push(b).last() == b);
}

/// Bucket sequences of equal length whose buckets hold the same slots
/// count the same.
pub proof fn lemma_count_buckets_congruent<T>(bs1: Seq<Bucket<T>>, bs2: Seq<Bucket<T>>)
    requires
        bs1.len() == bs2.len(),
        forall|i: int| 0 <= i < bs1.len() ==> (#[trigger] bs2[i]).slots == bs1[i].slots,
    ensures
        count_buckets(bs1) == count_buckets(bs2),
    decreases bs1.len(),
{
    if bs1.len() > 0 {
        assert forall|i: int| 0 <= i < bs1.drop_last().len() implies
            (#[trigger] bs2.drop_last()[i]).slots == bs1.drop_last()[i].slots by {
            assert(bs2[i].slots == bs1[i].slots);
        }
        lemma_count_buckets_congruent(bs1.drop_last(), bs2.drop_last());
    }
}

/// One mutation of a sparse array: write a value at an id, or remove the
/// value at an id.
pub enum ArrayOp<T> {
    Insert { id: usize, data: T },
    Remove { id: usize },
}

impl<T> ArrayOp<T> {
    pub open spec fn valid(self) -> bool {
        match self {
            ArrayOp::Insert { id, .. } => id < 8192,
            ArrayOp::Remove { id } => id < 8192,
        }
    }
}

/// Whether `id` is live after folding `ops` over an initially empty array:
/// live exactly when the last operation touching `id` was an insert.
pub open spec fn live_after<T>(ops: Seq<ArrayOp<T>>, id: int) -> bool
    decreases ops.len(),
{
    if ops.len() == 0 {
        false
    } else {
        match ops.last() {
            ArrayOp::Insert { id: oid, .. } =>
                oid == id || live_after(ops.drop_last(), id),
            ArrayOp::Remove { id: oid } =>
                oid != id && live_after(ops.drop_last(), id),
        }
    }
}

/// The value a live id holds after folding `ops` over an initially empty
/// array: what the last insert touching it wrote.
pub open spec fn value_after<T>(ops: Seq<ArrayOp<T>>, id: int) -> T
    recommends
        live_after(ops, id),
    decreases ops.len(),
{
    if ops.len() == 0 {
        arbitrary()
    } else {
        match ops.last() {
            ArrayOp::Insert { id: oid, data } =>
                if oid == id {
                    data
                } else {
                    value_after(ops.drop_last(), id)
                },
            ArrayOp::Remove { .. } => value_after(ops.drop_last(), id),
        }
    }
}

/// Applying any sequence of insert/remove operations to an empty array, in
/// order, yields exactly the live set given by the sequential fold of those
/// operations, each live id holding what the last insert touching it wrote:
/// no update is lost, no removed entry resurfaces, and the result is a
/// function of the operation order alone.
pub fn apply_ops<T>(ops: Vec<ArrayOp<T>>) -> (r: SyncSparseArray<T>)
    requires
        forall|k: int| 0 <= k < ops@.len() ==> (#[trigger] ops@[k]).valid(),
    ensures
        r.wf(),
        forall|id: int| 0 <= id < 8192 ==> (#[trigger] r.is_live(id) <==> live_after(ops@, id)),
        forall|id: int| 0 <= id < 8192 && #[trigger] r.is_live(id) ==>
            r.value_at(id) == value_after(ops@, id),
{
    let ghost orig = ops@;
    let mut rest = ops;
    let mut a = SyncSparseArray::new();
    while rest.len() > 0
        invariant
            a.wf(),
            rest@.len() <= orig.len(),
            rest@ == orig.subrange(orig.len() - rest@.len(), orig.len() as int),
            forall|k: int| 0 <= k < orig.len() ==> (#[trigger] orig[k]).valid(),
            forall|id: int| 0 <= id < 8192 ==>
                (#[trigger] a.is_live(id) <==> live_after(
                    orig.take(orig.len() - rest@.len()), id)),
            forall|id: int| 0 <= id < 8192 && #[trigger] a.is_live(id) ==>
                a.value_at(id) == value_after(orig.take(orig.len() - rest@.len()), id),
        decreases rest@.len(),
    {
        let ghost done = orig.take(orig.len() - rest@.len());
        let op = rest.remove(0);
        proof {
            assert(op == orig[done.len() as int]);
            assert(orig.take(done.len() as int + 1).drop_last() =~= done);
            assert(orig.take(done.len() as int + 1).last() == op);
            assert(rest@ =~= orig.subrange(orig.len() - rest@.len(), orig.len() as int));
        }
        match op {
            ArrayOp::Insert { id, data } => {
                let _ = a.set_in_place(id, data);
            },
            ArrayOp::Remove { id } => {
                let _ = a.delete_in_place(id);
            },
        }
    }
    proof {
        assert(orig.take(orig.len() as int) =~= orig);
    }
    a
}

} // verus!
