//! Archetype directory: a sequence of `(archetype id, sparse array)` pairs
//! kept sorted by archetype id, looked up by binary search and extended
//! lazily on first write for a new archetype. Each archetype's array is
//! owned by the directory and never moves once created.

use vstd::prelude::*;
use crate::sparse_array::SyncSparseArray;
use crate::sparse_array::MAX_ITEMS_PER_ARRAY;

verus! {

/// Owner of one archetype's sparse array inside the directory.
pub struct SyncSparseArrayChunk<T> {
    pub arr: SyncSparseArray<T>,
}

/// The sorted directory from archetype id to that archetype's array.
pub struct SyncSparseChunkedStore<T> {
    pub chunks: Vec<(usize, SyncSparseArrayChunk<T>)>,
}

impl<T> SyncSparseChunkedStore<T> {
    pub open spec fn wf(self) -> bool {
        &&& forall|i: int, j: int| 0 <= i < j < self.chunks@.len() ==>
            #[trigger] self.chunks@[i].0 < #[trigger] self.chunks@[j].0
        &&& forall|i: int| 0 <= i < self.chunks@.len() ==>
            (#[trigger] self.chunks@[i].1).arr.wf()
    }

    /// The directory holds an entry for this archetype.
    pub open spec fn has_arch(self, arch: int) -> bool {
        exists|i: int| 0 <= i < self.chunks@.len() && #[trigger] self.chunks@[i].0 == arch
    }

    /// Slot `id` of archetype `arch` holds a live value.
    pub open spec fn is_live(self, arch: int, id: int) -> bool {
        exists|i: int| 0 <= i < self.chunks@.len() && #[trigger] self.chunks@[i].0 == arch
            && self.chunks@[i].1.arr.is_live(id)
    }

    /// Number of live entries across the whole directory.
    pub open spec fn live_count(self) -> int {
        count_chunks(self.chunks@)
    }

    /// Directory position of this archetype's entry.
    pub open spec fn arch_index(self, arch: int) -> int
        recommends
            self.has_arch(arch),
    {
        choose|i: int| 0 <= i < self.chunks@.len() && (#[trigger] self.chunks@[i].0) == arch
    }

    /// This archetype's array.
    pub open spec fn arch_array(self, arch: int) -> SyncSparseArray<T>
        recommends
            self.has_arch(arch),
    {
        self.chunks@[self.arch_index(arch)].1.arr
    }

    pub open spec fn value_at(self, arch: int, id: int) -> T
        recommends
            self.is_live(arch, id),
    {
        let i = choose|i: int| 0 <= i < self.chunks@.len()
            && #[trigger] self.chunks@[i].0 == arch && self.chunks@[i].1.arr.is_live(id);
        self.chunks@[i].1.arr.value_at(id)
    }

    /// An empty directory.
    pub fn new() -> (r: SyncSparseChunkedStore<T>)
        ensures
            r.wf(),
            r.chunks@.len() == 0,
            forall|arch: int, id: int| !r.is_live(arch, id),
            r.live_count() == 0,
    {
        SyncSparseChunkedStore { chunks: Vec::new() }
    }

    /// Number of archetype entries.
    pub fn chunk_count(&self) -> (r: usize)
        ensures
            r == self.chunks@.len(),
    {
        self.chunks.len()
    }

    /// The archetype id of the entry at directory position `i`.
    pub fn arch_id_at(&self, i: usize) -> (r: usize)
        requires
            i < self.chunks@.len(),
        ensures
            r == self.chunks@[i as int].0,
    {
        self.chunks[i].0
    }

    /// Read-only access to the array at directory position `i`.
    pub fn array_at(&self, i: usize) -> (r: &SyncSparseArray<T>)
        requires
            i < self.chunks@.len(),
        ensures
            *r == self.chunks@[i as int].1.arr,
    {
        &self.chunks[i].1.arr
    }

    /// Binary search over the sorted directory. Returns whether the
    /// archetype is present and, if so, its position; if not, the position
    /// where it would be inserted to keep the directory sorted.
    pub fn search(&self, arch: usize) -> (r: (bool, usize))
        requires
            self.wf(),
        ensures
            r.0 ==> r.1 < self.chunks@.len() && self.chunks@[r.1 as int].0 == arch,
            r.0 == self.has_arch(arch as int),
            !r.0 ==> r.1 <= self.chunks@.len()
                && (forall|k: int| 0 <= k < r.1 ==> #[trigger] self.chunks@[k].0 < arch)
                && (forall|k: int| r.1 <= k < self.chunks@.len() ==>
                    #[trigger] self.chunks@[k].0 > arch),
    {
        let mut lo: usize = 0;
        let mut hi: usize = self.chunks.len();
        while lo < hi
            invariant
                self.wf(),
                lo <= hi <= self.chunks@.len(),
                forall|k: int| 0 <= k < lo ==> #[trigger] self.chunks@[k].0 < arch,
                forall|k: int| hi <= k < self.chunks@.len() ==>
                    #[trigger] self.chunks@[k].0 > arch,
            decreases hi - lo,
        {
            let mid: usize = lo + (hi - lo) / 2;
            let key: usize = self.chunks[mid].0;
            if key == arch {
                return (true, mid);
            } else if key < arch {
                lo = mid + 1;
            } else {
                hi = mid;
            }
        }
        proof {
            assert(!self.has_arch(arch as int)) by {
                if self.has_arch(arch as int) {
                    let i = choose|i: int| 0 <= i < self.chunks@.len()
                        && #[trigger] self.chunks@[i].0 == arch;
                    assert(self.chunks@[i].0 < arch || self.chunks@[i].0 > arch);
                }
            }
        }
        (false, lo)
    }

    /// Position of the entry for `arch`, creating a fresh empty array at the
    /// sorted position on first use. Existing entries keep their order; on a
    /// miss, entries at or after the insertion point shift one place up.
    pub fn get_or_insert(&mut self, arch: usize) -> (i: usize)
        requires
            old(self).wf(),
        ensures
            final(self).wf(),
            i < final(self).chunks@.len(),
            final(self).chunks@[i as int].0 == arch,
            old(self).has_arch(arch as int) ==> *final(self) == *old(self),
            !old(self).has_arch(arch as int) ==> {
                &&& final(self).chunks@.len() == old(self).chunks@.len() + 1
                &&& (forall|k: int| 0 <= k < i ==>
                    final(self).chunks@[k] == old(self).chunks@[k])
                &&& (forall|k: int| i < k < final(self).chunks@.len() ==>
                    final(self).chunks@[k] == old(self).chunks@[k - 1])
                &&& final(self).chunks@[i as int].1.arr.wf()
                &&& (forall|id: int| 0 <= id < MAX_ITEMS_PER_ARRAY ==>
                    !final(self).chunks@[i as int].1.arr.is_live(id))
                &&& final(self).chunks@[i as int].1.arr.min_existed_id
                    == crate::sparse_array::RANGE_EMPTY_MIN
                &&& final(self).chunks@[i as int].1.arr.max_existed_id == 0
                &&& final(self).chunks@[i as int].1.arr.min_updated_id
                    == crate::sparse_array::RANGE_EMPTY_MIN
                &&& final(self).chunks@[i as int].1.arr.max_updated_id == 0
                &&& !final(self).chunks@[i as int].1.arr.is_updated
            },
            final(self).live_count() == old(self).live_count(),
    {
        let (found, pos) = self.search(arch);
        if found {
            pos
        } else {
            let fresh: SyncSparseArray<T> = SyncSparseArray::new();
            self.chunks.insert(pos, (arch, SyncSparseArrayChunk { arr: fresh }));
            proof {
                lemma_count_chunks_insert(old(self).chunks@, pos as int,
                    self.chunks@[pos as int]);
                assert(self.chunks@ =~= old(self).chunks@.insert(pos as int,
                    self.chunks@[pos as int]));
                assert forall|a: int, b: int| 0 <= a < b < self.chunks@.len() implies
                    #[trigger] self.chunks@[a].0 < #[trigger] self.chunks@[b].0 by {
                    if a < pos && b == pos {
                        assert(old(self).chunks@[a].0 < arch);
                    } else if a == pos && b > pos {
                        assert(old(self).chunks@[b - 1].0 > arch);
                    }
                }
            }
            pos
        }
    }
}

/// Number of live entries across a sequence of directory chunks.
pub open spec fn count_chunks<T>(cs: Seq<(usize, SyncSparseArrayChunk<T>)>) -> int
    decreases cs.len(),
{
    if cs.len() <= 0 {
        0
    } else {
        count_chunks(cs.drop_last()) + cs.last().1.arr.live_count()
    }
}

/// Replacing one chunk moves the directory count by the difference of the
/// two arrays' counts.
pub proof fn lemma_count_chunks_update<T>(
    cs: Seq<(usize, SyncSparseArrayChunk<T>)>,
    i: int,
    x: (usize, SyncSparseArrayChunk<T>),
)
    requires
        0 <= i < cs.len(),
    ensures
        count_chunks(cs.update(i, x)) == count_chunks(cs)
            - cs[i].1.arr.live_count() + x.1.arr.live_count(),
    decreases cs.len(),
{
    if i == cs.len() - 1 {
        assert(cs.update(i, x).drop_last() =~= cs.drop_last());
    } else {
        assert(cs.update(i, x).drop_last() =~= cs.drop_last().update(i, x));
        lemma_count_chunks_update(cs.drop_last(), i, x);
    }
}

/// Inserting a chunk adds its array's count, wherever it lands.
pub proof fn lemma_count_chunks_insert<T>(
    cs: Seq<(usize, SyncSparseArrayChunk<T>)>,
    i: int,
    x: (usize, SyncSparseArrayChunk<T>),
)
    requires
        0 <= i <= cs.len(),
    ensures
        count_chunks(cs.insert(i, x)) == count_chunks(cs) + x.1.arr.live_count(),
    decreases cs.len(),
{
    if i == cs.len() {
        assert(cs.insert(i, x).drop_last() =~= cs);
        assert(cs.insert(i, x).last() == x);
    } else {
        assert(cs.insert(i, x).drop_last() =~= cs.drop_last().insert(i, x));
        assert(cs.insert(i, x).last() == cs.last());
        lemma_count_chunks_insert(cs.drop_last(), i, x);
    }
}

/// Directories of equal length whose arrays hold the same buckets count the
/// same.
pub proof fn lemma_count_chunks_congruent<T>(
    cs1: Seq<(usize, SyncSparseArrayChunk<T>)>,
    cs2: Seq<(usize, SyncSparseArrayChunk<T>)>,
)
    requires
        cs1.len() == cs2.len(),
        forall|i: int| 0 <= i < cs1.len() ==>
            (#[trigger] cs2[i]).1.arr.live_count() == cs1[i].1.arr.live_count(),
    ensures
        count_chunks(cs1) == count_chunks(cs2),
    decreases cs1.len(),
{
    if cs1.len() > 0 {
        assert forall|i: int| 0 <= i < cs1.drop_last().len() implies
            (#[trigger] cs2.drop_last()[i]).1.arr.live_count()
                == cs1.drop_last()[i].1.arr.live_count() by {
            assert(cs2[i].1.arr.live_count() == cs1[i].1.arr.live_count());
        }
        lemma_count_chunks_congruent(cs1.drop_last(), cs2.drop_last());
    }
}

/// Exhibiting the directory position of an archetype pins `arch_index` and
/// `arch_array` down to it.
pub proof fn lemma_arch_index_of<T>(s: SyncSparseChunkedStore<T>, arch: int, i: int)
    requires
        s.wf(),
        0 <= i < s.chunks@.len(),
        s.chunks@[i].0 == arch,
    ensures
        s.has_arch(arch),
        s.arch_index(arch) == i,
        s.arch_array(arch) == s.chunks@[i].1.arr,
{
    assert(s.has_arch(arch));
    let w = s.arch_index(arch);
    assert(s.chunks@[w].0 == arch);
    lemma_arch_index_unique(s, w, i);
}

/// Archetype ids are unique in the sorted directory.
pub proof fn lemma_arch_index_unique<T>(s: SyncSparseChunkedStore<T>, i: int, k: int)
    requires
        s.wf(),
        0 <= i < s.chunks@.len(),
        0 <= k < s.chunks@.len(),
        s.chunks@[i].0 == s.chunks@[k].0,
    ensures
        i == k,
{
    if i < k {
        assert(s.chunks@[i].0 < s.chunks@[k].0);
    }
    if k < i {
        assert(s.chunks@[k].0 < s.chunks@[i].0);
    }
}

/// A directory that gained a fresh, everywhere-empty chunk for a new
/// archetype holds exactly the entries it held before.
pub proof fn lemma_fresh_chunk_preserves<T>(
    pre: SyncSparseChunkedStore<T>,
    mid: SyncSparseChunkedStore<T>,
    i: int,
)
    requires
        pre.wf(),
        mid.wf(),
        0 <= i < mid.chunks@.len(),
        mid.chunks@.len() == pre.chunks@.len() + 1,
        forall|k: int| 0 <= k < i ==> mid.chunks@[k] == pre.chunks@[k],
        forall|k: int| i < k < mid.chunks@.len() ==> mid.chunks@[k] == pre.chunks@[k - 1],
        forall|jd: int| 0 <= jd < 8192 ==> !mid.chunks@[i].1.arr.is_live(jd),
        !pre.has_arch(mid.chunks@[i].0 as int),
    ensures
        forall|a: int, j: int| 0 <= j < 8192 ==>
            (#[trigger] mid.is_live(a, j) <==> pre.is_live(a, j)),
        forall|a: int, j: int| 0 <= j < 8192 && #[trigger] pre.is_live(a, j) ==>
            mid.value_at(a, j) == pre.value_at(a, j),
{
    assert forall|a: int, j: int| 0 <= j < 8192 implies
        (#[trigger] mid.is_live(a, j) <==> pre.is_live(a, j)) by {
        if pre.is_live(a, j) {
            let k = choose|k: int| 0 <= k < pre.chunks@.len()
                && #[trigger] pre.chunks@[k].0 == a && pre.chunks@[k].1.arr.is_live(j);
            let k2 = if k < i { k } else { k + 1 };
            assert(mid.chunks@[k2] == pre.chunks@[k]);
            assert(mid.chunks@[k2].0 == a);
            assert(mid.chunks@[k2].1.arr.is_live(j));
            assert(mid.is_live(a, j));
        }
        if mid.is_live(a, j) {
            let k = choose|k: int| 0 <= k < mid.chunks@.len()
                && #[trigger] mid.chunks@[k].0 == a && mid.chunks@[k].1.arr.is_live(j);
            assert(k != i);
            let k0 = if k < i { k } else { k - 1 };
            assert(pre.chunks@[k0] == mid.chunks@[k]);
            assert(pre.chunks@[k0].0 == a);
            assert(pre.chunks@[k0].1.arr.is_live(j));
            assert(pre.is_live(a, j));
        }
    }
    assert forall|a: int, j: int| 0 <= j < 8192 && #[trigger] pre.is_live(a, j) implies
        mid.value_at(a, j) == pre.value_at(a, j) by {
        let k = choose|k: int| 0 <= k < pre.chunks@.len()
            && #[trigger] pre.chunks@[k].0 == a && pre.chunks@[k].1.arr.is_live(j);
        lemma_value_at_index(pre, a, j, k);
        let k2 = if k < i { k } else { k + 1 };
        assert(mid.chunks@[k2] == pre.chunks@[k]);
        lemma_value_at_index(mid, a, j, k2);
    }
}

/// Whoever exhibits the directory position of a live entry pins down
/// `value_at` there.
pub proof fn lemma_value_at_index<T>(s: SyncSparseChunkedStore<T>, a: int, j: int, k: int)
    requires
        s.wf(),
        0 <= k < s.chunks@.len(),
        s.chunks@[k].0 == a,
        s.chunks@[k].1.arr.is_live(j),
    ensures
        s.is_live(a, j),
        s.value_at(a, j) == s.chunks@[k].1.arr.value_at(j),
{
    assert(s.is_live(a, j));
    let w = choose|w: int| 0 <= w < s.chunks@.len()
        && #[trigger] s.chunks@[w].0 == a && s.chunks@[w].1.arr.is_live(j);
    lemma_arch_index_unique(s, w, k);
}

/// Replacing the array at one directory position touches exactly that
/// archetype's entries, and the store's view of that archetype is exactly
/// the array's view.
pub proof fn lemma_replace_chunk<T>(
    pre: SyncSparseChunkedStore<T>,
    post: SyncSparseChunkedStore<T>,
    i: int,
)
    requires
        pre.wf(),
        post.wf(),
        0 <= i < pre.chunks@.len(),
        post.chunks@.len() == pre.chunks@.len(),
        forall|k: int| 0 <= k < pre.chunks@.len() && k != i ==>
            post.chunks@[k] == pre.chunks@[k],
        post.chunks@[i].0 == pre.chunks@[i].0,
    ensures
        forall|a: int, j: int| a != pre.chunks@[i].0 ==>
            (#[trigger] post.is_live(a, j) <==> pre.is_live(a, j)),
        forall|a: int, j: int| a != pre.chunks@[i].0 && #[trigger] pre.is_live(a, j) ==>
            post.value_at(a, j) == pre.value_at(a, j),
        forall|j: int| #[trigger] post.is_live(pre.chunks@[i].0 as int, j) <==>
            post.chunks@[i].1.arr.is_live(j),
        forall|j: int| #[trigger] pre.is_live(pre.chunks@[i].0 as int, j) <==>
            pre.chunks@[i].1.arr.is_live(j),
        forall|j: int| #[trigger] post.chunks@[i].1.arr.is_live(j) ==>
            post.value_at(pre.chunks@[i].0 as int, j) == post.chunks@[i].1.arr.value_at(j),
        forall|j: int| #[trigger] pre.chunks@[i].1.arr.is_live(j) ==>
            pre.value_at(pre.chunks@[i].0 as int, j) == pre.chunks@[i].1.arr.value_at(j),
{
    let arch = pre.chunks@[i].0 as int;
    assert forall|a: int, j: int| a != arch implies
        (#[trigger] post.is_live(a, j) <==> pre.is_live(a, j)) by {
        if pre.is_live(a, j) {
            let k = choose|k: int| 0 <= k < pre.chunks@.len()
                && #[trigger] pre.chunks@[k].0 == a && pre.chunks@[k].1.arr.is_live(j);
            assert(k != i);
            assert(post.chunks@[k] == pre.chunks@[k]);
            assert(post.chunks@[k].0 == a);
            assert(post.chunks@[k].1.arr.is_live(j));
            assert(post.is_live(a, j));
        }
        if post.is_live(a, j) {
            let k = choose|k: int| 0 <= k < post.chunks@.len()
                && #[trigger] post.chunks@[k].0 == a && post.chunks@[k].1.arr.is_live(j);
            assert(k != i);
            assert(post.chunks@[k] == pre.chunks@[k]);
            assert(pre.chunks@[k].0 == a);
            assert(pre.chunks@[k].1.arr.is_live(j));
            assert(pre.is_live(a, j));
        }
    }
    assert forall|a: int, j: int| a != arch && #[trigger] pre.is_live(a, j) implies
        post.value_at(a, j) == pre.value_at(a, j) by {
        let k = choose|k: int| 0 <= k < pre.chunks@.len()
            && #[trigger] pre.chunks@[k].0 == a && pre.chunks@[k].1.arr.is_live(j);
        assert(k != i);
        lemma_value_at_index(pre, a, j, k);
        assert(post.chunks@[k] == pre.chunks@[k]);
        lemma_value_at_index(post, a, j, k);
    }
    assert forall|j: int| #[trigger] post.is_live(arch, j) implies
        post.chunks@[i].1.arr.is_live(j) by {
        let k = choose|k: int| 0 <= k < post.chunks@.len()
            && #[trigger] post.chunks@[k].0 == arch && post.chunks@[k].1.arr.is_live(j);
        lemma_arch_index_unique(post, k, i);
    }
    assert forall|j: int| #[trigger] pre.is_live(arch, j) implies
        pre.chunks@[i].1.arr.is_live(j) by {
        let k = choose|k: int| 0 <= k < pre.chunks@.len()
            && #[trigger] pre.chunks@[k].0 == arch && pre.chunks@[k].1.arr.is_live(j);
        lemma_arch_index_unique(pre, k, i);
    }
    assert forall|j: int| #[trigger] post.chunks@[i].1.arr.is_live(j) implies
        post.value_at(arch, j) == post.chunks@[i].1.arr.value_at(j) by {
        lemma_value_at_index(post, arch, j, i);
    }
    assert forall|j: int| #[trigger] pre.chunks@[i].1.arr.is_live(j) implies
        pre.value_at(arch, j) == pre.chunks@[i].1.arr.value_at(j) by {
        lemma_value_at_index(pre, arch, j, i);
    }
}

} // verus!
