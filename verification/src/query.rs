//! Query iteration: walk one or more typed component stores in lock-step
//! over archetypes common to all of them, intersecting occupancy masks
//! bucket by bucket. Scans run only between the stores' conservative
//! existence bounds, which by the range invariant never exclude a live
//! slot, so every shared entity is enumerated.

use vstd::prelude::*;
use crate::components::Components;
use crate::sparse_array::SyncSparseArray;
use crate::sparse_array::bit_at;

verus! {

/// `id` is live in both arrays.
pub open spec fn common_live2<A, B>(
    x: SyncSparseArray<A>,
    y: SyncSparseArray<B>,
    id: int,
) -> bool {
    0 <= id < 8192 && x.is_live(id) && y.is_live(id)
}

proof fn lemma_div64(b: int, s: int)
    requires
        0 <= b,
        0 <= s < 64,
    ensures
        (b * 64 + s) / 64 == b,
        (b * 64 + s) % 64 == s,
{
    vstd::arithmetic::div_mod::lemma_fundamental_div_mod_converse(b * 64 + s, 64, b, s);
}

proof fn lemma_and_bits(a: u64, b: u64, j: u64)
    by (bit_vector)
    requires
        j < 64,
    ensures
        (a & b) & (1u64 << j) != 0 <==> (a & (1u64 << j) != 0 && b & (1u64 << j) != 0),
{
}

/// The ids live in both arrays, in ascending order: the bitwise AND of the
/// two occupancy masks is walked over the intersection of the two existence
/// ranges, so the result enumerates exactly the shared ids.
pub fn common_live_ids<A, B>(x: &SyncSparseArray<A>, y: &SyncSparseArray<B>) -> (r: Vec<usize>)
    requires
        x.wf(),
        y.wf(),
    ensures
        forall|k: int| 0 <= k < r@.len() ==> common_live2(*x, *y, #[trigger] r@[k] as int),
        forall|id: int| common_live2(*x, *y, id) ==>
            exists|k: int| 0 <= k < r@.len() && #[trigger] r@[k] == id,
        forall|k1: int, k2: int| 0 <= k1 < k2 < r@.len() ==>
            #[trigger] r@[k1] < #[trigger] r@[k2],
{
    let mut r: Vec<usize> = Vec::new();
    let lo_id: usize = if x.min_relaxed() > y.min_relaxed() {
        x.min_relaxed()
    } else {
        y.min_relaxed()
    };
    let hi_id: usize = if x.max_relaxed() < y.max_relaxed() {
        x.max_relaxed()
    } else {
        y.max_relaxed()
    };
    if lo_id > hi_id {
        proof {
            assert forall|id: int| !common_live2(*x, *y, id) by {
                if common_live2(*x, *y, id) {
                    assert(x.min_existed_id <= id && id <= x.max_existed_id);
                    assert(y.min_existed_id <= id && id <= y.max_existed_id);
                }
            }
        }
        return r;
    }
    let xn: usize = x.bucket_count();
    let yn: usize = y.bucket_count();
    if xn == 0 || yn == 0 {
        return r;
    }
    let mut b: usize = lo_id / 64;
    let mut b_last: usize = hi_id / 64;
    if b_last >= xn {
        b_last = xn - 1;
    }
    if b_last >= yn {
        b_last = yn - 1;
    }
    proof {
        assert forall|id: int| common_live2(*x, *y, id) implies
            b * 64 <= id && id / 64 <= b_last by {
            assert(x.min_existed_id <= id && y.min_existed_id <= id);
            assert(id <= x.max_existed_id && id <= y.max_existed_id);
            vstd::arithmetic::div_mod::lemma_fundamental_div_mod(lo_id as int, 64);
            vstd::arithmetic::div_mod::lemma_fundamental_div_mod(id, 64);
            vstd::arithmetic::div_mod::lemma_div_is_ordered(lo_id as int, id, 64);
            vstd::arithmetic::div_mod::lemma_div_is_ordered(id, hi_id as int, 64);
        }
    }
    if b > b_last {
        proof {
            assert forall|id: int| !common_live2(*x, *y, id) by {
                if common_live2(*x, *y, id) {
                    vstd::arithmetic::div_mod::lemma_fundamental_div_mod(id, 64);
                }
            }
        }
        return r;
    }
    while b <= b_last
        invariant
            x.wf(),
            y.wf(),
            b_last < x.buckets@.len(),
            b_last < y.buckets@.len(),
            b_last < 128,
            b <= b_last + 1,
            forall|k: int| 0 <= k < r@.len() ==> common_live2(*x, *y, #[trigger] r@[k] as int),
            forall|k: int| 0 <= k < r@.len() ==> (#[trigger] r@[k] as int) < b * 64,
            forall|id: int| common_live2(*x, *y, id) && id < b * 64 ==>
                exists|k: int| 0 <= k < r@.len() && #[trigger] r@[k] == id,
            forall|id: int| common_live2(*x, *y, id) ==> id / 64 <= b_last,
            forall|k1: int, k2: int| 0 <= k1 < k2 < r@.len() ==>
                #[trigger] r@[k1] < #[trigger] r@[k2],
        decreases b_last + 1 - b,
    {
        let xbits: u64 = x.get_bits(b * 64);
        let ybits: u64 = y.get_bits(b * 64);
        let mask: u64 = xbits & ybits;
        proof {
            lemma_div64(b as int, 0);
        }
        let mut s: usize = 0;
        while s < 64
            invariant
                x.wf(),
                y.wf(),
                b < x.buckets@.len(),
                b < y.buckets@.len(),
                b < 128,
                s <= 64,
                mask == x.buckets@[b as int].bits & y.buckets@[b as int].bits,
                forall|k: int| 0 <= k < r@.len() ==> common_live2(*x, *y, #[trigger] r@[k] as int),
                forall|k: int| 0 <= k < r@.len() ==> (#[trigger] r@[k] as int) < b * 64 + s,
                forall|id: int| common_live2(*x, *y, id) && id < b * 64 + s ==>
                    exists|k: int| 0 <= k < r@.len() && #[trigger] r@[k] == id,
                forall|k1: int, k2: int| 0 <= k1 < k2 < r@.len() ==>
                    #[trigger] r@[k1] < #[trigger] r@[k2],
            decreases 64 - s,
        {
            let id: usize = b * 64 + s;
            proof {
                lemma_div64(b as int, s as int);
                lemma_and_bits(x.buckets@[b as int].bits, y.buckets@[b as int].bits, s as u64);
            }
            if mask & (1u64 << (s as u64)) != 0 {
                proof {
                    assert(bit_at(x.buckets@[b as int].bits, s as int));
                    assert(bit_at(y.buckets@[b as int].bits, s as int));
                    assert(x.is_live(id as int));
                    assert(y.is_live(id as int));
                    assert forall|k: int| 0 <= k < r@.len() implies
                        #[trigger] r@[k] < id by {}
                }
                let ghost r0 = r@;
                r.push(id);
                proof {
                    assert(r@ == r0.push(id));
                    assert forall|id2: int| common_live2(*x, *y, id2) && id2 < b * 64 + s + 1
                        implies exists|k: int| 0 <= k < r@.len() && #[trigger] r@[k] == id2 by {
                        if id2 == id {
                            assert(r@[r0.len() as int] == id);
                        } else {
                            let k = choose|k: int| 0 <= k < r0.len() && #[trigger] r0[k] == id2;
                            assert(r@[k] == id2);
                        }
                    }
                }
            } else {
                proof {
                    assert(!(bit_at(x.buckets@[b as int].bits, s as int)
                        && bit_at(y.buckets@[b as int].bits, s as int)));
                    assert forall|id2: int| common_live2(*x, *y, id2) && id2 < b * 64 + s + 1
                        implies exists|k: int| 0 <= k < r@.len() && #[trigger] r@[k] == id2 by {
                        if id2 == id {
                            assert(x.buckets@[id2 / 64].live(id2 % 64));
                            assert(bit_at(x.buckets@[id2 / 64].bits, id2 % 64));
                            assert(y.buckets@[id2 / 64].live(id2 % 64));
                            assert(bit_at(y.buckets@[id2 / 64].bits, id2 % 64));
                            assert(false);
                        }
                    }
                }
            }
            s = s + 1;
        }
        proof {
            assert(b * 64 + 64 == (b + 1) * 64);
        }
        b = b + 1;
    }
    proof {
        assert forall|id: int| common_live2(*x, *y, id) implies
            exists|k: int| 0 <= k < r@.len() && #[trigger] r@[k] == id by {
            assert(id / 64 <= b_last);
            vstd::arithmetic::div_mod::lemma_fundamental_div_mod(id, 64);
            assert(id < b * 64);
        }
    }
    r
}

/// The ids live in one array, in ascending order.
pub fn live_ids<A>(x: &SyncSparseArray<A>) -> (r: Vec<usize>)
    requires
        x.wf(),
    ensures
        forall|k: int| 0 <= k < r@.len() ==> 0 <= (#[trigger] r@[k] as int) < 8192
            && x.is_live(r@[k] as int),
        forall|id: int| 0 <= id < 8192 && x.is_live(id) ==>
            exists|k: int| 0 <= k < r@.len() && #[trigger] r@[k] == id,
        forall|k1: int, k2: int| 0 <= k1 < k2 < r@.len() ==>
            #[trigger] r@[k1] < #[trigger] r@[k2],
{
    let mut r: Vec<usize> = Vec::new();
    let lo_id: usize = x.min_relaxed();
    let hi_id: usize = x.max_relaxed();
    if lo_id > hi_id {
        return r;
    }
    let xn: usize = x.bucket_count();
    if xn == 0 {
        return r;
    }
    let mut b: usize = lo_id / 64;
    let mut b_last: usize = hi_id / 64;
    if b_last >= xn {
        b_last = xn - 1;
    }
    proof {
        assert forall|id: int| 0 <= id < 8192 && x.is_live(id) implies
            b * 64 <= id && id / 64 <= b_last by {
            assert(x.min_existed_id <= id);
            assert(id <= x.max_existed_id);
            vstd::arithmetic::div_mod::lemma_fundamental_div_mod(lo_id as int, 64);
            vstd::arithmetic::div_mod::lemma_fundamental_div_mod(id, 64);
            vstd::arithmetic::div_mod::lemma_div_is_ordered(lo_id as int, id, 64);
            vstd::arithmetic::div_mod::lemma_div_is_ordered(id, hi_id as int, 64);
        }
    }
    if b > b_last {
        proof {
            assert forall|id: int| 0 <= id < 8192 implies !x.is_live(id) by {
                if x.is_live(id) {
                    vstd::arithmetic::div_mod::lemma_fundamental_div_mod(id, 64);
                }
            }
        }
        return r;
    }
    while b <= b_last
        invariant
            x.wf(),
            b_last < x.buckets@.len(),
            b_last < 128,
            b <= b_last + 1,
            forall|k: int| 0 <= k < r@.len() ==> 0 <= (#[trigger] r@[k] as int) < 8192
                && x.is_live(r@[k] as int),
            forall|k: int| 0 <= k < r@.len() ==> (#[trigger] r@[k] as int) < b * 64,
            forall|id: int| 0 <= id < 8192 && x.is_live(id) && id < b * 64 ==>
                exists|k: int| 0 <= k < r@.len() && #[trigger] r@[k] == id,
            forall|id: int| 0 <= id < 8192 && x.is_live(id) ==> id / 64 <= b_last,
            forall|k1: int, k2: int| 0 <= k1 < k2 < r@.len() ==>
                #[trigger] r@[k1] < #[trigger] r@[k2],
        decreases b_last + 1 - b,
    {
        let mask: u64 = x.get_bits(b * 64);
        proof {
            lemma_div64(b as int, 0);
        }
        let mut s: usize = 0;
        while s < 64
            invariant
                x.wf(),
                b < x.buckets@.len(),
                b < 128,
                s <= 64,
                mask == x.buckets@[b as int].bits,
                forall|k: int| 0 <= k < r@.len() ==> 0 <= (#[trigger] r@[k] as int) < 8192
                    && x.is_live(r@[k] as int),
                forall|k: int| 0 <= k < r@.len() ==> (#[trigger] r@[k] as int) < b * 64 + s,
                forall|id: int| 0 <= id < 8192 && x.is_live(id) && id < b * 64 + s ==>
                    exists|k: int| 0 <= k < r@.len() && #[trigger] r@[k] == id,
                forall|k1: int, k2: int| 0 <= k1 < k2 < r@.len() ==>
                    #[trigger] r@[k1] < #[trigger] r@[k2],
            decreases 64 - s,
        {
            let id: usize = b * 64 + s;
            proof {
                lemma_div64(b as int, s as int);
            }
            if mask & (1u64 << (s as u64)) != 0 {
                proof {
                    assert(bit_at(x.buckets@[b as int].bits, s as int));
                    assert(x.is_live(id as int));
                    assert forall|k: int| 0 <= k < r@.len() implies
                        #[trigger] r@[k] < id by {}
                }
                let ghost r0 = r@;
                r.push(id);
                proof {
                    assert(r@ == r0.push(id));
                    assert forall|id2: int| 0 <= id2 < 8192 && x.is_live(id2)
                        && id2 < b * 64 + s + 1
                        implies exists|k: int| 0 <= k < r@.len() && #[trigger] r@[k] == id2 by {
                        if id2 == id {
                            assert(r@[r0.len() as int] == id);
                        } else {
                            let k = choose|k: int| 0 <= k < r0.len() && #[trigger] r0[k] == id2;
                            assert(r@[k] == id2);
                        }
                    }
                }
            } else {
                proof {
                    assert forall|id2: int| 0 <= id2 < 8192 && x.is_live(id2)
                        && id2 < b * 64 + s + 1
                        implies exists|k: int| 0 <= k < r@.len() && #[trigger] r@[k] == id2 by {
                        if id2 == id {
                            assert(x.buckets@[id2 / 64].live(id2 % 64));
                            assert(bit_at(x.buckets@[id2 / 64].bits, id2 % 64));
                            assert(false);
                        }
                    }
                }
            }
            s = s + 1;
        }
        proof {
            assert(b * 64 + 64 == (b + 1) * 64);
        }
        b = b + 1;
    }
    proof {
        assert forall|id: int| 0 <= id < 8192 && x.is_live(id) implies
            exists|k: int| 0 <= k < r@.len() && #[trigger] r@[k] == id by {
            assert(id / 64 <= b_last);
            vstd::arithmetic::div_mod::lemma_fundamental_div_mod(id, 64);
            assert(id < b * 64);
        }
    }
    r
}

/// The directory of `a` holds `arch` at some position below `i`.
pub open spec fn arch_seen<A>(a: Components<A>, i: int, arch: int) -> bool {
    exists|ka: int| 0 <= ka < i && (#[trigger] a.store.chunks@[ka].0) == arch
}

/// `(arch, id)` appears among the result pairs.
pub open spec fn pair_in(r: Seq<(usize, usize)>, arch: int, id: int) -> bool {
    exists|k: int| 0 <= k < r.len() && (#[trigger] r[k]).0 == arch && r[k].1 == id
}

/// Strict lexicographic order on (archetype, id) pairs.
pub open spec fn lex_less(p: (usize, usize), q: (usize, usize)) -> bool {
    p.0 < q.0 || (p.0 == q.0 && p.1 < q.1)
}

/// Append one archetype's ascending id batch to the result, preserving the
/// lexicographic order: every existing entry lies under a smaller archetype.
fn push_arch_ids(r: &mut Vec<(usize, usize)>, arch: usize, ids: &Vec<usize>)
    requires
        forall|q1: int, q2: int| 0 <= q1 < q2 < ids@.len() ==>
            #[trigger] ids@[q1] < #[trigger] ids@[q2],
        forall|k: int| 0 <= k < old(r)@.len() ==> (#[trigger] old(r)@[k]).0 < arch,
        forall|k1: int, k2: int| 0 <= k1 < k2 < old(r)@.len() ==>
            lex_less(#[trigger] old(r)@[k1], #[trigger] old(r)@[k2]),
    ensures
        final(r)@.len() == old(r)@.len() + ids@.len(),
        forall|k: int| 0 <= k < old(r)@.len() ==> #[trigger] final(r)@[k] == old(r)@[k],
        forall|k: int| old(r)@.len() <= k < final(r)@.len() ==>
            #[trigger] final(r)@[k] == (arch, ids@[k - old(r)@.len()]),
        forall|k: int| 0 <= k < final(r)@.len() ==> (#[trigger] final(r)@[k]).0 <= arch,
        forall|k1: int, k2: int| 0 <= k1 < k2 < final(r)@.len() ==>
            lex_less(#[trigger] final(r)@[k1], #[trigger] final(r)@[k2]),
{
    let mut q: usize = 0;
    let n: usize = ids.len();
    while q < n
        invariant
            q <= n,
            n == ids@.len(),
            forall|q1: int, q2: int| 0 <= q1 < q2 < ids@.len() ==>
                #[trigger] ids@[q1] < #[trigger] ids@[q2],
            r@.len() == old(r)@.len() + q,
            forall|k: int| 0 <= k < old(r)@.len() ==> #[trigger] r@[k] == old(r)@[k],
            forall|k: int| 0 <= k < old(r)@.len() ==> (#[trigger] r@[k]).0 < arch,
            forall|k: int| old(r)@.len() <= k < r@.len() ==>
                #[trigger] r@[k] == (arch, ids@[k - old(r)@.len()]),
            forall|k1: int, k2: int| 0 <= k1 < k2 < r@.len() ==>
                lex_less(#[trigger] r@[k1], #[trigger] r@[k2]),
        decreases n - q,
    {
        proof {
            assert forall|k: int| 0 <= k < r@.len() implies
                lex_less(#[trigger] r@[k], (arch, ids@[q as int])) by {
                if k >= old(r)@.len() {
                    let q2 = k - old(r)@.len();
                    assert(r@[k] == (arch, ids@[q2]));
                    assert(ids@[q2] < ids@[q as int]);
                }
            }
        }
        r.push((arch, ids[q]));
        q = q + 1;
    }
}

/// A query over two typed component stores: walks the archetypes common to
/// both directories in lock-step and intersects occupancy masks inside each,
/// returning every `(archetype, id)` pair live in both stores, in ascending
/// lexicographic order, and nothing else.
pub fn query2<A, B>(a: &Components<A>, b: &Components<B>) -> (r: Vec<(usize, usize)>)
    requires
        a.wf(),
        b.wf(),
    ensures
        forall|k: int| 0 <= k < r@.len() ==> {
            let p = #[trigger] r@[k];
            a.is_live(p.0 as int, p.1 as int) && b.is_live(p.0 as int, p.1 as int)
        },
        forall|arch: int, id: int| a.is_live(arch, id) && #[trigger] b.is_live(arch, id) ==>
            pair_in(r@, arch, id),
        forall|k1: int, k2: int| 0 <= k1 < k2 < r@.len() ==>
            lex_less(#[trigger] r@[k1], #[trigger] r@[k2]),
{
    let mut r: Vec<(usize, usize)> = Vec::new();
    let an: usize = a.store.chunk_count();
    let bn: usize = b.store.chunk_count();
    let mut i: usize = 0;
    let mut j: usize = 0;
    while i < an && j < bn
        invariant
            a.wf(),
            b.wf(),
            an == a.store.chunks@.len(),
            bn == b.store.chunks@.len(),
            i <= an,
            j <= bn,
            i < an ==> (forall|kb: int| 0 <= kb < j ==>
                (#[trigger] b.store.chunks@[kb].0) < a.store.chunks@[i as int].0),
            j < bn ==> (forall|ka: int| 0 <= ka < i ==>
                (#[trigger] a.store.chunks@[ka].0) < b.store.chunks@[j as int].0),
            forall|k: int| 0 <= k < r@.len() ==> {
                let p = #[trigger] r@[k];
                a.is_live(p.0 as int, p.1 as int) && b.is_live(p.0 as int, p.1 as int)
            },
            forall|k: int| 0 <= k < r@.len() ==>
                arch_seen(*a, i as int, (#[trigger] r@[k]).0 as int),
            forall|arch: int, id: int| #[trigger] a.is_live(arch, id) && b.is_live(arch, id)
                && arch_seen(*a, i as int, arch) ==> pair_in(r@, arch, id),
            forall|k1: int, k2: int| 0 <= k1 < k2 < r@.len() ==>
                lex_less(#[trigger] r@[k1], #[trigger] r@[k2]),
        decreases an + bn - i - j,
    {
        let ai: usize = a.store.arch_id_at(i);
        let bj: usize = b.store.arch_id_at(j);
        if ai == bj {
            let xa = a.store.array_at(i);
            let yb = b.store.array_at(j);
            let ids = common_live_ids(xa, yb);
            let ghost r0 = r@;
            proof {
                assert forall|k: int| 0 <= k < r0.len() implies
                    (#[trigger] r0[k]).0 < ai by {
                    assert(arch_seen(*a, i as int, r0[k].0 as int));
                    let ka = choose|ka: int| 0 <= ka < i
                        && (#[trigger] a.store.chunks@[ka].0) == r0[k].0;
                    assert(a.store.chunks@[ka].0 < a.store.chunks@[i as int].0);
                }
            }
            push_arch_ids(&mut r, ai, &ids);
            proof {
                // soundness of the new pairs, and the new handled archetype
                assert forall|k: int| 0 <= k < r@.len() implies {
                    let p = #[trigger] r@[k];
                    a.is_live(p.0 as int, p.1 as int) && b.is_live(p.0 as int, p.1 as int)
                } by {
                    if k >= r0.len() {
                        let q = k - r0.len();
                        assert(r@[k] == (ai, ids@[k - r0.len()]));
                        let id = ids@[q] as int;
                        assert(common_live2(*xa, *yb, id));
                        assert(a.store.chunks@[i as int].0 == ai);
                        assert(a.store.chunks@[i as int].1.arr.is_live(id));
                        assert(a.is_live(ai as int, id));
                        assert(b.store.chunks@[j as int].0 == ai);
                        assert(b.store.chunks@[j as int].1.arr.is_live(id));
                        assert(b.is_live(ai as int, id));
                    }
                }
                assert forall|k: int| 0 <= k < r@.len() implies
                    arch_seen(*a, i + 1, (#[trigger] r@[k]).0 as int) by {
                    if k < r0.len() {
                        assert(arch_seen(*a, i as int, r0[k].0 as int));
                        let ka = choose|ka: int| 0 <= ka < i
                            && (#[trigger] a.store.chunks@[ka].0) == r0[k].0;
                        assert(r@[k] == r0[k]);
                        assert(a.store.chunks@[ka].0 == r@[k].0);
                    } else {
                        assert(r@[k] == (ai, ids@[k - r0.len()]));
                        assert(a.store.chunks@[i as int].0 == r@[k].0);
                    }
                }
                assert forall|arch: int, id: int| #[trigger] a.is_live(arch, id)
                    && b.is_live(arch, id) && arch_seen(*a, i + 1, arch) implies
                    pair_in(r@, arch, id) by {
                    let ka = choose|ka: int| 0 <= ka < i + 1
                        && (#[trigger] a.store.chunks@[ka].0) == arch;
                    if ka < i {
                        assert(arch_seen(*a, i as int, arch));
                        assert(pair_in(r0, arch, id));
                        let k = choose|k: int| 0 <= k < r0.len()
                            && (#[trigger] r0[k]).0 == arch && r0[k].1 == id;
                        assert(r@[k] == r0[k]);
                        assert(pair_in(r@, arch, id));
                    } else {
                        assert(arch == ai);
                        let wa = choose|wa: int| 0 <= wa < a.store.chunks@.len()
                            && (#[trigger] a.store.chunks@[wa].0) == arch
                            && a.store.chunks@[wa].1.arr.is_live(id);
                        crate::chunked_store::lemma_arch_index_unique(
                            a.store, wa, i as int);
                        let wb = choose|wb: int| 0 <= wb < b.store.chunks@.len()
                            && (#[trigger] b.store.chunks@[wb].0) == arch
                            && b.store.chunks@[wb].1.arr.is_live(id);
                        crate::chunked_store::lemma_arch_index_unique(
                            b.store, wb, j as int);
                        assert(common_live2(*xa, *yb, id));
                        let q = choose|q: int| 0 <= q < ids@.len()
                            && #[trigger] ids@[q] == id;
                        assert(r@[r0.len() + q] == (ai, ids@[q]));
                        assert(pair_in(r@, arch, id));
                    }
                }
            }
            i = i + 1;
            j = j + 1;
        } else if ai < bj {
            proof {
                assert forall|arch: int, id: int| #[trigger] a.is_live(arch, id)
                    && b.is_live(arch, id) && arch_seen(*a, i + 1, arch) implies
                    pair_in(r@, arch, id) by {
                    let ka = choose|ka: int| 0 <= ka < i + 1
                        && (#[trigger] a.store.chunks@[ka].0) == arch;
                    if ka < i {
                        assert(arch_seen(*a, i as int, arch));
                    }
                    if ka == i {
                        assert(arch == ai);
                        let wb = choose|wb: int| 0 <= wb < b.store.chunks@.len()
                            && (#[trigger] b.store.chunks@[wb].0) == arch
                            && b.store.chunks@[wb].1.arr.is_live(id);
                        if wb < j {
                            assert(b.store.chunks@[wb].0 < a.store.chunks@[i as int].0);
                        } else {
                            assert(b.store.chunks@[j as int].0 <= b.store.chunks@[wb].0);
                        }
                        assert(false);
                    }
                }
                assert forall|k: int| 0 <= k < r@.len() implies
                    arch_seen(*a, i + 1, (#[trigger] r@[k]).0 as int) by {
                    assert(arch_seen(*a, i as int, r@[k].0 as int));
                    let ka = choose|ka: int| 0 <= ka < i
                        && (#[trigger] a.store.chunks@[ka].0) == r@[k].0;
                    assert(0 <= ka < i + 1 && a.store.chunks@[ka].0 == r@[k].0);
                }
            }
            i = i + 1;
        } else {
            j = j + 1;
        }
    }
    proof {
        assert forall|arch: int, id: int| #[trigger] a.is_live(arch, id)
            && b.is_live(arch, id) implies pair_in(r@, arch, id) by {
            let wa = choose|wa: int| 0 <= wa < a.store.chunks@.len()
                && (#[trigger] a.store.chunks@[wa].0) == arch
                && a.store.chunks@[wa].1.arr.is_live(id);
            if wa >= i {
                assert(i < an);
                assert(j == bn);
                let wb = choose|wb: int| 0 <= wb < b.store.chunks@.len()
                    && (#[trigger] b.store.chunks@[wb].0) == arch
                    && b.store.chunks@[wb].1.arr.is_live(id);
                assert(b.store.chunks@[wb].0 < a.store.chunks@[i as int].0);
                if wa > i {
                    assert(a.store.chunks@[i as int].0 < a.store.chunks@[wa].0);
                }
                assert(arch < arch);
            }
        }
    }
    r
}

/// A query over one typed component store: every `(archetype, id)` pair
/// live in it, in ascending lexicographic order.
pub fn query1<A>(a: &Components<A>) -> (r: Vec<(usize, usize)>)
    requires
        a.wf(),
    ensures
        forall|k: int| 0 <= k < r@.len() ==> {
            let p = #[trigger] r@[k];
            a.is_live(p.0 as int, p.1 as int)
        },
        forall|arch: int, id: int| #[trigger] a.is_live(arch, id) ==> pair_in(r@, arch, id),
        forall|k1: int, k2: int| 0 <= k1 < k2 < r@.len() ==>
            lex_less(#[trigger] r@[k1], #[trigger] r@[k2]),
{
    let mut r: Vec<(usize, usize)> = Vec::new();
    let an: usize = a.store.chunk_count();
    let mut i: usize = 0;
    while i < an
        invariant
            a.wf(),
            an == a.store.chunks@.len(),
            i <= an,
            forall|k: int| 0 <= k < r@.len() ==> {
                let p = #[trigger] r@[k];
                a.is_live(p.0 as int, p.1 as int)
            },
            forall|k: int| 0 <= k < r@.len() ==>
                arch_seen(*a, i as int, (#[trigger] r@[k]).0 as int),
            forall|arch: int, id: int| #[trigger] a.is_live(arch, id)
                && arch_seen(*a, i as int, arch) ==> pair_in(r@, arch, id),
            forall|k1: int, k2: int| 0 <= k1 < k2 < r@.len() ==>
                lex_less(#[trigger] r@[k1], #[trigger] r@[k2]),
        decreases an - i,
    {
        let ai: usize = a.store.arch_id_at(i);
        let xa = a.store.array_at(i);
        let ids = live_ids(xa);
        let ghost r0 = r@;
        proof {
            assert forall|k: int| 0 <= k < r0.len() implies
                (#[trigger] r0[k]).0 < ai by {
                assert(arch_seen(*a, i as int, r0[k].0 as int));
                let ka = choose|ka: int| 0 <= ka < i
                    && (#[trigger] a.store.chunks@[ka].0) == r0[k].0;
                assert(a.store.chunks@[ka].0 < a.store.chunks@[i as int].0);
            }
        }
        push_arch_ids(&mut r, ai, &ids);
        proof {
            assert forall|k: int| 0 <= k < r@.len() implies {
                let p = #[trigger] r@[k];
                a.is_live(p.0 as int, p.1 as int)
            } by {
                if k >= r0.len() {
                    assert(r@[k] == (ai, ids@[k - r0.len()]));
                    let id = ids@[k - r0.len()] as int;
                    assert(xa.is_live(id));
                    assert(a.store.chunks@[i as int].0 == ai);
                    assert(a.store.chunks@[i as int].1.arr.is_live(id));
                    assert(a.is_live(ai as int, id));
                }
            }
            assert forall|k: int| 0 <= k < r@.len() implies
                arch_seen(*a, i + 1, (#[trigger] r@[k]).0 as int) by {
                if k < r0.len() {
                    assert(arch_seen(*a, i as int, r0[k].0 as int));
                    let ka = choose|ka: int| 0 <= ka < i
                        && (#[trigger] a.store.chunks@[ka].0) == r0[k].0;
                    assert(r@[k] == r0[k]);
                    assert(a.store.chunks@[ka].0 == r@[k].0);
                } else {
                    assert(r@[k] == (ai, ids@[k - r0.len()]));
                    assert(a.store.chunks@[i as int].0 == r@[k].0);
                }
            }
            assert forall|arch: int, id: int| #[trigger] a.is_live(arch, id)
                && arch_seen(*a, i + 1, arch) implies pair_in(r@, arch, id) by {
                let ka = choose|ka: int| 0 <= ka < i + 1
                    && (#[trigger] a.store.chunks@[ka].0) == arch;
                if ka < i {
                    assert(arch_seen(*a, i as int, arch));
                    assert(pair_in(r0, arch, id));
                    let k = choose|k: int| 0 <= k < r0.len()
                        && (#[trigger] r0[k]).0 == arch && r0[k].1 == id;
                    assert(r@[k] == r0[k]);
                    assert(pair_in(r@, arch, id));
                } else {
                    assert(arch == ai);
                    let wa = choose|wa: int| 0 <= wa < a.store.chunks@.len()
                        && (#[trigger] a.store.chunks@[wa].0) == arch
                        && a.store.chunks@[wa].1.arr.is_live(id);
                    crate::chunked_store::lemma_arch_index_unique(a.store, wa, i as int);
                    assert(0 <= id < 8192 && xa.is_live(id));
                    let q = choose|q: int| 0 <= q < ids@.len() && #[trigger] ids@[q] == id;
                    assert(r@[r0.len() + q] == (ai, ids@[r0.len() + q - r0.len()]));
                    assert(r@[r0.len() + q] == (ai, ids@[q]));
                    assert(pair_in(r@, arch, id));
                }
            }
        }
        i = i + 1;
    }
    proof {
        assert forall|arch: int, id: int| #[trigger] a.is_live(arch, id) implies
            pair_in(r@, arch, id) by {
            let wa = choose|wa: int| 0 <= wa < a.store.chunks@.len()
                && (#[trigger] a.store.chunks@[wa].0) == arch
                && a.store.chunks@[wa].1.arr.is_live(id);
            assert(arch_seen(*a, i as int, arch));
        }
    }
    r
}

/// A query over three typed component stores: the pairs live in all three,
/// in ascending lexicographic order.
pub fn query3<A, B, C>(
    a: &Components<A>,
    b: &Components<B>,
    c: &Components<C>,
) -> (r: Vec<(usize, usize)>)
    requires
        a.wf(),
        b.wf(),
        c.wf(),
    ensures
        forall|k: int| 0 <= k < r@.len() ==> {
            let p = #[trigger] r@[k];
            a.is_live(p.0 as int, p.1 as int) && b.is_live(p.0 as int, p.1 as int)
                && c.is_live(p.0 as int, p.1 as int)
        },
        forall|arch: int, id: int| a.is_live(arch, id) && #[trigger] b.is_live(arch, id)
            && c.is_live(arch, id) ==> pair_in(r@, arch, id),
        forall|k1: int, k2: int| 0 <= k1 < k2 < r@.len() ==>
            lex_less(#[trigger] r@[k1], #[trigger] r@[k2]),
{
    let ab = query2(a, b);
    let mut r: Vec<(usize, usize)> = Vec::new();
    let n: usize = ab.len();
    let mut k: usize = 0;
    while k < n
        invariant
            a.wf(),
            b.wf(),
            c.wf(),
            k <= n,
            n == ab@.len(),
            forall|k2: int| 0 <= k2 < ab@.len() ==> {
                let p = #[trigger] ab@[k2];
                a.is_live(p.0 as int, p.1 as int) && b.is_live(p.0 as int, p.1 as int)
                    && p.1 < 8192
            },
            forall|arch: int, id: int| a.is_live(arch, id) && #[trigger] b.is_live(arch, id)
                ==> pair_in(ab@, arch, id),
            forall|k1: int, k2: int| 0 <= k1 < k2 < ab@.len() ==>
                lex_less(#[trigger] ab@[k1], #[trigger] ab@[k2]),
            forall|o: int| 0 <= o < r@.len() ==>
                exists|src: int| 0 <= src < k && #[trigger] r@[o] == ab@[src],
            forall|o: int| 0 <= o < r@.len() ==> {
                let p = #[trigger] r@[o];
                c.is_live(p.0 as int, p.1 as int)
            },
            forall|src: int| 0 <= src < k
                && c.is_live((#[trigger] ab@[src]).0 as int, ab@[src].1 as int) ==>
                exists|o: int| 0 <= o < r@.len() && #[trigger] r@[o] == ab@[src],
            forall|o1: int, o2: int| 0 <= o1 < o2 < r@.len() ==>
                lex_less(#[trigger] r@[o1], #[trigger] r@[o2]),
        decreases n - k,
    {
        let p: (usize, usize) = ab[k];
        if c.has(p.0, p.1) {
            let ghost r0 = r@;
            proof {
                assert forall|o: int| 0 <= o < r@.len() implies
                    lex_less(#[trigger] r@[o], p) by {
                    let src = choose|src: int| 0 <= src < k && #[trigger] r@[o] == ab@[src];
                    assert(lex_less(ab@[src], ab@[k as int]));
                }
            }
            r.push(p);
            proof {
                assert forall|src: int| 0 <= src < k + 1
                    && c.is_live((#[trigger] ab@[src]).0 as int, ab@[src].1 as int) implies
                    exists|o: int| 0 <= o < r@.len() && #[trigger] r@[o] == ab@[src] by {
                    if src < k {
                        let o = choose|o: int| 0 <= o < r0.len() && #[trigger] r0[o] == ab@[src];
                        assert(r@[o] == ab@[src]);
                    } else {
                        assert(r@[r0.len() as int] == ab@[src]);
                    }
                }
                assert forall|o: int| 0 <= o < r@.len() implies
                    exists|src: int| 0 <= src < k + 1 && #[trigger] r@[o] == ab@[src] by {
                    if o < r0.len() {
                        let src = choose|src: int| 0 <= src < k && #[trigger] r0[o] == ab@[src];
                        assert(r@[o] == ab@[src]);
                    } else {
                        assert(r@[o] == ab@[k as int]);
                    }
                }
            }
        }
        k = k + 1;
    }
    proof {
        assert forall|arch: int, id: int| a.is_live(arch, id) && #[trigger] b.is_live(arch, id)
            && c.is_live(arch, id) implies pair_in(r@, arch, id) by {
            assert(pair_in(ab@, arch, id));
            let src = choose|src: int| 0 <= src < ab@.len()
                && (#[trigger] ab@[src]).0 == arch && ab@[src].1 == id;
            assert(c.is_live(ab@[src].0 as int, ab@[src].1 as int));
            let o = choose|o: int| 0 <= o < r@.len() && #[trigger] r@[o] == ab@[src];
            assert(r@[o].0 == arch && r@[o].1 == id);
        }
    }
    r
}

} // verus!
