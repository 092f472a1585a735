//! Taking from a sparse array.
//!
//! A take on sparse data keeps only the patches that are hit: for each input
//! position that equals a patched position, it emits the pair of the output
//! position and the patch's rank in the stored values. Two strategies exist —
//! a hash map over the patched positions, and one binary search per input
//! position — and both produce exactly [`take_pairs`].

use std::collections::HashMap;

use vstd::pervasive::unreached;
use vstd::prelude::*;

use crate::array::{prim_ints, strictly_increasing, wf, Array, PrimitiveArray, SparseArray};
use crate::error::VortexError;
use crate::search_sorted::{search_sorted_u64s, SearchResult, SearchSortedSide};

verus! {

/// The `(output position, patch rank)` pairs a take on sparse data emits: one
/// pair per input position that equals a patched position, in input order.
pub open spec fn take_pairs(idx: Seq<int>, ipos: Seq<u64>) -> Seq<(int, int)>
    decreases ipos,
{
    if ipos.len() == 0 {
        Seq::empty()
    } else {
        let front = take_pairs(idx, ipos.drop_last());
        if idx.contains(ipos.last() as int) {
            front.push(((ipos.len() - 1) as int, idx.index_of(ipos.last() as int)))
        } else {
            front
        }
    }
}

/// What the pairs mean: each names a hit input position and its patch's rank,
/// output positions strictly increase, and every hit input position appears.
pub proof fn lemma_take_pairs(idx: Seq<int>, ipos: Seq<u64>)
    requires
        strictly_increasing(idx),
    ensures
        take_pairs(idx, ipos).len() <= ipos.len(),
        forall|j: int|
            0 <= j < take_pairs(idx, ipos).len() ==> {
                let pr = #[trigger] take_pairs(idx, ipos)[j];
                &&& 0 <= pr.0 < ipos.len()
                &&& idx.contains(ipos[pr.0] as int)
                &&& 0 <= pr.1 < idx.len()
                &&& idx[pr.1] == ipos[pr.0] as int
                &&& pr.1 == idx.index_of(ipos[pr.0] as int)
            },
        forall|j1: int, j2: int|
            0 <= j1 < j2 < take_pairs(idx, ipos).len() ==> (#[trigger] take_pairs(idx, ipos)[j1]).0
                < (#[trigger] take_pairs(idx, ipos)[j2]).0,
        forall|k: int|
            0 <= k < ipos.len() && idx.contains(ipos[k] as int) ==> exists|j: int|
                0 <= j < take_pairs(idx, ipos).len() && (#[trigger] take_pairs(idx, ipos)[j]).0
                    == k,
    decreases ipos,
{
    if ipos.len() > 0 {
        lemma_take_pairs(idx, ipos.drop_last());
        let front = take_pairs(idx, ipos.drop_last());
        let ps = take_pairs(idx, ipos);
        assert forall|k: int|
            0 <= k < ipos.len() && idx.contains(ipos[k] as int) implies exists|j: int|
            0 <= j < ps.len() && (#[trigger] ps[j]).0 == k by {
            if k < ipos.len() - 1 {
                assert(ipos.drop_last()[k] == ipos[k]);
                let j = choose|j: int| 0 <= j < front.len() && (#[trigger] front[j]).0 == k;
                assert(ps[j].0 == k);
            } else {
                assert(ipos.last() == ipos[k]);
                assert(ps[ps.len() - 1].0 == k);
            }
        }
        assert forall|j: int|
            0 <= j < ps.len() implies {
            let pr = #[trigger] ps[j];
            &&& 0 <= pr.0 < ipos.len()
            &&& idx.contains(ipos[pr.0] as int)
            &&& 0 <= pr.1 < idx.len()
            &&& idx[pr.1] == ipos[pr.0] as int
            &&& pr.1 == idx.index_of(ipos[pr.0] as int)
        } by {
            if j < front.len() {
                assert(front[j].0 < ipos.len() - 1);
                assert(ipos.drop_last()[front[j].0] == ipos[front[j].0]);
            } else {
                let p = ipos.last() as int;
                assert(idx.contains(p));
                let w = idx.index_of(p);
                assert(0 <= w < idx.len() && idx[w] == p);
            }
        }
    }
}

/// The hits among a prefix extended by one more input position.
pub proof fn lemma_take_pairs_step(idx: Seq<int>, ipos: Seq<u64>, k: int)
    requires
        0 <= k < ipos.len(),
    ensures
        take_pairs(idx, ipos.subrange(0, k + 1)) == (if idx.contains(ipos[k] as int) {
            take_pairs(idx, ipos.subrange(0, k)).push((k, idx.index_of(ipos[k] as int)))
        } else {
            take_pairs(idx, ipos.subrange(0, k))
        }),
{
    let pre = ipos.subrange(0, k + 1);
    assert(pre.drop_last() =~= ipos.subrange(0, k));
    assert(pre.last() == ipos[k]);
}

/// Positions below the smallest or above the largest patched position are
/// never hits.
pub proof fn lemma_outside_range_misses(idx: Seq<int>, p: int)
    requires
        strictly_increasing(idx),
        idx.len() > 0 ==> (p < idx[0] || p > idx.last()),
    ensures
        !idx.contains(p),
{
    if idx.contains(p) {
        let w = choose|w: int| 0 <= w < idx.len() && idx[w] == p;
        assert(idx[0] <= idx[w] && idx[w] <= idx[idx.len() - 1]);
    }
}

/// One search per input position: emit the pair wherever the search finds the
/// position among the patches.
fn pairs_by_search(ids: &Vec<u64>, ipos: &Vec<u64>) -> (r: (Vec<u64>, Vec<u64>))
    requires
        strictly_increasing(ids@.map_values(|x: u64| x as int)),
    ensures
        pairs_match(ids@.map_values(|x: u64| x as int), ipos@, r.0@, r.1@),
{
    let ghost idx = ids@.map_values(|x: u64| x as int);
    let mut out_pos: Vec<u64> = Vec::new();
    let mut out_patch: Vec<u64> = Vec::new();
    let mut k: usize = 0;
    proof {
        lemma_take_pairs(idx, ipos@);
        assert(ipos@.subrange(0, 0) =~= Seq::<u64>::empty());
    }
    #[verifier::loop_isolation(false)]
    while k < ipos.len()
        invariant
            0 <= k <= ipos@.len(),
            pairs_match(idx, ipos@.subrange(0, k as int), out_pos@, out_patch@),
        decreases ipos@.len() - k,
    {
        let p = ipos[k];
        let sr = search_sorted_u64s(ids, p, SearchSortedSide::Left);
        proof {
            lemma_take_pairs_step(idx, ipos@, k as int);
            assert(ipos@.subrange(0, k as int + 1).drop_last() =~= ipos@.subrange(0, k as int));
        }
        match sr {
            SearchResult::Found(r) => {
                proof {
                    assert(idx[r as int] == p as int);
                    assert(idx.index_of(p as int) == r as int);
                }
                out_pos.push(k as u64);
                out_patch.push(r as u64);
            },
            SearchResult::NotFound(_) => {},
        }
        k = k + 1;
    }
    proof {
        assert(ipos@.subrange(0, ipos@.len() as int) =~= ipos@);
    }
    (out_pos, out_patch)
}

/// Whether two output vectors spell out exactly the take pairs.
pub open spec fn pairs_match(idx: Seq<int>, ipos: Seq<u64>, pos: Seq<u64>, patch: Seq<u64>) -> bool {
    let ps = take_pairs(idx, ipos);
    &&& pos.len() == ps.len()
    &&& patch.len() == ps.len()
    &&& forall|j: int| 0 <= j < ps.len() ==> (#[trigger] pos[j]) as int == ps[j].0
    &&& forall|j: int| 0 <= j < ps.len() ==> (#[trigger] patch[j]) as int == ps[j].1
}

/// A map from each patched position to its rank, then one lookup per input
/// position. Positions outside the patched range are skipped without a
/// lookup.
fn pairs_by_map(ids: &Vec<u64>, ipos: &Vec<u64>) -> (r: (Vec<u64>, Vec<u64>))
    requires
        strictly_increasing(ids@.map_values(|x: u64| x as int)),
    ensures
        pairs_match(ids@.map_values(|x: u64| x as int), ipos@, r.0@, r.1@),
{
    let ghost idx = ids@.map_values(|x: u64| x as int);
    let mut table: HashMap<u64, u64> = HashMap::new();
    let mut j: usize = 0;
    #[verifier::loop_isolation(false)]
    while j < ids.len()
        invariant
            0 <= j <= ids@.len(),
            forall|x: u64| table@.contains_key(x) <==> ids@.subrange(0, j as int).contains(x),
            forall|w: int|
                0 <= w < j ==> table@.contains_key(#[trigger] ids@[w]) && table@[ids@[w]]
                    == w as u64,
        decreases ids@.len() - j,
    {
        let key = ids[j];
        table.insert(key, j as u64);
        proof {
            assert forall|x: u64|
                table@.contains_key(x) <==> ids@.subrange(0, j as int + 1).contains(x) by {
                if table@.contains_key(x) {
                    if x == key {
                        assert(ids@.subrange(0, j as int + 1)[j as int] == x);
                    } else {
                        let w = choose|w: int|
                            0 <= w < j && ids@.subrange(0, j as int)[w] == x;
                        assert(ids@.subrange(0, j as int + 1)[w] == x);
                    }
                }
                if ids@.subrange(0, j as int + 1).contains(x) {
                    let w = choose|w: int|
                        0 <= w < j + 1 && #[trigger] ids@.subrange(0, j as int + 1)[w] == x;
                    if w < j {
                        assert(ids@.subrange(0, j as int)[w] == x);
                    }
                }
            }
            assert forall|w: int|
                0 <= w < j + 1 implies table@.contains_key(#[trigger] ids@[w]) && table@[ids@[w]]
                == w as u64 by {
                if w < j {
                    assert(ids@[w] as int == idx[w] && key as int == idx[j as int]);
                    assert(idx[w] < idx[j as int]);
                }
            }
        }
        j = j + 1;
    }
    proof {
        assert(ids@.subrange(0, ids@.len() as int) =~= ids@);
    }
    let has_range = ids.len() > 0;
    let min_index: u64 = if has_range {
        ids[0]
    } else {
        0
    };
    let max_index: u64 = if has_range {
        ids[ids.len() - 1]
    } else {
        0
    };
    let mut out_pos: Vec<u64> = Vec::new();
    let mut out_patch: Vec<u64> = Vec::new();
    let mut k: usize = 0;
    proof {
        lemma_take_pairs(idx, ipos@);
        assert(ipos@.subrange(0, 0) =~= Seq::<u64>::empty());
    }
    #[verifier::loop_isolation(false)]
    while k < ipos.len()
        invariant
            0 <= k <= ipos@.len(),
            pairs_match(idx, ipos@.subrange(0, k as int), out_pos@, out_patch@),
        decreases ipos@.len() - k,
    {
        let p = ipos[k];
        proof {
            lemma_take_pairs_step(idx, ipos@, k as int);
            if !(has_range && min_index <= p && p <= max_index) {
                lemma_outside_range_misses(idx, p as int);
            }
            if idx.contains(p as int) {
                let w = idx.index_of(p as int);
                assert(0 <= w < idx.len() && idx[w] == p as int);
                assert(ids@[w] == p);
                assert(ids@.contains(p));
            }
            if ids@.contains(p) {
                let w = choose|w: int| 0 <= w < ids@.len() && ids@[w] == p;
                assert(idx[w] == p as int);
                assert(idx.contains(p as int));
            }
        }
        if has_range && min_index <= p && p <= max_index {
            match table.get(&p) {
                Some(rank) => {
                    proof {
                        assert(ids@.contains(p));
                        assert(idx.contains(p as int));
                        let w = idx.index_of(p as int);
                        assert(table@[ids@[w]] == w as u64);
                        assert(ids@[w] == p);
                        assert(*rank == w as u64);
                    }
                    out_pos.push(k as u64);
                    out_patch.push(*rank);
                },
                None => {
                    proof {
                        assert(!ids@.contains(p));
                        assert(!idx.contains(p as int));
                    }
                },
            }
        }
        k = k + 1;
    }
    proof {
        assert(ipos@.subrange(0, ipos@.len() as int) =~= ipos@);
    }
    (out_pos, out_patch)
}

/// The pairs a take on this sparse array emits for the given input
/// positions, computed with the strategy the input size calls for: a hash
/// map when there are many positions, a binary search per position
/// otherwise.
pub fn sparse_take_pairs(ids: &Vec<u64>, ipos: &Vec<u64>) -> (r: (Vec<u64>, Vec<u64>))
    requires
        strictly_increasing(ids@.map_values(|x: u64| x as int)),
    ensures
        pairs_match(ids@.map_values(|x: u64| x as int), ipos@, r.0@, r.1@),
{
    if ipos.len() > 128 {
        pairs_by_map(ids, ipos)
    } else {
        pairs_by_search(ids, ipos)
    }
}

/// The hash-map strategy on its own: the patched positions of the sparse
/// array, resolved to a map, looked up for each input index.
pub fn take_map(array: &SparseArray, indices: &PrimitiveArray) -> (r: Result<
    (PrimitiveArray, PrimitiveArray),
    VortexError,
>)
    requires
        wf(Array::Sparse(*array)),
        crate::array::is_index_array(Array::Primitive(*indices)),
        wf(Array::Primitive(*indices)),
    ensures
        r matches Ok((pos, patch)) ==> {
            &&& pairs_match(
                prim_ints(*array.indices),
                seq_as_u64s(prim_ints(Array::Primitive(*indices))),
                seq_as_u64s(prim_ints(Array::Primitive(pos))),
                seq_as_u64s(prim_ints(Array::Primitive(patch))),
            )
            &&& crate::array::is_index_array(Array::Primitive(pos))
            &&& wf(Array::Primitive(pos))
            &&& crate::array::is_index_array(Array::Primitive(patch))
            &&& wf(Array::Primitive(patch))
        },
{
    let ids = crate::compute::index_vec(&array.indices);
    let ipos = crate::compute::index_vec_prim(indices);
    let (p0, p1) = pairs_by_map(&ids, &ipos);
    proof {
        lemma_u64s_as_ints(ipos@);
    }
    finish_pairs(p0, p1)
}

/// The search strategy on its own: one binary search over the patched
/// positions per input index.
pub fn take_search_sorted(array: &SparseArray, indices: &PrimitiveArray) -> (r: Result<
    (PrimitiveArray, PrimitiveArray),
    VortexError,
>)
    requires
        wf(Array::Sparse(*array)),
        crate::array::is_index_array(Array::Primitive(*indices)),
        wf(Array::Primitive(*indices)),
    ensures
        r matches Ok((pos, patch)) ==> {
            &&& pairs_match(
                prim_ints(*array.indices),
                seq_as_u64s(prim_ints(Array::Primitive(*indices))),
                seq_as_u64s(prim_ints(Array::Primitive(pos))),
                seq_as_u64s(prim_ints(Array::Primitive(patch))),
            )
            &&& crate::array::is_index_array(Array::Primitive(pos))
            &&& wf(Array::Primitive(pos))
            &&& crate::array::is_index_array(Array::Primitive(patch))
            &&& wf(Array::Primitive(patch))
        },
{
    let ids = crate::compute::index_vec(&array.indices);
    let ipos = crate::compute::index_vec_prim(indices);
    let (p0, p1) = pairs_by_search(&ids, &ipos);
    proof {
        lemma_u64s_as_ints(ipos@);
    }
    finish_pairs(p0, p1)
}

/// Integers reread as unsigned 64-bit values; positions are always in this
/// range.
pub open spec fn seq_as_u64s(s: Seq<int>) -> Seq<u64> {
    s.map_values(|x: int| x as u64)
}

/// A vector of unsigned values and its own integers agree.
pub proof fn lemma_u64s_as_ints(v: Seq<u64>)
    ensures
        seq_as_u64s(v.map_values(|x: u64| x as int)) == v,
{
    assert(seq_as_u64s(v.map_values(|x: u64| x as int)) =~= v);
}


/// Package raw pair vectors as unsigned primitive arrays.
fn finish_pairs(p0: Vec<u64>, p1: Vec<u64>) -> (r: Result<
    (PrimitiveArray, PrimitiveArray),
    VortexError,
>)
    ensures
        r matches Ok((pos, patch)) ==> {
            &&& prim_ints(Array::Primitive(pos)) == p0@.map_values(|x: u64| x as int)
            &&& prim_ints(Array::Primitive(patch)) == p1@.map_values(|x: u64| x as int)
            &&& crate::array::is_index_array(Array::Primitive(pos))
            &&& wf(Array::Primitive(pos))
            &&& crate::array::is_index_array(Array::Primitive(patch))
            &&& wf(Array::Primitive(patch))
        },
{
    let pos = match crate::array::PrimitiveArray::from_u64s(&p0) {
        Ok(p) => p,
        Err(e) => {
            return Err(e);
        },
    };
    let patch = match crate::array::PrimitiveArray::from_u64s(&p1) {
        Ok(p) => p,
        Err(e) => {
            return Err(e);
        },
    };
    Ok((pos, patch))
}

} // verus!
