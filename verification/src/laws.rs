//! Laws the compute operations obey, stated over the logical model.
//!
//! Each law speaks about the element sequences the operations' own contracts
//! pin down: a slice result's elements are a subrange, a take result's are a
//! gather, a canonical form's are the original's. The laws here spell out
//! what follows for any results those contracts describe.

use vstd::prelude::*;

use crate::array::{
    alen, data_bytes, elems, prim_ints, sdtype, u8_bytes, view_payload, view_size, view_word_wf,
    wf, Array, SparseArray, VarBinViewArray,
};
use crate::scalar::SpecValue;
use crate::sparse::{pairs_match, take_pairs};
use crate::validity::popcount;

verus! {

/// A slice has exactly the selected number of elements: any result whose
/// elements are the subrange `s..e` has length `e - s`.
pub proof fn law_slice_len(a: Array, b: Array, s: int, e: int)
    requires
        wf(a),
        0 <= s <= e <= alen(a),
        elems(b) == elems(a).subrange(s, e),
    ensures
        alen(b) == e - s,
{
}

/// A slice reads through to the original: element `k` of the slice is element
/// `s + k` of the array.
pub proof fn law_slice_index(a: Array, b: Array, s: int, e: int, k: int)
    requires
        wf(a),
        0 <= s <= e <= alen(a),
        elems(b) == elems(a).subrange(s, e),
        0 <= k < e - s,
    ensures
        elems(b)[k] == elems(a)[s + k],
{
}

/// Taking every position in order is canonicalization: the gather of
/// `0, 1, ..., len-1` denotes exactly the original elements.
pub proof fn law_take_identity(a: Array, positions: Seq<int>)
    requires
        wf(a),
        positions.len() == alen(a),
        forall|k: int| 0 <= k < positions.len() ==> positions[k] == k,
    ensures
        Seq::new(positions.len(), |k: int| elems(a)[positions[k]]) == elems(a),
{
    assert(Seq::new(positions.len(), |k: int| elems(a)[positions[k]]) =~= elems(a));
}

/// Takes compose: gathering by `i` and then by `j` is gathering by the
/// composition, position by position.
pub proof fn law_take_take(a: Array, i: Seq<int>, j: Seq<int>)
    requires
        wf(a),
        forall|q: int| 0 <= q < i.len() ==> 0 <= #[trigger] i[q] < alen(a),
        forall|q: int| 0 <= q < j.len() ==> 0 <= #[trigger] j[q] < i.len(),
    ensures
        Seq::new(j.len(), |k: int| Seq::new(i.len(), |q: int| elems(a)[i[q]])[j[k]]) == Seq::new(
            j.len(),
            |k: int| elems(a)[i[j[k]]],
        ),
{
    assert(Seq::new(j.len(), |k: int| Seq::new(i.len(), |q: int| elems(a)[i[q]])[j[k]]) =~= Seq::new(
        j.len(),
        |k: int| elems(a)[i[j[k]]],
    ));
}

/// Canonicalization is idempotent: a canonical form of a canonical form
/// denotes what the first one denotes — which is what the array denotes.
pub proof fn law_flatten_idempotent(a: Array, c1: Array, c2: Array)
    requires
        wf(a),
        elems(c1) == elems(a),
        sdtype(c1) == sdtype(a),
        elems(c2) == elems(c1),
        sdtype(c2) == sdtype(c1),
    ensures
        elems(c2) == elems(a),
        sdtype(c2) == sdtype(a),
{
}

/// Filtering by a mask of only `true` keeps every element in order: it is
/// canonicalization.
pub proof fn law_filter_all_true(a: Array, mask: Seq<bool>)
    requires
        wf(a),
        mask.len() == alen(a),
        forall|i: int| 0 <= i < mask.len() ==> mask[i],
    ensures
        Seq::new(
            crate::flatten::true_positions(mask).len(),
            |k: int| elems(a)[crate::flatten::true_positions(mask)[k]],
        ) == elems(a),
{
    crate::flatten::lemma_true_positions(mask);
    assert(Seq::new(
        crate::flatten::true_positions(mask).len(),
        |k: int| elems(a)[crate::flatten::true_positions(mask)[k]],
    ) =~= elems(a));
}

/// Filtering by a mask of only `false` keeps nothing.
pub proof fn law_filter_all_false(a: Array, mask: Seq<bool>)
    requires
        wf(a),
        mask.len() == alen(a),
        forall|i: int| 0 <= i < mask.len() ==> !mask[i],
    ensures
        crate::flatten::true_positions(mask).len() == 0,
{
    crate::flatten::lemma_true_positions(mask);
    crate::validity::lemma_popcount_const(mask);
}

/// What a sparse array denotes, element by element: the patch value at every
/// patched position, the fill everywhere else.
pub proof fn law_sparse_element(sp: SparseArray, i: int)
    requires
        wf(Array::Sparse(sp)),
        0 <= i < sp.len,
    ensures
        prim_ints(*sp.indices).contains(i) ==> elems(Array::Sparse(sp))[i] == elems(*sp.values)[
            prim_ints(*sp.indices).index_of(i)],
        !prim_ints(*sp.indices).contains(i) ==> elems(Array::Sparse(sp))[i] == sp.fill@.value,
{
}

/// Both take strategies on sparse data emit the same pairs: any two outputs
/// that match the take pairs are equal, position for position and patch for
/// patch.
pub proof fn law_take_strategies_agree(
    idx: Seq<int>,
    ipos: Seq<u64>,
    pos1: Seq<u64>,
    patch1: Seq<u64>,
    pos2: Seq<u64>,
    patch2: Seq<u64>,
)
    requires
        pairs_match(idx, ipos, pos1, patch1),
        pairs_match(idx, ipos, pos2, patch2),
    ensures
        pos1 == pos2,
        patch1 == patch2,
{
    assert(pos1 =~= pos2);
    assert(patch1 =~= patch2);
}

/// Every reference view caches its payload's first four bytes: the word's
/// prefix equals the head of the referenced payload.
pub proof fn law_view_prefix(v: VarBinViewArray, i: int)
    requires
        wf(Array::VarBinView(v)),
        0 <= i < v.spec_len(),
        view_size(u8_bytes(*v.views), i) > 12,
    ensures
        u8_bytes(*v.views).subrange(16 * i + 4, 16 * i + 8) == view_payload(
            u8_bytes(*v.views),
            data_bytes(v.data@),
            i,
        ).subrange(0, 4),
{
    let vb = u8_bytes(*v.views);
    let bufs = data_bytes(v.data@);
    assert(view_word_wf(vb, bufs, i));
    let size = view_size(vb, i) as int;
    let bi = crate::array::view_buffer_index(vb, i) as int;
    let off = crate::array::view_offset(vb, i) as int;
    assert(view_payload(vb, bufs, i).subrange(0, 4) =~= bufs[bi].subrange(off, off + 4));
}

} // verus!
