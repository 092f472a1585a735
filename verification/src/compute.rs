//! Generic compute entry points.
//!
//! Every operation is specified against the logical model: what `elems` says
//! the array holds. An operation either handles an encoding natively or
//! canonicalizes first and then works on the canonical form, so each entry
//! point is total over the encodings it names.

use vstd::pervasive::unreached;
use vstd::prelude::*;

use crate::array::{
    arrays_dtypes, lemma_chunks_elems_first,
    alen, arrays_elems, chunks_elems, data_bytes, elems, lemma_arrays_elems, lemma_data_bytes,
    prim_ints, sdtype, u8_bytes, view_buffer_index, view_offset, view_payload, view_size,
    view_word_wf, wf, Array, PrimitiveArray,
};
use crate::codec::{pvalue_at, spec_pvalue_at};
use crate::dtype::{DType, DTypeSpec, PType};
use crate::error::VortexError;
use crate::scalar::{lemma_value_views, value_views, PValue, Scalar, ScalarValue, SpecValue};
use crate::search_sorted::{search_sorted_u64s, SearchResult, SearchSortedSide};

verus! {

/// Decode a non-nullable unsigned-integer array into its values. The result
/// lists, in order, exactly the integers the array stores.
pub fn index_vec(a: &Array) -> (r: Vec<u64>)
    requires
        crate::array::is_index_array(*a),
        wf(*a),
    ensures
        r@.map_values(|x: u64| x as int) == prim_ints(*a),
        r@.len() == alen(*a),
{
    let p = match a {
        Array::Primitive(p) => p,
        _ => unreached(),
    };
    index_vec_prim(p)
}

/// Decode a non-nullable unsigned-integer primitive array into its values.
pub fn index_vec_prim(p: &PrimitiveArray) -> (r: Vec<u64>)
    requires
        crate::array::is_index_array(Array::Primitive(*p)),
        wf(Array::Primitive(*p)),
    ensures
        r@.map_values(|x: u64| x as int) == prim_ints(Array::Primitive(*p)),
        r@.len() == alen(Array::Primitive(*p)),
{
    let ghost a = Array::Primitive(*p);
    let w = p.ptype.byte_width();
    let n = p.bytes.len() / w;
    proof {
        assert(n == p.spec_len());
    }
    let mut out: Vec<u64> = Vec::new();
    let mut i: usize = 0;
    #[verifier::loop_isolation(false)]
    while i < n
        invariant
            0 <= i <= n,
            out@.len() == i,
            forall|k: int| 0 <= k < i ==> out@[k] as int == prim_ints(a)[k],
        decreases n - i,
    {
        proof {
            assert(((i as int) + 1) * p.ptype.spec_byte_width() <= p.bytes@.len())
                by (nonlinear_arith)
                requires
                    0 <= i < n,
                    p.bytes@.len() == n * p.ptype.spec_byte_width(),
                    p.ptype.spec_byte_width() >= 1,
            ;
        }
        let v = pvalue_at(p.ptype, &p.bytes, i);
        let x = match v {
            PValue::U8(x) => x as u64,
            PValue::U16(x) => x as u64,
            PValue::U32(x) => x as u64,
            PValue::U64(x) => x,
            _ => unreached(),
        };
        out.push(x);
        i = i + 1;
    }
    proof {
        assert(out@.map_values(|x: u64| x as int) =~= prim_ints(a));
    }
    out
}

/// The element at one position: a scalar of the array's own type. Returns
/// the element for every position inside the array, and `OutOfBounds` for
/// every position outside it.
pub fn scalar_at(a: &Array, i: usize) -> (r: Result<Scalar, VortexError>)
    requires
        wf(*a),
    ensures
        i < alen(*a) ==> (r matches Ok(s) && s@.value == elems(*a)[i as int] && s@.dtype == sdtype(
            *a,
        )),
        i >= alen(*a) ==> r == Err::<Scalar, VortexError>(VortexError::OutOfBounds),
    decreases *a,
{
    match a {
        Array::Null(n) => {
            if i < n.len {
                Ok(Scalar::null(DType::Null))
            } else {
                Err(VortexError::OutOfBounds)
            }
        },
        Array::Bool(b) => {
            if i < b.values.len() {
                if b.validity.valid_at(i) {
                    Ok(Scalar::bool_(b.values[i], b.validity.nullability()))
                } else {
                    Ok(Scalar::null(DType::Bool(b.validity.nullability())))
                }
            } else {
                Err(VortexError::OutOfBounds)
            }
        },
        Array::Primitive(p) => {
            let w = p.ptype.byte_width();
            let n = p.bytes.len() / w;
            proof {
                assert(n == p.spec_len());
            }
            if i < n {
                if p.validity.valid_at(i) {
                    proof {
                        assert(((i as int) + 1) * p.ptype.spec_byte_width() <= p.bytes@.len())
                            by (nonlinear_arith)
                            requires
                                0 <= i < n,
                                p.bytes@.len() == n * p.ptype.spec_byte_width(),
                                p.ptype.spec_byte_width() >= 1,
                        ;
                    }
                    let v = pvalue_at(p.ptype, &p.bytes, i);
                    Ok(Scalar::primitive(v, p.validity.nullability()))
                } else {
                    Ok(Scalar::null(DType::Primitive(p.ptype, p.validity.nullability())))
                }
            } else {
                Err(VortexError::OutOfBounds)
            }
        },
        Array::VarBinView(v) => varbinview_scalar_at(v, i),
        Array::Struct(st) => {
            if i < st.len {
                if st.validity.valid_at(i) {
                    let mut vals: Vec<ScalarValue> = Vec::new();
                    let mut j: usize = 0;
                    proof {
                        lemma_arrays_elems(st.fields@);
                    }
                    #[verifier::loop_isolation(false)]
                    while j < st.fields.len()
                        invariant
                            0 <= j <= st.fields@.len(),
                            vals@.len() == j,
                            forall|k: int|
                                0 <= k < j ==> (#[trigger] vals@[k])@ == arrays_elems(
                                    st.fields@,
                                )[k][i as int],
                        decreases st.fields@.len() - j,
                    {
                        proof {
                            assert(decreases_to!(*a => *st));
                            assert(decreases_to!(*st => st.fields));
                            assert(decreases_to!(st.fields => st.fields@));
                            assert(decreases_to!(st.fields@ => st.fields@[j as int]));
                            assert(crate::array::all_wf(st.fields@));
                            assert(wf(st.fields@[j as int]));
                            assert(elems(st.fields@[j as int]).len() == st.len as nat);
                        }
                        let s = match scalar_at(&st.fields[j], i) {
                            Ok(s) => s,
                            Err(_) => unreached(),
                        };
                        vals.push(s.into_value());
                        j = j + 1;
                    }
                    proof {
                        lemma_value_views(vals@);
                        let ess = arrays_elems(st.fields@);
                        assert forall|k: int| 0 <= k < vals@.len() implies value_views(vals@)[k]
                            == ess[k][i as int] by {
                            assert(vals@[k]@ == ess[k][i as int]);
                        }
                        assert(value_views(vals@) =~= Seq::new(ess.len(), |k: int| ess[k][i as int]));
                    }
                    Ok(
                        Scalar {
                            dtype: a.dtype(),
                            value: ScalarValue::Struct(vals),
                        },
                    )
                } else {
                    proof {
                        assert(st.validity.spec_nullability() is Nullable);
                    }
                    Ok(Scalar::null(a.dtype()))
                }
            } else {
                Err(VortexError::OutOfBounds)
            }
        },
        Array::Sparse(sp) => {
            if i < sp.len {
                let ids = index_vec(&sp.indices);
                proof {
                    assert(crate::array::strictly_increasing(prim_ints(*sp.indices)));
                }
                let sr = search_sorted_u64s(&ids, i as u64, SearchSortedSide::Left);
                proof {
                    let idx = prim_ints(*sp.indices);
                    assert(idx.contains(i as int) == ids@.map_values(|x: u64| x as int).contains(
                        i as int,
                    ));
                }
                match sr {
                    SearchResult::Found(k) => {
                        proof {
                            let idx = prim_ints(*sp.indices);
                            assert(idx[k as int] == i as int);
                            assert(idx.contains(i as int));
                            let j = idx.index_of(i as int);
                            assert(0 <= j < idx.len() && idx[j] == i as int);
                            assert(j == k as int);
                            assert(k < alen(*sp.values));
                        }
                        let s = match scalar_at(&sp.values, k) {
                            Ok(s) => s,
                            Err(_) => unreached(),
                        };
                        proof {
                            assert(elems(*a)[i as int] == elems(*sp.values)[k as int]);
                        }
                        Ok(s)
                    },
                    SearchResult::NotFound(_) => {
                        proof {
                            let idx = prim_ints(*sp.indices);
                            assert(!idx.contains(i as int));
                            assert(elems(*a)[i as int] == sp.fill@.value);
                        }
                        Ok(sp.fill.clone())
                    },
                }
            } else {
                Err(VortexError::OutOfBounds)
            }
        },
        Array::Ree(r) => {
            if i < r.length {
                if r.validity.valid_at(i) {
                    let ends = index_vec(&r.ends);
                    proof {
                        lemma_strictly_increasing_monotone(prim_ints(*r.ends));
                    }
                    let pos = match (i as u64).checked_add(r.offset as u64) {
                        Some(p) => p,
                        None => unreached(),
                    };
                    let sr = search_sorted_u64s(&ends, pos, SearchSortedSide::Right);
                    let k = sr.to_index();
                    proof {
                        lemma_run_of_insertion(
                            prim_ints(*r.ends),
                            pos as int,
                            sr.spec_index(),
                        );
                        assert(k < alen(*r.values));
                    }
                    let s = match scalar_at(&r.values, k) {
                        Ok(s) => s,
                        Err(_) => unreached(),
                    };
                    proof {
                        assert(elems(*a)[i as int] == elems(*r.values)[k as int]);
                    }
                    Ok(s)
                } else {
                    Ok(Scalar::null(a.dtype()))
                }
            } else {
                Err(VortexError::OutOfBounds)
            }
        },
        Array::Chunked(c) => {
            if i < c.len {
                chunked_scalar_at(&c.chunks, i, Ghost(*a))
            } else {
                Err(VortexError::OutOfBounds)
            }
        },
    }
}

/// A strictly increasing sequence never decreases.
pub proof fn lemma_strictly_increasing_monotone(s: Seq<int>)
    requires
        crate::array::strictly_increasing(s),
    ensures
        crate::search_sorted::monotone(s),
{
}

/// On strictly increasing run ends, the right-side insertion point of a
/// position is exactly the run that covers it.
pub proof fn lemma_run_of_insertion(ends: Seq<int>, pos: int, p: int)
    requires
        crate::array::strictly_increasing(ends),
        crate::search_sorted::insertion_point(ends, pos, SearchSortedSide::Right, p),
        0 <= pos,
        ends.len() > 0 ==> pos < ends.last(),
    ensures
        crate::array::run_of(ends, pos) == p,
        ends.len() > 0 ==> p < ends.len(),
    decreases ends,
{
    if ends.len() > 0 {
        assert(ends.last() == ends[ends.len() - 1]);
        if pos < ends[0] {
            // Run zero covers the position; the insertion point cannot pass
            // the first end.
            if p > 0 {
                assert(ends[0] <= pos);
            }
        } else {
            // The first end is at or before the position, so the insertion
            // point is past it and the run index shifts by one.
            let rest = ends.subrange(1, ends.len() as int);
            if p == 0 {
                assert(ends[0] > pos);
            }
            assert(crate::array::strictly_increasing(rest));
            assert forall|k: int| 0 <= k < p - 1 implies rest[k] <= pos by {
                assert(ends[k + 1] <= pos);
            }
            assert forall|k: int| p - 1 <= k < rest.len() implies rest[k] > pos by {
                assert(ends[k + 1] > pos);
            }
            if rest.len() > 0 {
                assert(rest.last() == ends.last());
            }
            lemma_run_of_insertion(rest, pos, p - 1);
        }
    }
}

/// The element at one position of a binary-view node: decode the view word,
/// then take the inlined bytes or the referenced slice of a data buffer.
fn varbinview_scalar_at(v: &crate::array::VarBinViewArray, i: usize) -> (r: Result<
    Scalar,
    VortexError,
>)
    requires
        v.wf(),
        wf(*v.views),
        crate::array::all_wf(v.data@),
    ensures
        i < v.spec_len() ==> (r matches Ok(s) && s@.value == v.selems()[i as int] && s@.dtype
            == v.dtype@),
        i >= v.spec_len() ==> r == Err::<Scalar, VortexError>(VortexError::OutOfBounds),
{
    let vp = match &*v.views {
        Array::Primitive(p) => p,
        _ => unreached(),
    };
    let n = vp.bytes.len() / 16;
    proof {
        assert(u8_bytes(*v.views) == vp.bytes@);
        assert(vp.bytes@.len() == v.spec_len() * 16);
        assert(n == v.spec_len());
    }
    if i >= n {
        return Err(VortexError::OutOfBounds);
    }
    let is_utf8 = match &v.dtype {
        DType::Utf8(_) => true,
        DType::Binary(_) => false,
        _ => unreached(),
    };
    if !v.validity.valid_at(i) {
        return Ok(Scalar::null(v.dtype.clone()));
    }
    let ghost vb = vp.bytes@;
    let ghost bufs = data_bytes(v.data@);
    proof {
        assert(view_word_wf(vb, bufs, i as int));
        assert((4 * (i as int) + 1) * 4 <= vb.len()) by (nonlinear_arith)
            requires
                vb.len() == v.spec_len() * 16,
                0 <= i < v.spec_len(),
        ;
        assert(vb.subrange(4 * (i as int) * 4, (4 * (i as int) + 1) * 4) =~= vb.subrange(
            16 * (i as int),
            16 * (i as int) + 4,
        ));
    }
    let size32 = match pvalue_at(PType::U32, &vp.bytes, 4 * i) {
        PValue::U32(x) => x,
        _ => unreached(),
    };
    proof {
        assert(size32 == view_size(vb, i as int));
    }
    let size = size32 as usize;
    let payload: Vec<u8> = if size <= 12 {
        proof {
            assert(16 * (i as int) + 4 + size <= vb.len()) by (nonlinear_arith)
                requires
                    vb.len() == v.spec_len() * 16,
                    0 <= i < v.spec_len(),
                    0 <= size <= 12,
            ;
        }
        let s = vstd::slice::slice_subrange(vp.bytes.as_slice(), 16 * i + 4, 16 * i + 4 + size);
        let out = vstd::slice::slice_to_vec(s);
        proof {
            assert(out@ == view_payload(vb, bufs, i as int));
        }
        out
    } else {
        proof {
            assert((4 * (i as int) + 3) * 4 <= vb.len() && (4 * (i as int) + 4) * 4 <= vb.len())
                by (nonlinear_arith)
                requires
                    vb.len() == v.spec_len() * 16,
                    0 <= i < v.spec_len(),
            ;
            assert(vb.subrange((4 * (i as int) + 2) * 4, (4 * (i as int) + 3) * 4) =~= vb.subrange(
                16 * (i as int) + 8,
                16 * (i as int) + 12,
            ));
            assert(vb.subrange((4 * (i as int) + 3) * 4, (4 * (i as int) + 4) * 4) =~= vb.subrange(
                16 * (i as int) + 12,
                16 * (i as int) + 16,
            ));
        }
        let bi = match pvalue_at(PType::U32, &vp.bytes, 4 * i + 2) {
            PValue::U32(x) => x,
            _ => unreached(),
        };
        let off = match pvalue_at(PType::U32, &vp.bytes, 4 * i + 3) {
            PValue::U32(x) => x,
            _ => unreached(),
        };
        proof {
            assert(bi == view_buffer_index(vb, i as int));
            assert(off == view_offset(vb, i as int));
            lemma_data_bytes(v.data@);
            assert((bi as int) < v.data@.len());
            assert(crate::array::all_wf(v.data@));
            assert(wf(v.data@[bi as int]));
            assert(crate::array::is_u8_array(v.data@[bi as int]));
        }
        let d = match &v.data[bi as usize] {
            Array::Primitive(p) => p,
            _ => unreached(),
        };
        proof {
            assert(u8_bytes(v.data@[bi as int]) == d.bytes@);
            assert(bufs[bi as int] == d.bytes@);
            assert(off as int + size as int <= d.bytes@.len());
        }
        let dn = d.bytes.len();
        let s = vstd::slice::slice_subrange(d.bytes.as_slice(), off as usize, off as usize + size);
        let out = vstd::slice::slice_to_vec(s);
        proof {
            assert(out@ == view_payload(vb, bufs, i as int));
        }
        out
    };
    let value = if is_utf8 {
        ScalarValue::BufferString(payload)
    } else {
        ScalarValue::Buffer(payload)
    };
    Ok(Scalar { dtype: v.dtype.clone(), value })
}

/// The element at one position of a chunked node: walk the chunks, skipping
/// whole chunks until the position falls inside one.
fn chunked_scalar_at(chunks: &Vec<Array>, i: usize, Ghost(whole): Ghost<Array>) -> (r: Result<
    Scalar,
    VortexError,
>)
    requires
        whole matches Array::Chunked(c) && c.chunks == *chunks && wf(whole),
        i < alen(whole),
    ensures
        r matches Ok(s) && s@.value == elems(whole)[i as int] && s@.dtype == sdtype(whole),
    decreases *chunks,
{
    let ghost c = whole->Chunked_0;
    let nch = chunks.len();
    let mut k: usize = 0;
    let mut rem: usize = i;
    proof {
        assert(chunks@.subrange(0, chunks@.len() as int) =~= chunks@);
    }
    #[verifier::loop_isolation(false)]
    loop
        invariant
            0 <= k <= chunks@.len(),
            rem <= i,
            rem < chunks_elems(chunks@.subrange(k as int, chunks@.len() as int)).len(),
            chunks_elems(chunks@.subrange(k as int, chunks@.len() as int))[rem as int] == elems(
                whole,
            )[i as int],
        decreases chunks@.len() - k,
    {
        let ghost suffix = chunks@.subrange(k as int, chunks@.len() as int);
        proof {
            if suffix.len() == 0 {
                assert(chunks_elems(suffix).len() == 0);
            }
            assert(k < chunks@.len());
            lemma_chunks_elems_first(suffix);
            assert(suffix.first() == chunks@[k as int]);
            assert(crate::array::all_wf(c.chunks@));
            assert(wf(chunks@[k as int]));
        }
        let cl = chunks[k].len();
        if rem < cl {
            proof {
                assert(chunks_elems(suffix)[rem as int] == elems(chunks@[k as int])[rem as int]);
                assert(sdtype(chunks@[k as int]) == c.dtype@);
                assert(decreases_to!(*chunks => chunks@));
                assert(decreases_to!(chunks@ => chunks@[k as int]));
            }
            let s = match scalar_at(&chunks[k], rem) {
                Ok(s) => s,
                Err(_) => unreached(),
            };
            return Ok(s);
        } else {
            proof {
                assert(chunks_elems(suffix)[rem as int] == chunks_elems(suffix.drop_first())[
                rem - elems(suffix.first()).len()]);
                assert(suffix.drop_first() =~= chunks@.subrange(
                    k as int + 1,
                    chunks@.len() as int,
                ));
            }
            rem = rem - cl;
            k = k + 1;
        }
    }
}


/// Whether an array can serve as a take's index array: integers, none null.
pub open spec fn take_indices_ok(ind: Array) -> bool {
    match ind {
        Array::Primitive(p) => p.ptype.spec_is_int() && p.validity is NonNullable,
        _ => false,
    }
}

/// The integer positions an index array holds.
pub open spec fn take_positions(ind: Array) -> Seq<int> {
    prim_ints(ind)
}

/// Every position points into an array of the given length.
pub open spec fn ipositions_in_bounds(ps: Seq<int>, len: nat) -> bool {
    forall|k: int| 0 <= k < ps.len() ==> 0 <= #[trigger] ps[k] < len
}

/// Encodings a take is always owed on (provided the positions fit in memory):
/// null arrays, arrays of primitive or boolean type, structs of such fields,
/// and sparse arrays over such values. String and binary gathers may also
/// run out of 32-bit view offsets, so nothing is owed there.
pub open spec fn take_ready(a: Array) -> bool
    decreases a,
{
    match a {
        Array::Null(_) => true,
        Array::Struct(st) => forall|i: int|
            0 <= i < st.fields@.len() ==> take_ready(#[trigger] st.fields@[i]),
        Array::Sparse(sp) => take_ready(*sp.values),
        _ => sdtype(a) is Primitive || sdtype(a) is Bool,
    }
}

/// What a take on a sparse array produces: the fill is kept, the length is
/// the number of requested positions, and the result's patched positions and
/// values are exactly the hit pairs, in input order.
pub open spec fn sparse_take_post(
    sp0: crate::array::SparseArray,
    sp1: crate::array::SparseArray,
    tps: Seq<int>,
) -> bool {
    let ps = crate::sparse::take_pairs(
        prim_ints(*sp0.indices),
        crate::sparse::seq_as_u64s(tps),
    );
    &&& sp1.fill@ == sp0.fill@
    &&& sp1.len as int == tps.len()
    &&& prim_ints(*sp1.indices).len() == ps.len()
    &&& (forall|j: int| 0 <= j < ps.len() ==> prim_ints(*sp1.indices)[j] == (#[trigger] ps[j]).0)
    &&& elems(*sp1.values) == Seq::new(ps.len(), |j: int| elems(*sp0.values)[ps[j].1])
}

/// Convert and bounds-check an index array against an array length.
fn positions_from_indices(indices: &Array, bound: usize) -> (r: Result<Vec<u64>, VortexError>)
    requires
        wf(*indices),
    ensures
        !take_indices_ok(*indices) ==> r == Err::<Vec<u64>, VortexError>(VortexError::TypeMismatch),
        (take_indices_ok(*indices) && !ipositions_in_bounds(
            take_positions(*indices),
            bound as nat,
        )) ==> r == Err::<Vec<u64>, VortexError>(VortexError::OutOfBounds),
        (take_indices_ok(*indices) && ipositions_in_bounds(take_positions(*indices), bound as nat))
            ==> (r matches Ok(v) && v@.map_values(|x: u64| x as int) == take_positions(*indices)
            && crate::gather::positions_in_bounds(v@, bound as nat)),
{
    let p = match indices {
        Array::Primitive(p) => p,
        _ => {
            return Err(VortexError::TypeMismatch);
        },
    };
    if p.ptype.is_float() {
        return Err(VortexError::TypeMismatch);
    }
    if !matches!(&p.validity, crate::validity::Validity::NonNullable) {
        return Err(VortexError::TypeMismatch);
    }
    let w = p.ptype.byte_width();
    let n = p.bytes.len() / w;
    proof {
        assert(n == p.spec_len());
    }
    let mut out: Vec<u64> = Vec::new();
    let mut i: usize = 0;
    #[verifier::loop_isolation(false)]
    while i < n
        invariant
            0 <= i <= n,
            out@.len() == i,
            forall|k: int| 0 <= k < i ==> out@[k] as int == prim_ints(*indices)[k],
            forall|k: int| 0 <= k < i ==> (#[trigger] out@[k]) < bound as u64 || bound == 0,
            forall|k: int| 0 <= k < i ==> 0 <= #[trigger] prim_ints(*indices)[k] < bound as nat,
        decreases n - i,
    {
        proof {
            assert(((i as int) + 1) * p.ptype.spec_byte_width() <= p.bytes@.len())
                by (nonlinear_arith)
                requires
                    0 <= i < n,
                    p.bytes@.len() == n * p.ptype.spec_byte_width(),
                    p.ptype.spec_byte_width() >= 1,
            ;
        }
        let v = pvalue_at(p.ptype, &p.bytes, i);
        match v.as_index() {
            Some(x) => {
                if x < bound as u64 {
                    out.push(x);
                } else {
                    proof {
                        assert(prim_ints(*indices)[i as int] >= bound as nat);
                    }
                    return Err(VortexError::OutOfBounds);
                }
            },
            None => {
                proof {
                    assert(prim_ints(*indices)[i as int] < 0);
                }
                return Err(VortexError::OutOfBounds);
            },
        }
        i = i + 1;
    }
    proof {
        assert(out@.map_values(|x: u64| x as int) =~= take_positions(*indices));
    }
    Ok(out)
}

/// Gather elements by an integer index array: `result[k] = a[indices[k]]`,
/// in order, duplicates kept. Fails on a non-integer or nullable index
/// array, and on any out-of-range position.
pub fn take(a: &Array, indices: &Array) -> (r: Result<Array, VortexError>)
    requires
        wf(*a),
        wf(*indices),
    ensures
        r matches Ok(b) ==> {
            &&& wf(b)
            &&& sdtype(b) == sdtype(*a)
            &&& alen(b) == take_positions(*indices).len()
            &&& elems(b) == Seq::new(
                take_positions(*indices).len(),
                |k: int| elems(*a)[take_positions(*indices)[k]],
            )
        },
        // Taking from an all-null array yields an all-null array.
        r matches Ok(b) ==> ((*a) matches Array::Null(_) ==> b is Null),
        // Taking from a sparse array yields a sparse array over the same
        // fill, whose patched positions and values are exactly the hits.
        r matches Ok(b) ==> ((*a) matches Array::Sparse(sp0) ==> (b matches Array::Sparse(sp1)
            && sparse_take_post(sp0, sp1, take_positions(*indices)))),
        !take_indices_ok(*indices) ==> r == Err::<Array, VortexError>(VortexError::TypeMismatch),
        (take_indices_ok(*indices) && !ipositions_in_bounds(
            take_positions(*indices),
            alen(*a),
        )) ==> r == Err::<Array, VortexError>(VortexError::OutOfBounds),
        (take_indices_ok(*indices) && ipositions_in_bounds(take_positions(*indices), alen(*a))
            && take_ready(*a) && take_positions(*indices).len() * 8 <= usize::MAX) ==> r is Ok,
    decreases *a,
{
    let alen_e = Array::len(a);
    let pos = match positions_from_indices(indices, alen_e) {
        Ok(v) => v,
        Err(e) => {
            return Err(e);
        },
    };
    let ghost tps = take_positions(*indices);
    let ghost gathered_elems = Seq::new(tps.len(), |k: int| elems(*a)[tps[k]]);
    proof {
        assert(crate::gather::gathered(*a, pos@) =~= gathered_elems);
    }
    let n_out = pos.len();
    match a {
        Array::Null(_) => {
            let out = crate::array::NullArray::new(n_out);
            proof {
                assert(elems(Array::Null(out)) =~= gathered_elems);
            }
            Ok(Array::Null(out))
        },
        Array::Struct(st) => {
            let mut new_fields: Vec<Array> = Vec::new();
            let mut j: usize = 0;
            proof {
                lemma_arrays_elems(st.fields@);
                crate::array::lemma_arrays_dtypes(st.fields@);
            }
            #[verifier::loop_isolation(false)]
            while j < st.fields.len()
                invariant
                    0 <= j <= st.fields@.len(),
                    new_fields@.len() == j,
                    forall|k: int|
                        0 <= k < j ==> wf(#[trigger] new_fields@[k]) && sdtype(new_fields@[k])
                            == arrays_dtypes(st.fields@)[k] && elems(new_fields@[k]) == Seq::new(
                            tps.len(),
                            |q: int| arrays_elems(st.fields@)[k][tps[q]],
                        ),
                decreases st.fields@.len() - j,
            {
                proof {
                    assert(decreases_to!(*a => *st));
                    assert(decreases_to!(*st => st.fields));
                    assert(decreases_to!(st.fields => st.fields@));
                    assert(decreases_to!(st.fields@ => st.fields@[j as int]));
                    assert(crate::array::all_wf(st.fields@));
                    assert(wf(st.fields@[j as int]));
                    assert(elems(st.fields@[j as int]).len() == st.len as nat);
                    if take_ready(*a) {
                        assert(take_ready(st.fields@[j as int]));
                    }
                }
                let f = match take(&st.fields[j], indices) {
                    Ok(f) => f,
                    Err(e) => {
                        proof {
                            assert(take_indices_ok(*indices) && ipositions_in_bounds(
                                tps,
                                alen(*a),
                            ));
                        }
                        return Err(e);
                    },
                };
                proof {
                    assert(elems(f) =~= Seq::new(
                        tps.len(),
                        |q: int| arrays_elems(st.fields@)[j as int][tps[q]],
                    ));
                }
                new_fields.push(f);
                j = j + 1;
            }
            let new_validity = st.validity.take(&pos, st.len);
            let names = crate::dtype::clone_strings(&st.names);
            let out = crate::array::StructArray {
                names,
                fields: new_fields,
                len: n_out,
                validity: new_validity,
            };
            proof {
                lemma_arrays_elems(out.fields@);
                crate::array::lemma_arrays_dtypes(out.fields@);
                assert forall|k: int| 0 <= k < out.fields@.len() implies arrays_dtypes(
                    out.fields@,
                )[k] == arrays_dtypes(st.fields@)[k] by {
                    assert(sdtype(out.fields@[k]) == arrays_dtypes(st.fields@)[k]);
                }
                assert(arrays_dtypes(out.fields@) =~= arrays_dtypes(st.fields@));
                assert(out.names@.map_values(|s: String| s@) =~= st.names@.map_values(
                    |s: String| s@,
                ));
                assert(sdtype(Array::Struct(out)) == sdtype(*a));
                assert forall|q: int| 0 <= q < n_out implies out.selems()[q] == gathered_elems[q] by {
                    let i0 = tps[q];
                    assert(out.validity.is_valid(q) == st.validity.is_valid(pos@[q] as int));
                    if out.validity.is_valid(q) {
                        let ess_new = arrays_elems(out.fields@);
                        let ess_old = arrays_elems(st.fields@);
                        assert forall|f: int|
                            0 <= f < ess_new.len() implies #[trigger] ess_new[f][q]
                            == ess_old[f][i0] by {
                            assert(elems(out.fields@[f]) == Seq::new(
                                tps.len(),
                                |q2: int| ess_old[f][tps[q2]],
                            ));
                            assert(ess_new[f] == elems(out.fields@[f]));
                        }
                        assert(Seq::new(ess_new.len(), |f2: int| ess_new[f2][q]) =~= Seq::new(
                            ess_old.len(),
                            |f2: int| ess_old[f2][i0],
                        ));
                    }
                }
                assert(elems(Array::Struct(out)) =~= gathered_elems);
                assert(crate::array::fields_typed(out.fields@, n_out as nat));
                assert(crate::array::all_wf(out.fields@));
            }
            Ok(Array::Struct(out))
        },
        Array::Sparse(sp) => {
            let ids = index_vec(&sp.indices);
            let (p0, p1) = crate::sparse::sparse_take_pairs(&ids, &pos);
            let ghost oi = prim_ints(*sp.indices);
            let ghost ps = crate::sparse::take_pairs(oi, pos@);
            proof {
                crate::sparse::lemma_take_pairs(oi, pos@);
                assert((p0@.len() as int) * 8 <= (pos@.len() as int) * 8) by (nonlinear_arith)
                    requires
                        p0@.len() <= pos@.len(),
                ;
            }
            let pos_arr = match crate::array::PrimitiveArray::from_u64s(&p0) {
                Ok(p) => p,
                Err(e) => {
                    return Err(e);
                },
            };
            let patch_arr = match crate::array::PrimitiveArray::from_u64s(&p1) {
                Ok(p) => p,
                Err(e) => {
                    return Err(e);
                },
            };
            let patch_ind = Array::Primitive(patch_arr);
            proof {
                assert(take_indices_ok(patch_ind));
                assert forall|k: int|
                    0 <= k < take_positions(patch_ind).len() implies 0 <= #[trigger] take_positions(
                    patch_ind,
                )[k] < alen(*sp.values) by {
                    assert(take_positions(patch_ind)[k] == ps[k].1);
                }
                assert(ipositions_in_bounds(take_positions(patch_ind), alen(*sp.values)));
                if take_ready(*a) {
                    assert(take_ready(*sp.values));
                }
                assert((p1@.len() as int) * 8 <= (pos@.len() as int) * 8) by (nonlinear_arith)
                    requires
                        p1@.len() <= pos@.len(),
                ;
            }
            let tv = match take(&sp.values, &patch_ind) {
                Ok(v) => v,
                Err(e) => {
                    proof {
                        if take_indices_ok(*indices) && ipositions_in_bounds(tps, alen(*a))
                            && take_ready(*a) && tps.len() * 8 <= usize::MAX {
                            assert((tps.len() as int) * 8 <= usize::MAX);
                            assert(false);
                        }
                    }
                    return Err(e);
                },
            };
            let out = crate::array::SparseArray {
                indices: Box::new(Array::Primitive(pos_arr)),
                values: Box::new(tv),
                len: n_out,
                fill: sp.fill.clone(),
            };
            proof {
                let ni = prim_ints(*out.indices);
                let nve = elems(*out.values);
                let ove = elems(*sp.values);
                assert(ni == p0@.map_values(|x: u64| x as int));
                // The new patched positions are the pairs' output positions:
                // strictly increasing and inside the new length.
                assert forall|j1: int, j2: int| 0 <= j1 < j2 < ni.len() implies ni[j1] < ni[j2] by {
                    assert(ps[j1].0 < ps[j2].0);
                }
                assert forall|j: int| 0 <= j < ni.len() implies 0 <= #[trigger] ni[j]
                    < out.len as int by {
                    assert(ps[j].0 < pos@.len());
                }
                assert(crate::array::strictly_increasing(ni));
                assert(wf(Array::Sparse(out)));
                assert forall|i: int| 0 <= i < n_out implies out.selems()[i]
                    == gathered_elems[i] by {
                    let target = pos@[i] as int;
                    if ni.contains(i) {
                        let j = ni.index_of(i);
                        assert(0 <= j < ni.len() && ni[j] == i);
                        assert(ps[j].0 == i);
                        assert(oi.contains(pos@[ps[j].0] as int));
                        assert(nve[j] == ove[take_positions(patch_ind)[j]]);
                        assert(take_positions(patch_ind)[j] == ps[j].1);
                        assert(ps[j].1 == oi.index_of(target));
                    } else {
                        if oi.contains(target) {
                            let j = choose|j: int|
                                0 <= j < ps.len() && (#[trigger] ps[j]).0 == i;
                            assert(ni[j] == i);
                            assert(false);
                        }
                    }
                }
                assert(elems(Array::Sparse(out)) =~= gathered_elems);
                // The hit pairs over the requested positions, reread as
                // unsigned values, are the pairs the strategies computed.
                assert(crate::sparse::seq_as_u64s(tps) =~= pos@);
                assert forall|j: int| 0 <= j < ps.len() implies ni[j] == (#[trigger] ps[j]).0 by {
                    assert(p0@.map_values(|x: u64| x as int)[j] == p0@[j] as int);
                }
                assert(elems(*out.values) =~= Seq::new(
                    ps.len(),
                    |j: int| elems(*sp.values)[ps[j].1],
                ));
                assert(sparse_take_post(*sp, out, tps));
            }
            Ok(Array::Sparse(out))
        },
        _ => {
            let d = a.dtype();
            match d {
                DType::Primitive(pt, nl) => {
                    let p = match crate::gather::gather_prim(
                        a,
                        pt,
                        nl,
                        &pos,
                    ) {
                        Ok(p) => p,
                        Err(e) => {
                            proof {
                                if take_positions(*indices).len() * 8 <= usize::MAX {
                                    assert((pos@.len() as int) * (pt.spec_byte_width() as int) <= (
                                    pos@.len() as int) * 8) by (nonlinear_arith)
                                        requires
                                            1 <= pt.spec_byte_width() <= 8,
                                    ;
                                    assert(false);
                                }
                            }
                            return Err(e);
                        },
                    };
                    proof {
                        assert(elems(Array::Primitive(p)) =~= gathered_elems);
                    }
                    Ok(Array::Primitive(p))
                },
                DType::Bool(nl) => {
                    let b = crate::gather::gather_bool(a, nl, &pos);
                    proof {
                        assert(elems(Array::Bool(b)) =~= gathered_elems);
                    }
                    Ok(Array::Bool(b))
                },
                DType::Utf8(_) | DType::Binary(_) => {
                    let v = match crate::gather::gather_binview(a, d, &pos) {
                        Ok(v) => v,
                        Err(e) => {
                            return Err(e);
                        },
                    };
                    proof {
                        assert(elems(Array::VarBinView(v)) =~= gathered_elems);
                    }
                    Ok(Array::VarBinView(v))
                },
                _ => Err(VortexError::TypeMismatch),
            }
        },
    }
}

} // verus!
