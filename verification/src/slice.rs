//! Slicing a consecutive range of elements.
//!
//! Slicing keeps an array's type and selects the elements `start..stop`.
//! Canonical encodings slice natively — a binary-view slice in particular
//! shares its data children untouched and only narrows the view words — while
//! positional encodings fall back to canonicalizing the selected range.

use vstd::pervasive::unreached;
use vstd::prelude::*;

use crate::array::{
    alen, arrays_dtypes, arrays_elems, data_bytes, elems, lemma_arrays_dtypes, lemma_arrays_elems,
    sdtype, u8_bytes, view_buffer_index, view_offset, view_payload, view_size, view_word_wf, wf,
    Array, PrimitiveArray, VarBinViewArray,
};
use crate::dtype::DType;
use crate::error::VortexError;

verus! {

/// Encodings a slice is always owed on (given the range fits in memory):
/// canonical encodings slice natively; the rest canonicalize first, which is
/// owed for primitive and boolean element types.
pub open spec fn slice_ready(a: Array) -> bool
    decreases a,
{
    match a {
        Array::Null(_) => true,
        Array::Bool(_) => true,
        Array::Primitive(_) => true,
        Array::VarBinView(_) => true,
        Array::Struct(st) => forall|i: int|
            0 <= i < st.fields@.len() ==> slice_ready(#[trigger] st.fields@[i]),
        _ => sdtype(a) is Primitive || sdtype(a) is Bool,
    }
}

/// The elements `start..stop`, as an array of the same type. Every range
/// with `start <= stop <= len` is accepted; anything else is `InvalidRange`.
/// A binary-view slice keeps its data children byte for byte.
pub fn slice(a: &Array, start: usize, stop: usize) -> (r: Result<Array, VortexError>)
    requires
        wf(*a),
    ensures
        r matches Ok(b) ==> {
            &&& wf(b)
            &&& sdtype(b) == sdtype(*a)
            &&& alen(b) == stop - start
            &&& elems(b) == elems(*a).subrange(start as int, stop as int)
        },
        !(start <= stop <= alen(*a)) ==> r == Err::<Array, VortexError>(VortexError::InvalidRange),
        (start <= stop <= alen(*a) && slice_ready(*a) && (stop - start) * 8 <= usize::MAX) ==> r
            is Ok,
        r matches Ok(b) ==> ((*a) matches Array::VarBinView(v0) ==> (b matches Array::VarBinView(
            v1,
        ) && data_bytes(v1.data@) == data_bytes(v0.data@))),
    decreases *a,
{
    let alen_e = Array::len(a);
    if !(start <= stop && stop <= alen_e) {
        return Err(VortexError::InvalidRange);
    }
    match a {
        Array::Null(_) => {
            let out = crate::array::NullArray::new(stop - start);
            proof {
                assert(elems(Array::Null(out)) =~= elems(*a).subrange(start as int, stop as int));
            }
            Ok(Array::Null(out))
        },
        Array::Bool(b) => {
            let mut vals: Vec<bool> = Vec::new();
            let mut i: usize = start;
            #[verifier::loop_isolation(false)]
            while i < stop
                invariant
                    start <= i <= stop,
                    vals@.len() == i - start,
                    forall|k: int| 0 <= k < i - start ==> vals@[k] == b.values@[start + k],
                decreases stop - i,
            {
                vals.push(b.values[i]);
                i = i + 1;
            }
            let out = crate::array::BoolArray { values: vals, validity: b.validity.slice(start, stop) };
            proof {
                assert(out.selems() =~= elems(*a).subrange(start as int, stop as int));
            }
            Ok(Array::Bool(out))
        },
        Array::Primitive(p) => {
            let out = slice_prim(p, start, stop);
            proof {
                assert(out.selems() =~= elems(*a).subrange(start as int, stop as int));
            }
            Ok(Array::Primitive(out))
        },
        Array::VarBinView(v) => {
            let out = slice_binview(v, start, stop);
            proof {
                assert(out.selems() =~= elems(*a).subrange(start as int, stop as int));
            }
            Ok(Array::VarBinView(out))
        },
        Array::Struct(st) => {
            let mut new_fields: Vec<Array> = Vec::new();
            let mut j: usize = 0;
            proof {
                lemma_arrays_elems(st.fields@);
                lemma_arrays_dtypes(st.fields@);
            }
            #[verifier::loop_isolation(false)]
            while j < st.fields.len()
                invariant
                    0 <= j <= st.fields@.len(),
                    new_fields@.len() == j,
                    forall|k: int|
                        0 <= k < j ==> wf(#[trigger] new_fields@[k]) && sdtype(new_fields@[k])
                            == arrays_dtypes(st.fields@)[k] && elems(new_fields@[k])
                            == arrays_elems(st.fields@)[k].subrange(start as int, stop as int),
                decreases st.fields@.len() - j,
            {
                proof {
                    assert(decreases_to!(*a => *st));
                    assert(decreases_to!(*st => st.fields));
                    assert(decreases_to!(st.fields => st.fields@));
                    assert(decreases_to!(st.fields@ => st.fields@[j as int]));
                    assert(crate::array::all_wf(st.fields@));
                    assert(wf(st.fields@[j as int]));
                    assert(elems(st.fields@[j as int]).len() == st.len as nat);
                    if slice_ready(*a) {
                        assert(slice_ready(st.fields@[j as int]));
                    }
                }
                let f = match slice(&st.fields[j], start, stop) {
                    Ok(f) => f,
                    Err(e) => {
                        return Err(e);
                    },
                };
                new_fields.push(f);
                j = j + 1;
            }
            let names = crate::dtype::clone_strings(&st.names);
            let out = crate::array::StructArray {
                names,
                fields: new_fields,
                len: stop - start,
                validity: st.validity.slice(start, stop),
            };
            proof {
                lemma_arrays_elems(out.fields@);
                lemma_arrays_dtypes(out.fields@);
                assert forall|k: int| 0 <= k < out.fields@.len() implies arrays_dtypes(
                    out.fields@,
                )[k] == arrays_dtypes(st.fields@)[k] by {
                    assert(sdtype(out.fields@[k]) == arrays_dtypes(st.fields@)[k]);
                }
                assert(arrays_dtypes(out.fields@) =~= arrays_dtypes(st.fields@));
                assert(out.names@.map_values(|s: String| s@) =~= st.names@.map_values(
                    |s: String| s@,
                ));
                assert(sdtype(Array::Struct(out)) == sdtype(*a));
                assert forall|q: int| 0 <= q < out.len implies out.selems()[q] == elems(
                    *a,
                ).subrange(start as int, stop as int)[q] by {
                    if out.validity.is_valid(q) {
                        let ess_new = arrays_elems(out.fields@);
                        let ess_old = arrays_elems(st.fields@);
                        assert forall|f: int|
                            0 <= f < ess_new.len() implies #[trigger] ess_new[f][q]
                            == ess_old[f][start + q] by {
                            assert(ess_new[f] == elems(out.fields@[f]));
                            assert(out.fields@[f] == new_fields@[f]);
                            assert(elems(new_fields@[f]) == arrays_elems(
                                st.fields@,
                            )[f].subrange(start as int, stop as int));
                            assert(elems(st.fields@[f]).len() == st.len as nat);
                            assert(0 <= q < stop - start);
                            assert(ess_old[f].subrange(start as int, stop as int)[q]
                                == ess_old[f][start + q]);
                        }
                        assert(Seq::new(ess_new.len(), |f2: int| ess_new[f2][q]) =~= Seq::new(
                            ess_old.len(),
                            |f2: int| ess_old[f2][start + q],
                        ));
                    }
                }
                assert(out.selems().len() == (stop - start) as nat);
                assert(elems(*a).subrange(start as int, stop as int).len() == (
                stop - start) as nat);
                assert(out.selems() =~= elems(*a).subrange(start as int, stop as int));
                assert(elems(Array::Struct(out)) == out.selems());
                assert forall|k: int| 0 <= k < out.fields@.len() implies elems(
                    #[trigger] out.fields@[k],
                ).len() == (stop - start) as nat by {
                    assert(elems(new_fields@[k]) == arrays_elems(st.fields@)[k].subrange(
                        start as int,
                        stop as int,
                    ));
                    assert(elems(st.fields@[k]).len() == st.len as nat);
                    assert(arrays_elems(st.fields@)[k] == elems(st.fields@[k]));
                }
                assert(crate::array::fields_typed(out.fields@, (stop - start) as nat));
                assert(crate::array::all_wf(out.fields@));
            }
            Ok(Array::Struct(out))
        },
        _ => {
            // A positional encoding: canonicalize the selected range.
            let mut pos: Vec<u64> = Vec::new();
            let mut i: usize = start;
            #[verifier::loop_isolation(false)]
            while i < stop
                invariant
                    start <= i <= stop,
                    pos@.len() == i - start,
                    forall|k: int| 0 <= k < i - start ==> pos@[k] == (start + k) as u64,
                decreases stop - i,
            {
                pos.push(i as u64);
                i = i + 1;
            }
            proof {
                assert(crate::gather::positions_in_bounds(pos@, alen(*a)));
                assert(crate::gather::gathered(*a, pos@) =~= elems(*a).subrange(
                    start as int,
                    stop as int,
                ));
            }
            let d = a.dtype();
            match d {
                DType::Primitive(pt, nl) => {
                    let p = match crate::gather::gather_prim(a, pt, nl, &pos) {
                        Ok(p) => p,
                        Err(e) => {
                            proof {
                                if ((stop - start) as int) * 8 <= usize::MAX {
                                    assert((pos@.len() as int) * (pt.spec_byte_width() as int) <= (
                                    pos@.len() as int) * 8) by (nonlinear_arith)
                                        requires
                                            1 <= pt.spec_byte_width() <= 8,
                                    ;
                                    assert(false);
                                }
                            }
                            return Err(e);
                        },
                    };
                    Ok(Array::Primitive(p))
                },
                DType::Bool(nl) => {
                    let b = crate::gather::gather_bool(a, nl, &pos);
                    Ok(Array::Bool(b))
                },
                DType::Utf8(_) | DType::Binary(_) => {
                    match crate::gather::gather_binview(a, d, &pos) {
                        Ok(v) => Ok(Array::VarBinView(v)),
                        Err(e) => Err(e),
                    }
                },
                _ => Err(VortexError::TypeMismatch),
            }
        },
    }
}

/// Slice a primitive array on element boundaries.
fn slice_prim(p: &PrimitiveArray, start: usize, stop: usize) -> (out: PrimitiveArray)
    requires
        wf(Array::Primitive(*p)),
        start <= stop <= p.spec_len(),
    ensures
        wf(Array::Primitive(out)),
        out.ptype == p.ptype,
        out.validity.spec_nullability() == p.validity.spec_nullability(),
        out.spec_len() == stop - start,
        out.selems() == p.selems().subrange(start as int, stop as int),
{
    let w = p.ptype.byte_width();
    let nb = p.bytes.len();
    proof {
        assert((start as int) * w <= (stop as int) * w <= p.spec_len() * w) by (nonlinear_arith)
            requires
                0 <= start <= stop <= p.spec_len(),
                w >= 1,
        ;
        assert(p.bytes@.len() == p.spec_len() * w);
        assert((stop as int) * w <= nb);
    }
    let sub = vstd::slice::slice_to_vec(
        vstd::slice::slice_subrange(p.bytes.as_slice(), start * w, stop * w),
    );
    let out = PrimitiveArray {
        ptype: p.ptype,
        bytes: sub,
        validity: p.validity.slice(start, stop),
    };
    proof {
        assert(out.bytes@.len() == ((stop - start) as int) * w) by (nonlinear_arith)
            requires
                out.bytes@.len() == (stop as int) * w - (start as int) * w,
        ;
        assert(out.spec_len() == stop - start) by (nonlinear_arith)
            requires
                out.bytes@.len() == ((stop - start) as int) * w,
                out.spec_len() == out.bytes@.len() / (w as nat),
                w >= 1,
        ;
        assert forall|i: int| 0 <= i < out.spec_len() implies crate::codec::spec_pvalue_at(
            p.ptype,
            out.bytes@,
            i,
        ) == crate::codec::spec_pvalue_at(p.ptype, p.bytes@, start + i) by {
            assert(out.bytes@ == p.bytes@.subrange((start as int) * w, (stop as int) * w));
            crate::codec::lemma_pvalue_at_subrange(p.ptype, p.bytes@, start as int, stop as int, i);
        }
        assert(out.selems() =~= p.selems().subrange(start as int, stop as int));
    }
    out
}

/// Slice a binary-view array: narrow the view words, keep the data children.
fn slice_binview(v: &VarBinViewArray, start: usize, stop: usize) -> (out: VarBinViewArray)
    requires
        wf(Array::VarBinView(*v)),
        start <= stop <= v.spec_len(),
    ensures
        wf(Array::VarBinView(out)),
        out.dtype@ == v.dtype@,
        out.spec_len() == stop - start,
        out.selems() == v.selems().subrange(start as int, stop as int),
        data_bytes(out.data@) == data_bytes(v.data@),
{
    let vp = match &*v.views {
        Array::Primitive(p) => p,
        _ => unreached(),
    };
    let nb = vp.bytes.len();
    proof {
        assert(u8_bytes(*v.views) == vp.bytes@);
        assert(vp.ptype.spec_byte_width() == 1);
        assert(vp.spec_len() == vp.bytes@.len() / 1nat);
        assert(vp.bytes@.len() / 1nat == vp.bytes@.len()) by (nonlinear_arith);
        assert(16 * (start as int) <= 16 * (stop as int) <= vp.bytes@.len()) by (nonlinear_arith)
            requires
                0 <= start <= stop,
                16 * (stop as int) <= 16 * v.spec_len(),
                u8_bytes(*v.views).len() == v.spec_len() * 16,
                vp.bytes@ == u8_bytes(*v.views),
        ;
        assert(16 * (stop as int) <= 16 * v.spec_len()) by (nonlinear_arith)
            requires
                stop <= v.spec_len(),
        ;
        assert(16 * (stop as int) <= nb);
    }
    let views_sub = vstd::slice::slice_to_vec(
        vstd::slice::slice_subrange(vp.bytes.as_slice(), 16 * start, 16 * stop),
    );
    let new_views = crate::builder::u8_child(views_sub);
    let mut new_data: Vec<Array> = Vec::new();
    let mut j: usize = 0;
    proof {
        crate::array::lemma_data_bytes(v.data@);
    }
    #[verifier::loop_isolation(false)]
    while j < v.data.len()
        invariant
            0 <= j <= v.data@.len(),
            new_data@.len() == j,
            forall|k: int|
                0 <= k < j ==> crate::array::is_u8_array(#[trigger] new_data@[k]) && wf(
                    new_data@[k],
                ) && u8_bytes(new_data@[k]) == u8_bytes(v.data@[k]),
        decreases v.data@.len() - j,
    {
        let dc = match &v.data[j] {
            Array::Primitive(p) => p,
            _ => unreached(),
        };
        let copy = crate::builder::u8_child(crate::dtype::clone_bytes(&dc.bytes));
        new_data.push(copy);
        j = j + 1;
    }
    let out = VarBinViewArray {
        views: Box::new(new_views),
        data: new_data,
        dtype: v.dtype.clone(),
        validity: v.validity.slice(start, stop),
    };
    proof {
        crate::array::lemma_data_bytes(out.data@);
        assert forall|k: int| 0 <= k < out.data@.len() implies data_bytes(out.data@)[k]
            == data_bytes(v.data@)[k] by {
            assert(u8_bytes(out.data@[k]) == u8_bytes(v.data@[k]));
        }
        assert(data_bytes(out.data@) =~= data_bytes(v.data@));
        let ovb = u8_bytes(*v.views);
        let nvb = u8_bytes(*out.views);
        let bufs = data_bytes(v.data@);
        assert(nvb == ovb.subrange(16 * (start as int), 16 * (stop as int)));
        assert(out.spec_len() == stop - start) by (nonlinear_arith)
            requires
                nvb.len() == 16 * (stop as int) - 16 * (start as int),
                out.spec_len() == nvb.len() / 16,
        ;
        assert forall|i: int|
            0 <= i < out.spec_len() implies view_size(nvb, i) == view_size(ovb, start + i)
            && view_buffer_index(nvb, i) == view_buffer_index(ovb, start + i) && view_offset(
            nvb,
            i,
        ) == view_offset(ovb, start + i) && nvb.subrange(16 * i + 4, 16 * i + 8) == ovb.subrange(
            16 * (start + i) + 4,
            16 * (start + i) + 8,
        ) by {
            assert(nvb.subrange(16 * i, 16 * i + 4) =~= ovb.subrange(
                16 * (start + i),
                16 * (start + i) + 4,
            ));
            assert(nvb.subrange(16 * i + 4, 16 * i + 8) =~= ovb.subrange(
                16 * (start + i) + 4,
                16 * (start + i) + 8,
            ));
            assert(nvb.subrange(16 * i + 8, 16 * i + 12) =~= ovb.subrange(
                16 * (start + i) + 8,
                16 * (start + i) + 12,
            ));
            assert(nvb.subrange(16 * i + 12, 16 * i + 16) =~= ovb.subrange(
                16 * (start + i) + 12,
                16 * (start + i) + 16,
            ));
        }
        assert forall|i: int| 0 <= i < out.spec_len() implies #[trigger] view_word_wf(
            nvb,
            data_bytes(out.data@),
            i,
        ) && view_payload(nvb, data_bytes(out.data@), i) == view_payload(
            ovb,
            bufs,
            start + i,
        ) by {
            assert(view_word_wf(ovb, bufs, start + i));
            let size = view_size(nvb, i) as int;
            if size <= 12 {
                assert(nvb.subrange(16 * i + 4, 16 * i + 4 + size) =~= ovb.subrange(
                    16 * (start + i) + 4,
                    16 * (start + i) + 4 + size,
                ));
            }
        }
        assert(out.spec_len() * 16 == nvb.len()) by (nonlinear_arith)
            requires
                out.spec_len() == stop - start,
                nvb.len() == 16 * (stop as int) - 16 * (start as int),
        ;
        assert(out.wf());
        assert(wf(*out.views));
        assert forall|k: int| 0 <= k < out.data@.len() implies wf(#[trigger] out.data@[k]) by {
            assert(out.data@[k] == new_data@[k]);
        }
        assert(crate::array::all_wf(out.data@));
        assert forall|i: int| 0 <= i < out.spec_len() implies out.selems()[i] == v.selems()[start
            + i] by {
            assert(view_payload(nvb, data_bytes(out.data@), i) == view_payload(
                ovb,
                bufs,
                start + i,
            ));
            assert(out.validity.is_valid(i) == v.validity.is_valid(start + i));
        }
        assert(out.selems() =~= v.selems().subrange(start as int, stop as int));
    }
    out
}

} // verus!
