//! Canonicalization and mask filtering.
//!
//! Every array can be asked for its canonical form: the buffer-backed layout
//! of its own logical type. Canonicalizing a canonical array copies it;
//! canonicalizing a compressed array spells its elements out. Filtering
//! selects the elements a boolean mask keeps and canonicalizes them.

use vstd::pervasive::unreached;
use vstd::prelude::*;

use crate::array::{
    alen, arrays_dtypes, arrays_elems, elems, lemma_arrays_dtypes, lemma_arrays_elems,
    lemma_wf_elems_match, sdtype, wf, Array, BoolArray, NullArray, PrimitiveArray, StructArray,
    VarBinViewArray,
};
use crate::dtype::{DType, DTypeSpec};
use crate::error::VortexError;
use crate::gather::{gather_binview, gather_bool, gather_prim, gathered, iota};
use crate::scalar::SpecValue;
use crate::validity::clone_validity;

verus! {

/// A canonical array: one variant per canonical encoding.
#[derive(Debug)]
pub enum Canonical {
    Null(NullArray),
    Bool(BoolArray),
    Primitive(PrimitiveArray),
    VarBinView(VarBinViewArray),
    Struct(StructArray),
}

/// The array a canonical value stands for.
pub open spec fn canonical_array(c: Canonical) -> Array {
    match c {
        Canonical::Null(n) => Array::Null(n),
        Canonical::Bool(b) => Array::Bool(b),
        Canonical::Primitive(p) => Array::Primitive(p),
        Canonical::VarBinView(v) => Array::VarBinView(v),
        Canonical::Struct(st) => Array::Struct(st),
    }
}

impl Canonical {
    /// Unwrap into the plain array.
    pub fn into_array(self) -> (r: Array)
        ensures
            r == canonical_array(self),
    {
        match self {
            Canonical::Null(n) => Array::Null(n),
            Canonical::Bool(b) => Array::Bool(b),
            Canonical::Primitive(p) => Array::Primitive(p),
            Canonical::VarBinView(v) => Array::VarBinView(v),
            Canonical::Struct(st) => Array::Struct(st),
        }
    }
}

/// Element types whose canonical form the crate can build: everything but
/// lists and extensions. Strings and binaries may still fail when their
/// payloads outgrow 32-bit view offsets.
pub open spec fn flat_dtype(d: DTypeSpec) -> bool
    decreases d,
{
    match d {
        DTypeSpec::Null => true,
        DTypeSpec::Bool(_) => true,
        DTypeSpec::Primitive(_, _) => true,
        DTypeSpec::Utf8(_) => true,
        DTypeSpec::Binary(_) => true,
        DTypeSpec::Struct(_, cs, _) => forall|i: int|
            0 <= i < cs.len() ==> flat_dtype(#[trigger] cs[i]),
        DTypeSpec::List(_, _) => false,
        DTypeSpec::Extension(_, _, _, _) => false,
    }
}

/// Canonicalization is owed for these arrays (given the length fits in
/// memory): every encoding whose type is primitive, boolean or null, and
/// structs of such fields.
pub open spec fn flatten_ready(a: Array) -> bool
    decreases a,
{
    match a {
        Array::Struct(st) => forall|i: int|
            0 <= i < st.fields@.len() ==> flatten_ready(#[trigger] st.fields@[i]),
        _ => sdtype(a) is Primitive || sdtype(a) is Bool || sdtype(a) is Null,
    }
}

/// The canonical form: an array of the same type denoting the same elements,
/// in a canonical encoding. May copy.
pub fn flatten(a: &Array) -> (r: Result<Canonical, VortexError>)
    requires
        wf(*a),
    ensures
        r matches Ok(c) ==> {
            &&& wf(canonical_array(c))
            &&& sdtype(canonical_array(c)) == sdtype(*a)
            &&& elems(canonical_array(c)) == elems(*a)
        },
        (flatten_ready(*a) && alen(*a) * 8 <= usize::MAX) ==> r is Ok,
    decreases *a,
{
    let n = Array::len(a);
    match a {
        Array::Struct(st) => {
            let mut new_fields: Vec<Array> = Vec::new();
            let mut j: usize = 0;
            proof {
                lemma_arrays_elems(st.fields@);
                lemma_arrays_dtypes(st.fields@);
            }
            #[verifier::loop_isolation(false)]
            while j < st.fields.len()
                invariant
                    0 <= j <= st.fields@.len(),
                    new_fields@.len() == j,
                    forall|k: int|
                        0 <= k < j ==> wf(#[trigger] new_fields@[k]) && sdtype(new_fields@[k])
                            == arrays_dtypes(st.fields@)[k] && elems(new_fields@[k])
                            == arrays_elems(st.fields@)[k],
                decreases st.fields@.len() - j,
            {
                proof {
                    assert(decreases_to!(*a => *st));
                    assert(decreases_to!(*st => st.fields));
                    assert(decreases_to!(st.fields => st.fields@));
                    assert(decreases_to!(st.fields@ => st.fields@[j as int]));
                    assert(crate::array::all_wf(st.fields@));
                    assert(wf(st.fields@[j as int]));
                    assert(elems(st.fields@[j as int]).len() == st.len as nat);
                    if flatten_ready(*a) {
                        assert(flatten_ready(st.fields@[j as int]));
                    }
                }
                let f = match flatten(&st.fields[j]) {
                    Ok(c) => c.into_array(),
                    Err(e) => {
                        return Err(e);
                    },
                };
                new_fields.push(f);
                j = j + 1;
            }
            let names = crate::dtype::clone_strings(&st.names);
            let out = StructArray {
                names,
                fields: new_fields,
                len: st.len,
                validity: clone_validity(&st.validity),
            };
            proof {
                lemma_arrays_elems(out.fields@);
                lemma_arrays_dtypes(out.fields@);
                assert forall|k: int| 0 <= k < out.fields@.len() implies arrays_dtypes(
                    out.fields@,
                )[k] == arrays_dtypes(st.fields@)[k] by {
                    assert(sdtype(out.fields@[k]) == arrays_dtypes(st.fields@)[k]);
                }
                assert(arrays_dtypes(out.fields@) =~= arrays_dtypes(st.fields@));
                assert(out.names@.map_values(|s: String| s@) =~= st.names@.map_values(
                    |s: String| s@,
                ));
                assert(sdtype(Array::Struct(out)) == sdtype(*a));
                assert forall|k: int| 0 <= k < out.fields@.len() implies arrays_elems(
                    out.fields@,
                )[k] == arrays_elems(st.fields@)[k] by {
                    assert(elems(out.fields@[k]) == arrays_elems(st.fields@)[k]);
                }
                assert(arrays_elems(out.fields@) =~= arrays_elems(st.fields@));
                assert forall|q: int| 0 <= q < out.len implies out.selems()[q]
                    == st.selems()[q] by {
                    assert(out.validity.is_valid(q) == st.validity.is_valid(q));
                }
                assert(out.selems() =~= st.selems());
                assert forall|k: int| 0 <= k < out.fields@.len() implies elems(
                    #[trigger] out.fields@[k],
                ).len() == st.len as nat by {
                    assert(elems(new_fields@[k]) == arrays_elems(st.fields@)[k]);
                    assert(elems(st.fields@[k]).len() == st.len as nat);
                    assert(arrays_elems(st.fields@)[k] == elems(st.fields@[k]));
                }
                assert(crate::array::fields_typed(out.fields@, st.len as nat));
                assert(crate::array::all_wf(out.fields@));
            }
            Ok(Canonical::Struct(out))
        },
        _ => {
            let pos = iota(n);
            proof {
                assert(crate::gather::positions_in_bounds(pos@, alen(*a)));
                assert(gathered(*a, pos@) =~= elems(*a));
            }
            let d = a.dtype();
            match d {
                DType::Null => {
                    proof {
                        lemma_wf_elems_match(*a);
                        assert forall|i: int| 0 <= i < alen(*a) implies elems(*a)[i]
                            is Null by {
                            assert(elems(*a)[i].matches(sdtype(*a)));
                        }
                    }
                    let out = NullArray::new(n);
                    proof {
                        assert(elems(Array::Null(out)) =~= elems(*a));
                    }
                    Ok(Canonical::Null(out))
                },
                DType::Primitive(pt, nl) => {
                    let p = match gather_prim(a, pt, nl, &pos) {
                        Ok(p) => p,
                        Err(e) => {
                            proof {
                                if alen(*a) * 8 <= usize::MAX {
                                    assert((pos@.len() as int) * (pt.spec_byte_width() as int) <= (
                                    pos@.len() as int) * 8) by (nonlinear_arith)
                                        requires
                                            1 <= pt.spec_byte_width() <= 8,
                                    ;
                                    assert(false);
                                }
                            }
                            return Err(e);
                        },
                    };
                    Ok(Canonical::Primitive(p))
                },
                DType::Bool(nl) => Ok(Canonical::Bool(gather_bool(a, nl, &pos))),
                DType::Utf8(_) | DType::Binary(_) => {
                    match gather_binview(a, d, &pos) {
                        Ok(v) => Ok(Canonical::VarBinView(v)),
                        Err(e) => Err(e),
                    }
                },
                _ => Err(VortexError::TypeMismatch),
            }
        },
    }
}

/// The positions where the mask holds.
pub open spec fn true_positions(mask: Seq<bool>) -> Seq<int>
    decreases mask,
{
    if mask.len() == 0 {
        Seq::empty()
    } else {
        true_positions(mask.drop_last()) + (if mask.last() {
            seq![mask.len() - 1]
        } else {
            Seq::empty()
        })
    }
}

/// The selected positions are in bounds, in increasing order, and count the
/// mask's popcount; a mask of only `true` selects every position.
pub proof fn lemma_true_positions(mask: Seq<bool>)
    ensures
        true_positions(mask).len() == crate::validity::popcount(mask),
        forall|j: int|
            0 <= j < true_positions(mask).len() ==> 0 <= #[trigger] true_positions(mask)[j]
                < mask.len() && mask[true_positions(mask)[j]],
        forall|j1: int, j2: int|
            0 <= j1 < j2 < true_positions(mask).len() ==> #[trigger] true_positions(mask)[j1]
                < #[trigger] true_positions(mask)[j2],
        (forall|i: int| 0 <= i < mask.len() ==> mask[i]) ==> true_positions(mask) == Seq::new(
            mask.len(),
            |i: int| i,
        ),
    decreases mask,
{
    if mask.len() > 0 {
        lemma_true_positions(mask.drop_last());
        if forall|i: int| 0 <= i < mask.len() ==> mask[i] {
            assert forall|i: int| 0 <= i < mask.len() - 1 implies mask.drop_last()[i] by {
                assert(mask[i]);
            }
            assert(mask[mask.len() - 1]);
            assert(true_positions(mask) =~= Seq::new(mask.len(), |i: int| i));
        }
    }
}

/// Keep the elements a boolean mask selects, canonically laid out. The mask
/// must be a non-nullable boolean array of the filtered array's own length.
pub fn filter(a: &Array, mask: &Array) -> (r: Result<Array, VortexError>)
    requires
        wf(*a),
        wf(*mask),
    ensures
        r matches Ok(b) ==> {
            &&& wf(b)
            &&& sdtype(b) == sdtype(*a)
            &&& mask matches Array::Bool(m) && {
                let tp = true_positions(m.values@);
                &&& alen(b) == tp.len()
                &&& elems(b) == Seq::new(tp.len(), |k: int| elems(*a)[tp[k]])
            }
        },
        !(mask matches Array::Bool(m) && m.validity is NonNullable && alen(*mask) == alen(*a))
            ==> r == Err::<Array, VortexError>(VortexError::TypeMismatch),
        (mask matches Array::Bool(m) && m.validity is NonNullable && alen(*mask) == alen(*a)
            && crate::compute::take_ready(*a) && alen(*a) * 8 <= usize::MAX) ==> r is Ok,
{
    let m = match mask {
        Array::Bool(m) => m,
        _ => {
            return Err(VortexError::TypeMismatch);
        },
    };
    if !matches!(&m.validity, crate::validity::Validity::NonNullable) {
        return Err(VortexError::TypeMismatch);
    }
    let alen_e = Array::len(a);
    if m.values.len() != alen_e {
        return Err(VortexError::TypeMismatch);
    }
    let mut pos: Vec<u64> = Vec::new();
    let mut i: usize = 0;
    proof {
        lemma_true_positions(m.values@);
        assert(m.values@.subrange(0, 0) =~= Seq::<bool>::empty());
    }
    #[verifier::loop_isolation(false)]
    while i < m.values.len()
        invariant
            0 <= i <= m.values@.len(),
            pos@.map_values(|x: u64| x as int) == true_positions(m.values@.subrange(0, i as int)),
        decreases m.values@.len() - i,
    {
        let ghost prefix = m.values@.subrange(0, i as int);
        let ghost prefix2 = m.values@.subrange(0, i as int + 1);
        proof {
            assert(prefix2.drop_last() =~= prefix);
            assert(prefix2.last() == m.values@[i as int]);
        }
        if m.values[i] {
            pos.push(i as u64);
            proof {
                assert(pos@.map_values(|x: u64| x as int) =~= true_positions(prefix2));
            }
        } else {
            proof {
                assert(pos@.map_values(|x: u64| x as int) =~= true_positions(prefix2));
            }
        }
        i = i + 1;
    }
    proof {
        assert(m.values@.subrange(0, m.values@.len() as int) =~= m.values@);
        assert forall|k: int| 0 <= k < pos@.len() implies (#[trigger] pos@[k]) < alen(*a) by {
            assert(pos@.map_values(|x: u64| x as int)[k] == true_positions(m.values@)[k]);
        }
    }
    proof {
        crate::validity::lemma_popcount_le_len(m.values@);
        if alen(*a) * 8 <= usize::MAX {
            assert((pos@.len() as int) * 8 <= (alen(*a) * 8) as int) by (nonlinear_arith)
                requires
                    pos@.len() <= alen(*a),
            ;
        }
    }
    let ind = match crate::array::PrimitiveArray::from_u64s(&pos) {
        Ok(p) => p,
        Err(e) => {
            proof {
                if alen(*a) * 8 <= usize::MAX {
                    assert(false);
                }
            }
            return Err(e);
        },
    };
    let ghost tp = true_positions(m.values@);
    proof {
        assert(crate::compute::take_indices_ok(Array::Primitive(ind)));
        assert forall|k: int|
            0 <= k < crate::compute::take_positions(Array::Primitive(ind)).len() implies 0
            <= #[trigger] crate::compute::take_positions(Array::Primitive(ind))[k] < alen(
            *a,
        ) by {
            assert(crate::compute::take_positions(Array::Primitive(ind))[k] == pos@[k] as int);
            assert(pos@.map_values(|x: u64| x as int)[k] == tp[k]);
        }
        assert(crate::compute::ipositions_in_bounds(
            crate::compute::take_positions(Array::Primitive(ind)),
            alen(*a),
        ));
    }
    match crate::compute::take(a, &Array::Primitive(ind)) {
        Ok(b) => {
            proof {
                assert(crate::compute::take_positions(Array::Primitive(ind)) == pos@.map_values(
                    |x: u64| x as int,
                ));
                assert(elems(b) =~= Seq::new(tp.len(), |k: int| elems(*a)[tp[k]]));
            }
            Ok(b)
        },
        Err(e) => {
            proof {
                if crate::compute::take_ready(*a) && alen(*a) * 8 <= usize::MAX {
                    assert(false);
                }
            }
            Err(e)
        },
    }
}

/// Find the insertion point of an unsigned value in a monotone non-decreasing
/// unsigned-integer array.
pub fn search_sorted(a: &Array, value: u64, side: crate::search_sorted::SearchSortedSide) -> (r:
    Result<crate::search_sorted::SearchResult, VortexError>)
    requires
        wf(*a),
        crate::search_sorted::monotone(crate::array::prim_ints(*a)),
    ensures
        crate::array::is_index_array(*a) ==> (r matches Ok(sr)
            && crate::search_sorted::insertion_point(
            crate::array::prim_ints(*a),
            value as int,
            side,
            sr.spec_index(),
        ) && ((sr is Found) == crate::array::prim_ints(*a).contains(value as int))),
        !crate::array::is_index_array(*a) ==> r == Err::<
            crate::search_sorted::SearchResult,
            VortexError,
        >(VortexError::TypeMismatch),
{
    let p = match a {
        Array::Primitive(p) => p,
        _ => {
            return Err(VortexError::TypeMismatch);
        },
    };
    if !p.ptype.is_unsigned_int() || !matches!(
        &p.validity,
        crate::validity::Validity::NonNullable,
    ) {
        return Err(VortexError::TypeMismatch);
    }
    let ids = crate::compute::index_vec(a);
    let sr = crate::search_sorted::search_sorted_u64s(&ids, value, side);
    Ok(sr)
}

} // verus!
