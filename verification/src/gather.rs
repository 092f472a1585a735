//! Gathering elements by position into canonical arrays.
//!
//! A gather reads the element at each requested position and lays the results
//! out canonically. `take`, `filter` and canonicalization are all gathers:
//! `take` gathers at caller-chosen positions, `filter` at the positions a
//! mask selects, and canonicalization at every position in order.

use vstd::pervasive::unreached;
use vstd::prelude::*;

use crate::array::{alen, elems, lemma_wf_elems_match, sdtype, wf, Array, BoolArray,
    PrimitiveArray, VarBinViewArray};
use crate::dtype::{DType, DTypeSpec, Nullability, PType};
use crate::error::VortexError;
use crate::scalar::{PValue, ScalarValue, SpecValue};
use crate::validity::Validity;

verus! {

/// The elements of `a` at the given positions, in order.
pub open spec fn gathered(a: Array, positions: Seq<u64>) -> Seq<SpecValue> {
    Seq::new(positions.len(), |k: int| elems(a)[positions[k] as int])
}

/// All positions point into the array.
pub open spec fn positions_in_bounds(positions: Seq<u64>, len: nat) -> bool {
    forall|k: int| 0 <= k < positions.len() ==> (#[trigger] positions[k]) < len
}

/// A zero bit pattern of the given type.
pub fn zero_pvalue(pt: PType) -> (r: PValue)
    ensures
        r.spec_ptype() == pt,
{
    match pt {
        PType::I8 => PValue::I8(0),
        PType::I16 => PValue::I16(0),
        PType::I32 => PValue::I32(0),
        PType::I64 => PValue::I64(0),
        PType::U8 => PValue::U8(0),
        PType::U16 => PValue::U16(0),
        PType::U32 => PValue::U32(0),
        PType::U64 => PValue::U64(0),
        PType::F16 => PValue::F16(0),
        PType::F32 => PValue::F32(0),
        PType::F64 => PValue::F64(0),
    }
}

/// The positions `0, 1, ..., n-1`.
pub fn iota(n: usize) -> (r: Vec<u64>)
    ensures
        r@.len() == n,
        forall|k: int| 0 <= k < n ==> r@[k] == k as u64,
{
    let mut r: Vec<u64> = Vec::new();
    let mut i: usize = 0;
    #[verifier::loop_isolation(false)]
    while i < n
        invariant
            0 <= i <= n,
            r@.len() == i,
            forall|k: int| 0 <= k < i ==> r@[k] == k as u64,
        decreases n - i,
    {
        r.push(i as u64);
        i = i + 1;
    }
    r
}

/// Gather from an array of a primitive type into a primitive array.
pub fn gather_prim(a: &Array, pt: PType, n: Nullability, positions: &Vec<u64>) -> (r: Result<
    PrimitiveArray,
    VortexError,
>)
    requires
        wf(*a),
        sdtype(*a) == DTypeSpec::Primitive(pt, n),
        positions_in_bounds(positions@, alen(*a)),
    ensures
        r matches Ok(p) ==> {
            &&& p.ptype == pt
            &&& p.validity.spec_nullability() == n
            &&& wf(Array::Primitive(p))
            &&& p.selems() == gathered(*a, positions@)
        },
        positions@.len() * pt.spec_byte_width() <= usize::MAX ==> r is Ok,
{
    let w = pt.byte_width();
    if positions.len() > usize::MAX / w {
        return Err(VortexError::InvalidRange);
    }
    proof {
        lemma_wf_elems_match(*a);
    }
    let alen_e = crate::array::Array::len(a);
    let m = positions.len();
    let mut vals: Vec<PValue> = Vec::new();
    let mut mask: Vec<bool> = Vec::new();
    let mut k: usize = 0;
    #[verifier::loop_isolation(false)]
    while k < m
        invariant
            0 <= k <= m,
            vals@.len() == k,
            mask@.len() == k,
            forall|j: int| 0 <= j < k ==> (#[trigger] vals@[j]).spec_ptype() == pt,
            forall|j: int|
                0 <= j < k ==> (#[trigger] mask@[j] == (gathered(*a, positions@)[j]
                    is Primitive)),
            forall|j: int|
                0 <= j < k ==> (mask@[j] ==> gathered(*a, positions@)[j] == SpecValue::Primitive(
                    #[trigger] vals@[j],
                )),
            forall|j: int|
                0 <= j < k ==> (!mask@[j] ==> (#[trigger] gathered(*a, positions@)[j])
                    is Null),
            n is NonNullable ==> forall|j: int| 0 <= j < k ==> #[trigger] mask@[j],
        decreases m - k,
    {
        let pos = positions[k];
        proof {
            assert(positions@[k as int] < alen(*a));
            assert(pos < alen_e as u64);
            assert((elems(*a)[positions@[k as int] as int]).matches(sdtype(*a)));
        }
        let s = match crate::compute::scalar_at(a, pos as usize) {
            Ok(s) => s,
            Err(_) => unreached(),
        };
        proof {
            assert(s@.value == gathered(*a, positions@)[k as int]);
        }
        match s.into_value() {
            ScalarValue::Primitive(pv) => {
                vals.push(pv);
                mask.push(true);
            },
            ScalarValue::Null => {
                proof {
                    assert(n is Nullable);
                }
                let z = zero_pvalue(pt);
                vals.push(z);
                mask.push(false);
            },
            _ => unreached(),
        }
        k = k + 1;
    }
    let validity = if matches!(n, Nullability::NonNullable) {
        Validity::NonNullable
    } else {
        Validity::Array(mask)
    };
    proof {
        assert((m as int) * (pt.spec_byte_width() as int) <= usize::MAX) by (nonlinear_arith)
            requires
                m <= usize::MAX as int / (pt.spec_byte_width() as int),
                1 <= pt.spec_byte_width() <= 8,
        ;
    }
    let p = match PrimitiveArray::from_pvalues(pt, &vals, validity) {
        Ok(p) => p,
        Err(_) => unreached(),
    };
    proof {
        assert forall|j: int| 0 <= j < m implies p.selems()[j] == gathered(*a, positions@)[j] by {
            assert(crate::codec::spec_pvalue_at(pt, p.bytes@, j) == vals@[j]);
            if n is NonNullable {
                assert(mask@[j]);
            } else {
                assert(p.validity.is_valid(j) == mask@[j]);
            }
        }
        assert(p.selems() =~= gathered(*a, positions@));
    }
    Ok(p)
}

/// Gather from an array of booleans into a boolean array.
pub fn gather_bool(a: &Array, n: Nullability, positions: &Vec<u64>) -> (r: BoolArray)
    requires
        wf(*a),
        sdtype(*a) == DTypeSpec::Bool(n),
        positions_in_bounds(positions@, alen(*a)),
    ensures
        r.validity.spec_nullability() == n,
        wf(Array::Bool(r)),
        r.selems() == gathered(*a, positions@),
{
    proof {
        lemma_wf_elems_match(*a);
    }
    let alen_e = crate::array::Array::len(a);
    let m = positions.len();
    let mut vals: Vec<bool> = Vec::new();
    let mut mask: Vec<bool> = Vec::new();
    let mut k: usize = 0;
    #[verifier::loop_isolation(false)]
    while k < m
        invariant
            0 <= k <= m,
            vals@.len() == k,
            mask@.len() == k,
            forall|j: int|
                0 <= j < k ==> (#[trigger] mask@[j] == (gathered(*a, positions@)[j] is Bool)),
            forall|j: int|
                0 <= j < k ==> (mask@[j] ==> gathered(*a, positions@)[j] == SpecValue::Bool(
                    #[trigger] vals@[j],
                )),
            forall|j: int|
                0 <= j < k ==> (!mask@[j] ==> (#[trigger] gathered(*a, positions@)[j])
                    is Null),
            n is NonNullable ==> forall|j: int| 0 <= j < k ==> #[trigger] mask@[j],
        decreases m - k,
    {
        let pos = positions[k];
        proof {
            assert(positions@[k as int] < alen(*a));
            assert(pos < alen_e as u64);
            assert((elems(*a)[positions@[k as int] as int]).matches(sdtype(*a)));
        }
        let s = match crate::compute::scalar_at(a, pos as usize) {
            Ok(s) => s,
            Err(_) => unreached(),
        };
        proof {
            assert(s@.value == gathered(*a, positions@)[k as int]);
        }
        match s.into_value() {
            ScalarValue::Bool(b) => {
                vals.push(b);
                mask.push(true);
            },
            ScalarValue::Null => {
                proof {
                    assert(n is Nullable);
                }
                vals.push(false);
                mask.push(false);
            },
            _ => unreached(),
        }
        k = k + 1;
    }
    let validity = if matches!(n, Nullability::NonNullable) {
        Validity::NonNullable
    } else {
        Validity::Array(mask)
    };
    let b = BoolArray { values: vals, validity };
    proof {
        assert forall|j: int| 0 <= j < m implies b.selems()[j] == gathered(*a, positions@)[j] by {
            if n is NonNullable {
                assert(mask@[j]);
            } else {
                assert(b.validity.is_valid(j) == mask@[j]);
            }
        }
        assert(b.selems() =~= gathered(*a, positions@));
    }
    b
}

/// Gather from a string or binary array into a binary-view array. Fails only
/// when the collected payloads outgrow 32-bit view offsets.
pub fn gather_binview(a: &Array, dtype: DType, positions: &Vec<u64>) -> (r: Result<
    VarBinViewArray,
    VortexError,
>)
    requires
        wf(*a),
        dtype@ == sdtype(*a),
        dtype@ is Utf8 || dtype@ is Binary,
        positions_in_bounds(positions@, alen(*a)),
    ensures
        r matches Ok(v) ==> {
            &&& wf(Array::VarBinView(v))
            &&& v.dtype@ == sdtype(*a)
            &&& v.selems() == gathered(*a, positions@)
        },
{
    proof {
        lemma_wf_elems_match(*a);
    }
    let alen_e = crate::array::Array::len(a);
    let nullable = dtype.is_nullable();
    let m = positions.len();
    let mut payloads: Vec<Vec<u8>> = Vec::new();
    let mut mask: Vec<bool> = Vec::new();
    let mut k: usize = 0;
    let ghost is_utf8 = dtype@ is Utf8;
    #[verifier::loop_isolation(false)]
    while k < m
        invariant
            0 <= k <= m,
            payloads@.len() == k,
            mask@.len() == k,
            forall|j: int|
                0 <= j < k ==> (#[trigger] mask@[j] == !(gathered(*a, positions@)[j] is Null)),
            forall|j: int|
                0 <= j < k ==> (mask@[j] ==> gathered(*a, positions@)[j] == (if is_utf8 {
                    SpecValue::BufferString((#[trigger] payloads@[j])@)
                } else {
                    SpecValue::Buffer(payloads@[j]@)
                })),
            !nullable ==> forall|j: int| 0 <= j < k ==> #[trigger] mask@[j],
        decreases m - k,
    {
        let pos = positions[k];
        proof {
            assert(positions@[k as int] < alen(*a));
            assert(pos < alen_e as u64);
            assert((elems(*a)[positions@[k as int] as int]).matches(sdtype(*a)));
        }
        let s = match crate::compute::scalar_at(a, pos as usize) {
            Ok(s) => s,
            Err(_) => unreached(),
        };
        proof {
            assert(s@.value == gathered(*a, positions@)[k as int]);
        }
        match s.into_value() {
            ScalarValue::BufferString(b) => {
                payloads.push(b);
                mask.push(true);
            },
            ScalarValue::Buffer(b) => {
                payloads.push(b);
                mask.push(true);
            },
            ScalarValue::Null => {
                proof {
                    assert(dtype@.is_nullable());
                }
                payloads.push(Vec::new());
                mask.push(false);
            },
            _ => unreached(),
        }
        k = k + 1;
    }
    let validity = if nullable {
        Validity::Array(mask)
    } else {
        Validity::NonNullable
    };
    let v = match crate::builder::varbinview_from_payloads(&payloads, dtype, validity) {
        Ok(v) => v,
        Err(e) => {
            return Err(e);
        },
    };
    proof {
        let vb = crate::array::u8_bytes(*v.views);
        let bufs = crate::array::data_bytes(v.data@);
        assert forall|j: int| 0 <= j < m implies v.selems()[j] == gathered(*a, positions@)[j] by {
            assert(crate::array::view_payload(vb, bufs, j) == payloads@[j]@);
            if nullable {
                assert(v.validity.is_valid(j) == mask@[j]);
            } else {
                assert(mask@[j]);
            }
        }
        assert(v.selems() =~= gathered(*a, positions@));
    }
    Ok(v)
}

} // verus!
