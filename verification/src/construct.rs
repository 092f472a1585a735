//! Validated constructors and accessors.
//!
//! Construction validates invariants eagerly: a constructor checks at run
//! time exactly the conditions well-formedness asks for and fails with
//! `InvalidSerialization` or `TypeMismatch` when they do not hold.

use vstd::pervasive::unreached;
use vstd::prelude::*;

use crate::array::{
    alen, elems, prim_ints, sdtype, strictly_increasing, wf, Array, ChunkedArray, PrimitiveArray,
    ReeArray, SparseArray, StructArray,
};
use crate::dtype::{dtype_eq, DType};
use crate::error::VortexError;
use crate::scalar::{PValue, Scalar};

use crate::validity::{LogicalValidity, Validity};

verus! {

impl SparseArray {
    /// Patches over a fill: checks that the patched positions are a strictly
    /// increasing run of valid positions, that there is one value per patch
    /// of the fill's own type, and that the fill fits its type.
    pub fn try_new(indices: Array, values: Array, len: usize, fill: Scalar) -> (r: Result<
        SparseArray,
        VortexError,
    >)
        requires
            wf(indices),
            wf(values),
        ensures
            r matches Ok(sp) ==> {
                &&& wf(Array::Sparse(sp))
                &&& sp.len == len
                &&& *sp.indices == indices
                &&& *sp.values == values
                &&& sp.fill@ == fill@
                &&& alen(Array::Sparse(sp)) == len
            },
    {
        let ok_ix = match &indices {
            Array::Primitive(p) => p.ptype.is_unsigned_int() && matches!(
                &p.validity,
                Validity::NonNullable,
            ),
            _ => false,
        };
        if !ok_ix {
            return Err(VortexError::TypeMismatch);
        }
        let ids = crate::compute::index_vec(&indices);
        let mut k: usize = 0;
        #[verifier::loop_isolation(false)]
        while k < ids.len()
            invariant
                0 <= k <= ids@.len(),
                forall|i: int, j: int| 0 <= i < j < k ==> prim_ints(indices)[i] < prim_ints(
                    indices,
                )[j],
                forall|i: int| 0 <= i < k ==> 0 <= #[trigger] prim_ints(indices)[i] < len as int,
            decreases ids@.len() - k,
        {
            if ids[k] >= len as u64 {
                return Err(VortexError::OutOfBounds);
            }
            if k > 0 && ids[k - 1] >= ids[k] {
                return Err(VortexError::InvalidSerialization);
            }
            proof {
                assert forall|i: int, j: int|
                    0 <= i < j < k + 1 implies prim_ints(indices)[i] < prim_ints(indices)[j] by {
                    if j == k as int && i < j - 1 {
                        assert(prim_ints(indices)[i] < prim_ints(indices)[j - 1]);
                        assert(ids@[j - 1] as int == prim_ints(indices)[j - 1]);
                    }
                }
            }
            k = k + 1;
        }
        if Array::len(&values) != ids.len() {
            return Err(VortexError::InvalidSerialization);
        }
        let vd = values.dtype();
        if !dtype_eq(&vd, fill.dtype()) {
            return Err(VortexError::TypeMismatch);
        }
        if !fill.value().matches_dtype(fill.dtype()) {
            return Err(VortexError::TypeMismatch);
        }
        let sp = SparseArray {
            indices: Box::new(indices),
            values: Box::new(values),
            len,
            fill,
        };
        proof {
            assert(strictly_increasing(prim_ints(*sp.indices)));
        }
        Ok(sp)
    }

    /// The patched positions.
    pub fn indices(&self) -> (r: &Array)
        ensures
            r == sp_indices(self),
    {
        &self.indices
    }

    /// The values stored for the patched positions.
    pub fn values(&self) -> (r: &Array)
        ensures
            r == sp_values(self),
    {
        &self.values
    }

    /// The fill scalar, copied.
    pub fn fill_scalar(&self) -> (r: Scalar)
        ensures
            r@ == self.fill@,
    {
        self.fill.clone()
    }
}

/// The patched-positions child of a sparse array.
pub open spec fn sp_indices(sp: &SparseArray) -> &Array {
    &sp.indices
}

/// The values child of a sparse array.
pub open spec fn sp_values(sp: &SparseArray) -> &Array {
    &sp.values
}

impl StructArray {
    /// One field array per name: checks that names and fields pair up, that
    /// no name repeats, that every field has the stated length, and that the
    /// validity fits.
    pub fn try_new(names: Vec<String>, fields: Vec<Array>, length: usize, validity: Validity) -> (r:
        Result<StructArray, VortexError>)
        requires
            crate::array::all_wf(fields@),
        ensures
            r matches Ok(st) ==> {
                &&& wf(Array::Struct(st))
                &&& st.len == length
                &&& st.fields@ == fields@
                &&& st.names@ == names@
                &&& st.validity == validity
                &&& alen(Array::Struct(st)) == length
            },
    {
        if names.len() != fields.len() {
            return Err(VortexError::InvalidSerialization);
        }
        let mut i: usize = 0;
        #[verifier::loop_isolation(false)]
        while i < names.len()
            invariant
                0 <= i <= names@.len(),
                forall|x: int, y: int| 0 <= x < y < i ==> names@[x]@ != names@[y]@,
            decreases names@.len() - i,
        {
            let mut j: usize = 0;
            while j < i
                invariant
                    0 <= j <= i < names@.len(),
                    forall|x: int, y: int| 0 <= x < y < i ==> names@[x]@ != names@[y]@,
                    forall|x: int| 0 <= x < j ==> names@[x]@ != names@[i as int]@,
                decreases i - j,
            {
                if names[j].eq(&names[i]) {
                    return Err(VortexError::InvalidSerialization);
                }
                j = j + 1;
            }
            i = i + 1;
        }
        let mut f: usize = 0;
        #[verifier::loop_isolation(false)]
        while f < fields.len()
            invariant
                0 <= f <= fields@.len(),
                forall|x: int| 0 <= x < f ==> elems(#[trigger] fields@[x]).len() == length as nat,
            decreases fields@.len() - f,
        {
            proof {
                assert(wf(fields@[f as int]));
            }
            if Array::len(&fields[f]) != length {
                return Err(VortexError::InvalidSerialization);
            }
            f = f + 1;
        }
        let vok = match &validity {
            Validity::Array(mask) => mask.len() == length,
            _ => true,
        };
        if !vok {
            return Err(VortexError::InvalidSerialization);
        }
        Ok(StructArray { names, fields, len: length, validity })
    }

    /// The field array at one position.
    pub fn field(&self, idx: usize) -> (r: Option<&Array>)
        ensures
            idx < self.fields@.len() ==> r == Some(&self.fields@[idx as int]),
            idx >= self.fields@.len() ==> r is None,
    {
        if idx < self.fields.len() {
            Some(&self.fields[idx])
        } else {
            None
        }
    }

    /// The field array with the given name.
    pub fn field_by_name(&self, name: &str) -> (r: Option<&Array>)
    {
        let mut i: usize = 0;
        while i < self.names.len()
            invariant
                0 <= i <= self.names@.len(),
            decreases self.names@.len() - i,
        {
            if i < self.fields.len() && self.names[i].as_str() == name {
                return Some(&self.fields[i]);
            }
            i = i + 1;
        }
        None
    }
}

impl ChunkedArray {
    /// Consecutive chunks of one type: checks that every chunk has the stated
    /// type and sums the chunk lengths.
    pub fn try_new(chunks: Vec<Array>, dtype: DType) -> (r: Result<ChunkedArray, VortexError>)
        requires
            crate::array::all_wf(chunks@),
        ensures
            r matches Ok(c) ==> {
                &&& wf(Array::Chunked(c))
                &&& c.chunks@ == chunks@
                &&& c.dtype@ == dtype@
            },
    {
        let mut total: usize = 0;
        let mut i: usize = 0;
        proof {
            crate::array::lemma_chunks_elems_len(chunks@.subrange(0, 0));
            assert(chunks@.subrange(0, 0) =~= Seq::<Array>::empty());
        }
        #[verifier::loop_isolation(false)]
        while i < chunks.len()
            invariant
                0 <= i <= chunks@.len(),
                forall|k: int| 0 <= k < i ==> sdtype(#[trigger] chunks@[k]) == dtype@,
                total as nat == crate::array::chunks_elems(chunks@.subrange(0, i as int)).len(),
            decreases chunks@.len() - i,
        {
            proof {
                assert(wf(chunks@[i as int]));
            }
            let cd = chunks[i].dtype();
            if !dtype_eq(&cd, &dtype) {
                return Err(VortexError::TypeMismatch);
            }
            let cl = Array::len(&chunks[i]);
            if total > usize::MAX - cl {
                return Err(VortexError::InvalidSerialization);
            }
            proof {
                let pre = chunks@.subrange(0, i as int);
                let pre2 = chunks@.subrange(0, i as int + 1);
                assert(pre2.drop_last() =~= pre);
                assert(pre2.last() == chunks@[i as int]);
                crate::array::lemma_chunks_elems_len(pre2);
            }
            total = total + cl;
            i = i + 1;
        }
        proof {
            assert(chunks@.subrange(0, chunks@.len() as int) =~= chunks@);
        }
        Ok(ChunkedArray { chunks, dtype, len: total })
    }

    /// How many chunks the array holds.
    pub fn nchunks(&self) -> (r: usize)
        ensures
            r == self.chunks@.len(),
    {
        self.chunks.len()
    }

    /// The chunk at one position.
    pub fn chunk(&self, idx: usize) -> (r: Option<&Array>)
        ensures
            idx < self.chunks@.len() ==> r == Some(&self.chunks@[idx as int]),
            idx >= self.chunks@.len() ==> r is None,
    {
        if idx < self.chunks.len() {
            Some(&self.chunks[idx])
        } else {
            None
        }
    }
}

impl ReeArray {
    /// Run ends and one value per run: checks that the ends are strictly
    /// increasing non-null unsigned integers that cover the stated length.
    pub fn try_new(ends: Array, values: Array, validity: Validity, length: usize) -> (r: Result<
        ReeArray,
        VortexError,
    >)
        requires
            wf(ends),
            wf(values),
        ensures
            r matches Ok(re) ==> {
                &&& wf(Array::Ree(re))
                &&& re.length == length
                &&& *re.ends == ends
                &&& *re.values == values
                &&& re.offset == 0
                &&& alen(Array::Ree(re)) == length
            },
    {
        let ok_ends = match &ends {
            Array::Primitive(p) => p.ptype.is_unsigned_int() && matches!(
                &p.validity,
                Validity::NonNullable,
            ),
            _ => false,
        };
        if !ok_ends {
            return Err(VortexError::TypeMismatch);
        }
        let es = crate::compute::index_vec(&ends);
        let mut k: usize = 0;
        #[verifier::loop_isolation(false)]
        while k < es.len()
            invariant
                0 <= k <= es@.len(),
                forall|i: int, j: int| 0 <= i < j < k ==> prim_ints(ends)[i] < prim_ints(ends)[j],
            decreases es@.len() - k,
        {
            if k > 0 && es[k - 1] >= es[k] {
                return Err(VortexError::InvalidSerialization);
            }
            proof {
                assert forall|i: int, j: int|
                    0 <= i < j < k + 1 implies prim_ints(ends)[i] < prim_ints(ends)[j] by {
                    if j == k as int && i < j - 1 {
                        assert(prim_ints(ends)[i] < prim_ints(ends)[j - 1]);
                        assert(es@[j - 1] as int == prim_ints(ends)[j - 1]);
                    }
                }
            }
            k = k + 1;
        }
        if Array::len(&values) != es.len() {
            return Err(VortexError::InvalidSerialization);
        }
        if es.len() == 0 {
            if length > 0 {
                return Err(VortexError::InvalidSerialization);
            }
        } else {
            if (es[es.len() - 1] as u64) < length as u64 {
                return Err(VortexError::InvalidSerialization);
            }
        }
        let vok = match &validity {
            Validity::Array(mask) => mask.len() == length,
            _ => true,
        };
        if !vok {
            return Err(VortexError::InvalidSerialization);
        }
        let nullable_ok = matches!(&validity, Validity::NonNullable) || values.dtype().is_nullable();
        if !nullable_ok {
            return Err(VortexError::TypeMismatch);
        }
        let re = ReeArray { ends: Box::new(ends), values: Box::new(values), offset: 0, length, validity };
        proof {
            assert(strictly_increasing(prim_ints(*re.ends)));
            if prim_ints(*re.ends).len() > 0 {
                assert(prim_ints(*re.ends).last() >= re.offset + re.length);
            }
        }
        Ok(re)
    }

    /// The index of the run that covers one logical position.
    pub fn find_physical_index(&self, index: usize) -> (r: Result<usize, VortexError>)
        requires
            wf(Array::Ree(*self)),
            index < self.length,
        ensures
            r matches Ok(k) ==> k as int == crate::array::run_of(
                prim_ints(*self.ends),
                self.offset + index,
            ),
    {
        let es = crate::compute::index_vec(&self.ends);
        proof {
            crate::compute::lemma_strictly_increasing_monotone(prim_ints(*self.ends));
        }
        let pos = match (index as u64).checked_add(self.offset as u64) {
            Some(p) => p,
            None => unreached(),
        };
        let sr = crate::search_sorted::search_sorted_u64s(
            &es,
            pos,
            crate::search_sorted::SearchSortedSide::Right,
        );
        let k = sr.to_index();
        proof {
            crate::compute::lemma_run_of_insertion(
                prim_ints(*self.ends),
                pos as int,
                sr.spec_index(),
            );
        }
        Ok(k)
    }

    /// The run ends.
    pub fn ends(&self) -> (r: &Array) {
        &self.ends
    }

    /// The run values.
    pub fn values(&self) -> (r: &Array) {
        &self.values
    }

    /// The element offset the runs are viewed through.
    pub fn offset(&self) -> (r: usize)
        ensures
            r == self.offset,
    {
        self.offset
    }
}

impl PrimitiveArray {
    /// The stored values, decoded.
    pub fn pvalues(&self) -> (r: Vec<PValue>)
        requires
            wf(Array::Primitive(*self)),
        ensures
            r@.len() == self.spec_len(),
            forall|i: int|
                0 <= i < r@.len() ==> r@[i] == crate::codec::spec_pvalue_at(
                    self.ptype,
                    self.bytes@,
                    i,
                ),
    {
        let w = self.ptype.byte_width();
        let n = self.bytes.len() / w;
        proof {
            assert(n == self.spec_len());
        }
        let mut out: Vec<PValue> = Vec::new();
        let mut i: usize = 0;
        #[verifier::loop_isolation(false)]
        while i < n
            invariant
                0 <= i <= n,
                out@.len() == i,
                forall|k: int|
                    0 <= k < i ==> out@[k] == crate::codec::spec_pvalue_at(
                        self.ptype,
                        self.bytes@,
                        k,
                    ),
            decreases n - i,
        {
            proof {
                assert(((i as int) + 1) * self.ptype.spec_byte_width() <= self.bytes@.len())
                    by (nonlinear_arith)
                    requires
                        0 <= i < n,
                        self.bytes@.len() == n * self.ptype.spec_byte_width(),
                        self.ptype.spec_byte_width() >= 1,
                ;
            }
            out.push(crate::codec::pvalue_at(self.ptype, &self.bytes, i));
            i = i + 1;
        }
        out
    }
}

/// The validity of every logical element, spelled out: whichever variant
/// comes back, it reads valid at exactly the non-null positions.
pub fn logical_validity(a: &Array) -> (r: LogicalValidity)
    requires
        wf(*a),
    ensures
        r.spec_len() == alen(*a),
        forall|i: int| 0 <= i < alen(*a) ==> r.is_valid(i) == !(elems(*a)[i] is Null),
        (*a) matches Array::Null(nu) ==> r == LogicalValidity::AllInvalid(nu.len),
{
    match a {
        Array::Null(n) => LogicalValidity::AllInvalid(n.len),
        Array::Bool(b) => {
            let n = Array::len(a);
            let lv = b.validity.to_logical(n);
            proof {
                assert forall|i: int|
                    0 <= i < alen(*a) implies (elems(*a)[i] is Null) == !b.validity.is_valid(
                    i,
                ) by {
                    assert(elems(*a)[i] == b.selems()[i]);
                }
            }
            lv
        },
        _ => {
            let n = Array::len(a);
            let mut mask: Vec<bool> = Vec::new();
            let mut i: usize = 0;
            #[verifier::loop_isolation(false)]
            while i < n
                invariant
                    0 <= i <= n,
                    mask@.len() == i,
                    forall|k: int| 0 <= k < i ==> mask@[k] == !(elems(*a)[k] is Null),
                decreases n - i,
            {
                let s = match crate::compute::scalar_at(a, i) {
                    Ok(s) => s,
                    Err(_) => unreached(),
                };
                mask.push(!s.is_null());
                i = i + 1;
            }
            LogicalValidity::Array(mask)
        },
    }
}

} // verus!
