//! Unsigned integers stored as a roaring bitmap.
//!
//! The bitmap is an outside collection: this crate states what its calls
//! return — the bitmap holds a set of 32-bit values, read back in ascending
//! order — and verifies the array logic on top of those statements.

use vstd::pervasive::unreached;
use vstd::prelude::*;

use crate::array::strictly_increasing;
use crate::dtype::{DType, Nullability, PType};
use crate::error::VortexError;
use crate::scalar::{PValue, Scalar};

verus! {

#[verifier::external_type_specification]
#[verifier::external_body]
pub struct ExBitmap(croaring::Bitmap);

/// The values a bitmap holds, in ascending order.
pub uninterp spec fn bitmap_elems(b: croaring::Bitmap) -> Seq<u32>;

/// The ascending values of a bitmap, as integers.
pub open spec fn bitmap_ints(b: croaring::Bitmap) -> Seq<int> {
    bitmap_elems(b).map_values(|x: u32| x as int)
}

/// Relies on croaring's `Bitmap::of`, which adds every slice element to an
/// empty bitmap: the bitmap then holds exactly the given values, and a
/// bitmap's values always read back ascending and distinct.
#[verifier::external_body]
fn bitmap_of(elements: &Vec<u32>) -> (r: croaring::Bitmap)
    ensures
        strictly_increasing(bitmap_ints(r)),
        forall|x: u32| bitmap_elems(r).contains(x) <==> elements@.contains(x),
{
    croaring::Bitmap::of(elements.as_slice())
}

/// Relies on croaring's `Bitmap::cardinality`: the number of values held.
#[verifier::external_body]
fn bitmap_cardinality(b: &croaring::Bitmap) -> (r: u64)
    ensures
        r as nat == bitmap_elems(*b).len(),
{
    b.cardinality()
}

/// Relies on croaring's `Bitmap::select`: the value at the given rank, in
/// ascending order, when the rank is held.
#[verifier::external_body]
fn bitmap_select(b: &croaring::Bitmap, position: u32) -> (r: Option<u32>)
    ensures
        (position as nat) < bitmap_elems(*b).len() ==> r == Some(
            bitmap_elems(*b)[position as int],
        ),
        (position as nat) >= bitmap_elems(*b).len() ==> r is None,
{
    b.select(position)
}

/// Unsigned integers held as the sorted contents of a roaring bitmap.
#[derive(Debug)]
pub struct RoaringIntArray {
    pub bitmap: croaring::Bitmap,
    pub ptype: PType,
}

impl RoaringIntArray {
    /// Wrap a bitmap; the element type must be an unsigned integer type.
    pub fn try_new(bitmap: croaring::Bitmap, ptype: PType) -> (r: Result<
        RoaringIntArray,
        VortexError,
    >)
        ensures
            ptype.spec_is_unsigned_int() ==> (r matches Ok(a) && a.bitmap == bitmap && a.ptype
                == ptype),
            !ptype.spec_is_unsigned_int() ==> r == Err::<RoaringIntArray, VortexError>(
                VortexError::TypeMismatch,
            ),
    {
        if ptype.is_unsigned_int() {
            Ok(RoaringIntArray { bitmap, ptype })
        } else {
            Err(VortexError::TypeMismatch)
        }
    }

    /// The underlying bitmap.
    pub fn bitmap(&self) -> (r: &croaring::Bitmap)
        ensures
            r == &self.bitmap,
    {
        &self.bitmap
    }

    /// The element type.
    pub fn ptype(&self) -> (r: PType)
        ensures
            r == self.ptype,
    {
        self.ptype
    }

    /// The number of held values.
    pub fn len(&self) -> (r: u64)
        ensures
            r as nat == bitmap_elems(self.bitmap).len(),
    {
        bitmap_cardinality(&self.bitmap)
    }

    /// Whether no value is held.
    pub fn is_empty(&self) -> (r: bool)
        ensures
            r == (bitmap_elems(self.bitmap).len() == 0),
    {
        self.len() == 0
    }

    /// Encode the distinct values of an unsigned-integer array. Every value
    /// must fit in 32 bits.
    pub fn encode(a: &crate::array::Array) -> (r: Result<RoaringIntArray, VortexError>)
        requires
            crate::array::wf(*a),
        ensures
            r matches Ok(out) ==> {
                &&& strictly_increasing(bitmap_ints(out.bitmap))
                &&& forall|x: u32|
                    bitmap_elems(out.bitmap).contains(x) <==> crate::array::prim_ints(*a).contains(
                        x as int,
                    )
                &&& (*a) matches crate::array::Array::Primitive(p) && out.ptype == p.ptype
                &&& out.ptype.spec_is_unsigned_int()
            },
    {
        let p = match a {
            crate::array::Array::Primitive(p) => p,
            _ => {
                return Err(VortexError::TypeMismatch);
            },
        };
        if !p.ptype.is_unsigned_int() || !matches!(
            &p.validity,
            crate::validity::Validity::NonNullable,
        ) {
            return Err(VortexError::TypeMismatch);
        }
        let vals = crate::compute::index_vec(a);
        let mut small: Vec<u32> = Vec::new();
        let mut i: usize = 0;
        #[verifier::loop_isolation(false)]
        while i < vals.len()
            invariant
                0 <= i <= vals@.len(),
                small@.len() == i,
                forall|k: int| 0 <= k < i ==> small@[k] as int == prim_ints_of(a)[k],
            decreases vals@.len() - i,
        {
            let v = vals[i];
            if v > u32::MAX as u64 {
                return Err(VortexError::OutOfBounds);
            }
            small.push(v as u32);
            i = i + 1;
        }
        let bitmap = bitmap_of(&small);
        proof {
            assert forall|x: u32|
                bitmap_elems(bitmap).contains(x) <==> crate::array::prim_ints(*a).contains(
                x as int,
            ) by {
                if small@.contains(x) {
                    let w = choose|w: int| 0 <= w < small@.len() && small@[w] == x;
                    assert(crate::array::prim_ints(*a)[w] == x as int);
                }
                if crate::array::prim_ints(*a).contains(x as int) {
                    let w = choose|w: int|
                        0 <= w < crate::array::prim_ints(*a).len() && crate::array::prim_ints(
                            *a,
                        )[w] == x as int;
                    assert(small@[w] == x);
                    assert(small@.contains(x));
                }
            }
        }
        Ok(RoaringIntArray { bitmap, ptype: p.ptype })
    }

    /// The value the scalar at one rank carries: the rank's bitmap value,
    /// reread at the array's own width (a narrower width keeps the low bits).
    pub open spec fn rank_value(&self, index: int) -> PValue {
        let x = bitmap_elems(self.bitmap)[index];
        match self.ptype {
            PType::U8 => PValue::U8(x as u8),
            PType::U16 => PValue::U16(x as u16),
            PType::U64 => PValue::U64(x as u64),
            _ => PValue::U32(x),
        }
    }

    /// The value at one rank, as a non-null scalar of the array's own type.
    /// Values are served ascending; a rank at or past the held count is out
    /// of bounds.
    pub fn scalar_at(&self, index: usize) -> (r: Result<Scalar, VortexError>)
        requires
            self.ptype.spec_is_unsigned_int(),
        ensures
            (index as nat) < bitmap_elems(self.bitmap).len() && index <= u32::MAX ==> (r matches Ok(
                s,
            ) && s@.value == crate::scalar::SpecValue::Primitive(self.rank_value(index as int))
                && s@.dtype == crate::dtype::DTypeSpec::Primitive(
                self.ptype,
                Nullability::NonNullable,
            )),
            (index as nat) >= bitmap_elems(self.bitmap).len() ==> r == Err::<Scalar, VortexError>(
                VortexError::OutOfBounds,
            ),
    {
        let n = self.len();
        if index as u64 >= n {
            return Err(VortexError::OutOfBounds);
        }
        if index > u32::MAX as usize {
            return Err(VortexError::OutOfBounds);
        }
        let value = match bitmap_select(&self.bitmap, index as u32) {
            Some(v) => v,
            None => unreached(),
        };
        let pv = match self.ptype {
            PType::U8 => PValue::U8(#[verifier::truncate] (value as u8)),
            PType::U16 => PValue::U16(#[verifier::truncate] (value as u16)),
            PType::U64 => PValue::U64(value as u64),
            _ => PValue::U32(value),
        };
        Ok(Scalar::primitive(pv, Nullability::NonNullable))
    }
}

/// The integers a primitive node stores, for stating the encoding's effect.
pub open spec fn prim_ints_of(a: &crate::array::Array) -> Seq<int> {
    crate::array::prim_ints(*a)
}

} // verus!
