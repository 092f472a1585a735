//! Element validity.
//!
//! Each canonical array carries a validity: either its type forbids nulls, or
//! all elements are valid, or all are invalid, or a boolean mask says which
//! element is valid. Operations on validity act pointwise.

use vstd::prelude::*;

use crate::dtype::Nullability;
use crate::error::VortexError;

verus! {

/// Which elements of an array are valid (non-null).
#[derive(Debug, Clone, PartialEq, Eq)]
pub enum Validity {
    /// The element type forbids nulls.
    NonNullable,
    /// Every element is valid.
    AllValid,
    /// Every element is null.
    AllInvalid,
    /// Element `i` is valid exactly when the mask holds `true` at `i`.
    Array(Vec<bool>),
}

/// The validity of an array once constants are spelled out per element.
#[derive(Debug, Clone, PartialEq, Eq)]
pub enum LogicalValidity {
    AllValid(usize),
    AllInvalid(usize),
    Array(Vec<bool>),
}

impl Validity {
    /// Whether element `i` of an array with this validity is valid.
    pub open spec fn is_valid(&self, i: int) -> bool {
        match self {
            Validity::NonNullable => true,
            Validity::AllValid => true,
            Validity::AllInvalid => false,
            Validity::Array(mask) => mask@[i],
        }
    }

    /// Whether this validity fits an array of length `len` whose type has
    /// nullability `n`: a mask has one bit per element, and a type that
    /// forbids nulls carries exactly the `NonNullable` validity.
    pub open spec fn compat(&self, len: nat, n: Nullability) -> bool {
        &&& (self is NonNullable <==> n is NonNullable)
        &&& match self {
            Validity::Array(mask) => mask@.len() == len,
            _ => true,
        }
    }

    /// The nullability of the element type this validity belongs to.
    pub open spec fn spec_nullability(&self) -> Nullability {
        if self is NonNullable {
            Nullability::NonNullable
        } else {
            Nullability::Nullable
        }
    }

    /// The nullability of the element type this validity belongs to.
    #[verifier::when_used_as_spec(spec_nullability)]
    pub fn nullability(&self) -> (n: Nullability)
        ensures
            n == self.spec_nullability(),
    {
        match self {
            Validity::NonNullable => Nullability::NonNullable,
            _ => Nullability::Nullable,
        }
    }

    /// Whether element `i` is valid.
    pub fn valid_at(&self, i: usize) -> (r: bool)
        requires
            self matches Validity::Array(mask) ==> i < mask@.len(),
        ensures
            r == self.is_valid(i as int),
    {
        match self {
            Validity::NonNullable => true,
            Validity::AllValid => true,
            Validity::AllInvalid => false,
            Validity::Array(mask) => mask[i],
        }
    }

    /// The validity of the elements `s..e` of an array with this validity.
    pub fn slice(&self, s: usize, e: usize) -> (r: Validity)
        requires
            s <= e,
            self matches Validity::Array(mask) ==> e <= mask@.len(),
        ensures
            r.spec_nullability() == self.spec_nullability(),
            forall|i: int| 0 <= i < e - s ==> r.is_valid(i) == self.is_valid(s + i),
            r.compat((e - s) as nat, self.spec_nullability()),
    {
        match self {
            Validity::NonNullable => Validity::NonNullable,
            Validity::AllValid => Validity::AllValid,
            Validity::AllInvalid => Validity::AllInvalid,
            Validity::Array(mask) => {
                let mut sub: Vec<bool> = Vec::new();
                let mut i: usize = s;
                #[verifier::loop_isolation(false)]
                while i < e
                    invariant
                        s <= i <= e,
                        sub@.len() == i - s,
                        forall|k: int| 0 <= k < i - s ==> sub@[k] == mask@[s + k],
                    decreases e - i,
                {
                    sub.push(mask[i]);
                    i = i + 1;
                }
                Validity::Array(sub)
            },
        }
    }

    /// The validity of the gather `positions` of an array with this validity:
    /// position `k` of the result is valid exactly when element
    /// `positions[k]` was.
    pub fn take(&self, positions: &Vec<u64>, len: usize) -> (r: Validity)
        requires
            self matches Validity::Array(mask) ==> forall|k: int|
                0 <= k < positions@.len() ==> (#[trigger] positions@[k]) < mask@.len(),
            self matches Validity::Array(mask) ==> mask@.len() == len,
        ensures
            r.spec_nullability() == self.spec_nullability(),
            forall|k: int|
                0 <= k < positions@.len() ==> r.is_valid(k) == self.is_valid(
                    positions@[k] as int,
                ),
            r.compat(positions@.len(), self.spec_nullability()),
    {
        match self {
            Validity::NonNullable => Validity::NonNullable,
            Validity::AllValid => Validity::AllValid,
            Validity::AllInvalid => Validity::AllInvalid,
            Validity::Array(mask) => {
                let mut sub: Vec<bool> = Vec::new();
                let mut i: usize = 0;
                #[verifier::loop_isolation(false)]
                while i < positions.len()
                    invariant
                        0 <= i <= positions@.len(),
                        sub@.len() == i,
                        forall|k: int| 0 <= k < i ==> sub@[k] == mask@[positions@[k] as int],
                    decreases positions@.len() - i,
                {
                    let p = positions[i];
                    sub.push(mask[p as usize]);
                    i = i + 1;
                }
                Validity::Array(sub)
            },
        }
    }

    /// Spell the validity out for an array of length `len`.
    pub fn to_logical(&self, len: usize) -> (r: LogicalValidity)
        requires
            self matches Validity::Array(mask) ==> mask@.len() == len,
        ensures
            forall|i: int| 0 <= i < len ==> r.is_valid(i) == self.is_valid(i),
            r.spec_len() == len,
    {
        match self {
            Validity::NonNullable => LogicalValidity::AllValid(len),
            Validity::AllValid => LogicalValidity::AllValid(len),
            Validity::AllInvalid => LogicalValidity::AllInvalid(len),
            Validity::Array(mask) => LogicalValidity::Array(crate::dtype::clone_bools(mask)),
        }
    }
}

impl LogicalValidity {
    /// Whether element `i` is valid.
    pub open spec fn is_valid(&self, i: int) -> bool {
        match self {
            LogicalValidity::AllValid(_) => true,
            LogicalValidity::AllInvalid(_) => false,
            LogicalValidity::Array(mask) => mask@[i],
        }
    }

    /// How many elements the validity describes.
    pub open spec fn spec_len(&self) -> nat {
        match self {
            LogicalValidity::AllValid(n) => n as nat,
            LogicalValidity::AllInvalid(n) => n as nat,
            LogicalValidity::Array(mask) => mask@.len(),
        }
    }
}

/// A validity combined from a mask built by a filter or a reader: every
/// element valid where the mask holds.
pub fn validity_from_mask(mask: Vec<bool>, nullable: bool) -> (r: Validity)
    ensures
        nullable ==> r == Validity::Array(mask),
        !nullable ==> r is NonNullable,
{
    if nullable {
        Validity::Array(mask)
    } else {
        Validity::NonNullable
    }
}

/// How many positions of the mask hold `true`.
pub open spec fn popcount(mask: Seq<bool>) -> nat
    decreases mask,
{
    if mask.len() == 0 {
        0
    } else {
        popcount(mask.drop_last()) + if mask.last() {
            1nat
        } else {
            0nat
        }
    }
}

/// `popcount` never exceeds the mask's length.
pub proof fn lemma_popcount_le_len(mask: Seq<bool>)
    ensures
        popcount(mask) <= mask.len(),
    decreases mask,
{
    if mask.len() > 0 {
        lemma_popcount_le_len(mask.drop_last());
    }
}

/// A mask of only `true` counts its length; a mask of only `false` counts
/// nothing.
pub proof fn lemma_popcount_const(mask: Seq<bool>)
    ensures
        (forall|i: int| 0 <= i < mask.len() ==> mask[i]) ==> popcount(mask) == mask.len(),
        (forall|i: int| 0 <= i < mask.len() ==> !mask[i]) ==> popcount(mask) == 0,
    decreases mask,
{
    if mask.len() > 0 {
        lemma_popcount_const(mask.drop_last());
    }
}


/// A copy of a validity that behaves the same: same nullability, same
/// verdict at every position, fitting wherever the original fits.
pub fn clone_validity(v: &Validity) -> (r: Validity)
    ensures
        r.spec_nullability() == v.spec_nullability(),
        forall|i: int| r.is_valid(i) == v.is_valid(i),
        forall|len: nat, n: Nullability| r.compat(len, n) == v.compat(len, n),
        (r is NonNullable <==> v is NonNullable),
{
    match v {
        Validity::NonNullable => Validity::NonNullable,
        Validity::AllValid => Validity::AllValid,
        Validity::AllInvalid => Validity::AllInvalid,
        Validity::Array(mask) => {
            let m = crate::dtype::clone_bools(mask);
            Validity::Array(m)
        },
    }
}

} // verus!
