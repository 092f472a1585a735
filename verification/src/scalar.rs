//! Single typed values.
//!
//! A [`Scalar`] pairs a [`DType`] with a [`ScalarValue`]; construction checks
//! that the value fits the type. Floating-point elements are carried as their
//! IEEE 754 bit patterns: this crate stores and moves such bits but never
//! computes with them.

use vstd::prelude::*;

use crate::dtype::{DType, DTypeSpec, Nullability, PType};

verus! {

/// One primitive element value. Float variants hold raw bit patterns.
#[derive(Clone, Copy, Debug, PartialEq, Eq, Structural)]
pub enum PValue {
    I8(i8),
    I16(i16),
    I32(i32),
    I64(i64),
    U8(u8),
    U16(u16),
    U32(u32),
    U64(u64),
    F16(u16),
    F32(u32),
    F64(u64),
}

impl PValue {
    /// The primitive type this value belongs to.
    pub open spec fn spec_ptype(self) -> PType {
        match self {
            PValue::I8(_) => PType::I8,
            PValue::I16(_) => PType::I16,
            PValue::I32(_) => PType::I32,
            PValue::I64(_) => PType::I64,
            PValue::U8(_) => PType::U8,
            PValue::U16(_) => PType::U16,
            PValue::U32(_) => PType::U32,
            PValue::U64(_) => PType::U64,
            PValue::F16(_) => PType::F16,
            PValue::F32(_) => PType::F32,
            PValue::F64(_) => PType::F64,
        }
    }

    /// The primitive type this value belongs to.
    #[verifier::when_used_as_spec(spec_ptype)]
    pub fn ptype(self) -> (p: PType)
        ensures
            p == self.spec_ptype(),
    {
        match self {
            PValue::I8(_) => PType::I8,
            PValue::I16(_) => PType::I16,
            PValue::I32(_) => PType::I32,
            PValue::I64(_) => PType::I64,
            PValue::U8(_) => PType::U8,
            PValue::U16(_) => PType::U16,
            PValue::U32(_) => PType::U32,
            PValue::U64(_) => PType::U64,
            PValue::F16(_) => PType::F16,
            PValue::F32(_) => PType::F32,
            PValue::F64(_) => PType::F64,
        }
    }

    /// The mathematical integer a value of an integer type denotes.
    pub open spec fn spec_int_value(self) -> int {
        match self {
            PValue::I8(x) => x as int,
            PValue::I16(x) => x as int,
            PValue::I32(x) => x as int,
            PValue::I64(x) => x as int,
            PValue::U8(x) => x as int,
            PValue::U16(x) => x as int,
            PValue::U32(x) => x as int,
            PValue::U64(x) => x as int,
            PValue::F16(x) => x as int,
            PValue::F32(x) => x as int,
            PValue::F64(x) => x as int,
        }
    }

    /// A non-negative integer value as `u64`, when it fits.
    pub fn as_index(self) -> (r: Option<u64>)
        ensures
            self.spec_ptype().spec_is_int() && 0 <= self.spec_int_value() <= u64::MAX ==> r
                == Some(self.spec_int_value() as u64),
            !(self.spec_ptype().spec_is_int() && 0 <= self.spec_int_value() <= u64::MAX) ==> r
                is None,
    {
        match self {
            PValue::I8(x) => if x >= 0 { Some(x as u64) } else { None },
            PValue::I16(x) => if x >= 0 { Some(x as u64) } else { None },
            PValue::I32(x) => if x >= 0 { Some(x as u64) } else { None },
            PValue::I64(x) => if x >= 0 { Some(x as u64) } else { None },
            PValue::U8(x) => Some(x as u64),
            PValue::U16(x) => Some(x as u64),
            PValue::U32(x) => Some(x as u64),
            PValue::U64(x) => Some(x),
            PValue::F16(_) => None,
            PValue::F32(_) => None,
            PValue::F64(_) => None,
        }
    }
}

/// The value part of a scalar, independent of any encoding.
#[derive(Debug, PartialEq, Eq)]
pub enum ScalarValue {
    Null,
    Bool(bool),
    Primitive(PValue),
    Buffer(Vec<u8>),
    BufferString(Vec<u8>),
    List(Vec<ScalarValue>),
    Struct(Vec<ScalarValue>),
}

/// The mathematical value of a [`ScalarValue`]: sequences in place of
/// vectors. String payloads appear as their UTF-8 bytes.
pub enum SpecValue {
    Null,
    Bool(bool),
    Primitive(PValue),
    Buffer(Seq<u8>),
    BufferString(Seq<u8>),
    List(Seq<SpecValue>),
    Struct(Seq<SpecValue>),
}

/// The view of a single scalar value.
pub open spec fn value_view(v: ScalarValue) -> SpecValue
    decreases v,
{
    match v {
        ScalarValue::Null => SpecValue::Null,
        ScalarValue::Bool(b) => SpecValue::Bool(b),
        ScalarValue::Primitive(p) => SpecValue::Primitive(p),
        ScalarValue::Buffer(b) => SpecValue::Buffer(b@),
        ScalarValue::BufferString(b) => SpecValue::BufferString(b@),
        ScalarValue::List(vs) => SpecValue::List(value_views(vs@)),
        ScalarValue::Struct(vs) => SpecValue::Struct(value_views(vs@)),
    }
}

/// The views of a sequence of scalar values, element by element.
pub open spec fn value_views(s: Seq<ScalarValue>) -> Seq<SpecValue>
    decreases s,
{
    if s.len() == 0 {
        Seq::empty()
    } else {
        value_views(s.drop_last()).push(value_view(s.last()))
    }
}

/// `value_views` maps `value_view` over the sequence, position by position.
pub proof fn lemma_value_views(s: Seq<ScalarValue>)
    ensures
        value_views(s).len() == s.len(),
        forall|i: int| 0 <= i < s.len() ==> value_views(s)[i] == value_view(#[trigger] s[i]),
    decreases s,
{
    if s.len() > 0 {
        lemma_value_views(s.drop_last());
        assert forall|i: int| 0 <= i < s.len() implies value_views(s)[i] == value_view(
            #[trigger] s[i],
        ) by {
            if i < s.len() - 1 {
                assert(s.drop_last()[i] == s[i]);
                assert(value_views(s)[i] == value_views(s.drop_last())[i]);
            } else {
                assert(s.last() == s[i]);
            }
        }
    }
}

impl View for ScalarValue {
    type V = SpecValue;

    open spec fn view(&self) -> SpecValue {
        value_view(*self)
    }
}

impl SpecValue {
    /// Whether a value fits a type: nulls need a nullable type, and every
    /// other value's shape must follow the type's shape.
    pub open spec fn matches(self, d: DTypeSpec) -> bool
        decreases self,
    {
        match self {
            SpecValue::Null => d.is_nullable(),
            SpecValue::Bool(_) => d is Bool,
            SpecValue::Primitive(p) => match d {
                DTypeSpec::Primitive(pt, _) => p.spec_ptype() == pt,
                _ => false,
            },
            SpecValue::Buffer(_) => d is Binary,
            SpecValue::BufferString(_) => d is Utf8,
            SpecValue::List(vs) => match d {
                DTypeSpec::List(elem, _) => all_match(vs, *elem),
                _ => false,
            },
            SpecValue::Struct(vs) => match d {
                DTypeSpec::Struct(_, children, _) => vs.len() == children.len()
                    && fields_match(vs, children),
                _ => false,
            },
        }
    }
}

/// Every value of the sequence fits the one type.
pub open spec fn all_match(vs: Seq<SpecValue>, d: DTypeSpec) -> bool
    decreases vs,
{
    forall|i: int| 0 <= i < vs.len() ==> (#[trigger] vs[i]).matches(d)
}

/// Each value fits the type at its own position.
pub open spec fn fields_match(vs: Seq<SpecValue>, ds: Seq<DTypeSpec>) -> bool
    decreases vs,
{
    forall|i: int| 0 <= i < vs.len() ==> (#[trigger] vs[i]).matches(ds[i])
}

impl ScalarValue {
    /// Whether this value fits the given type.
    pub fn matches_dtype(&self, d: &DType) -> (r: bool)
        ensures
            r == self@.matches(d@),
        decreases *self,
    {
        match self {
            ScalarValue::Null => d.is_nullable(),
            ScalarValue::Bool(_) => matches!(d, DType::Bool(_)),
            ScalarValue::Primitive(p) => match d {
                DType::Primitive(pt, _) => p.ptype() == *pt,
                _ => false,
            },
            ScalarValue::Buffer(_) => matches!(d, DType::Binary(_)),
            ScalarValue::BufferString(_) => matches!(d, DType::Utf8(_)),
            ScalarValue::List(vs) => match d {
                DType::List(elem, eln) => {
                    proof {
                        assert(d@ == DTypeSpec::List(Box::new(dtype_of_box(elem)), *eln));
                    }
                    let mut i: usize = 0;
                    proof {
                        lemma_value_views(vs@);
                    }
                    #[verifier::loop_isolation(false)]
                    while i < vs.len()
                        invariant
                            0 <= i <= vs.len(),
                            forall|k: int|
                                0 <= k < i ==> (#[trigger] value_views(vs@)[k]).matches(
                                    dtype_of_box(elem),
                                ),
                        decreases vs.len() - i,
                    {
                        proof {
                            assert(decreases_to!(*self => *vs));
                            assert(decreases_to!(*vs => vs@));
                            assert(decreases_to!(vs@ => vs@[i as int]));
                        }
                        if !vs[i].matches_dtype(elem) {
                            proof {
                                let vs2 = value_views(vs@);
                                match d@ {
                                    DTypeSpec::List(se, _) => {
                                        assert(!vs2[i as int].matches(*se));
                                        assert(!all_match(vs2, *se));
                                    },
                                    _ => {
                                        assert(false);
                                    },
                                }
                                assert(!SpecValue::List(vs2).matches(d@));
                            }
                            return false;
                        }
                        i = i + 1;
                    }
                    true
                },
                _ => false,
            },
            ScalarValue::Struct(vs) => match d {
                DType::Struct(_, children, _) => {
                    if vs.len() != children.len() {
                        proof {
                            lemma_value_views(vs@);
                            crate::dtype::lemma_dtype_views(children@);
                        }
                        return false;
                    }
                    let mut i: usize = 0;
                    proof {
                        lemma_value_views(vs@);
                        crate::dtype::lemma_dtype_views(children@);
                    }
                    #[verifier::loop_isolation(false)]
                    while i < vs.len()
                        invariant
                            0 <= i <= vs.len(),
                            forall|k: int|
                                0 <= k < i ==> (#[trigger] value_views(vs@)[k]).matches(
                                    crate::dtype::dtype_views(children@)[k],
                                ),
                        decreases vs.len() - i,
                    {
                        proof {
                            assert(decreases_to!(*self => *vs));
                            assert(decreases_to!(*vs => vs@));
                            assert(decreases_to!(vs@ => vs@[i as int]));
                        }
                        if !vs[i].matches_dtype(&children[i]) {
                            proof {
                                assert(!value_views(vs@)[i as int].matches(
                                    crate::dtype::dtype_views(children@)[i as int],
                                ));
                                assert(!fields_match(
                                    value_views(vs@),
                                    crate::dtype::dtype_views(children@),
                                ));
                            }
                            return false;
                        }
                        i = i + 1;
                    }
                    true
                },
                _ => false,
            },
        }
    }
}

/// The view of a boxed type.
pub open spec fn dtype_of_box(d: &Box<DType>) -> DTypeSpec {
    crate::dtype::dtype_view(**d)
}

/// A single typed value: a logical type together with a value that fits it.
#[derive(Debug, PartialEq, Eq)]
pub struct Scalar {
    pub dtype: DType,
    pub value: ScalarValue,
}

/// The mathematical value of a [`Scalar`].
pub struct ScalarSpec {
    pub dtype: DTypeSpec,
    pub value: SpecValue,
}

impl View for Scalar {
    type V = ScalarSpec;

    open spec fn view(&self) -> ScalarSpec {
        ScalarSpec { dtype: self.dtype@, value: self.value@ }
    }
}

impl Scalar {
    /// Whether the pairing of value and type is allowed.
    pub open spec fn wf(self) -> bool {
        self.value@.matches(self.dtype@)
    }

    /// Pair a value with a type; reject a value that does not fit the type.
    pub fn try_new(dtype: DType, value: ScalarValue) -> (r: Result<Scalar, crate::error::VortexError>)
        ensures
            value@.matches(dtype@) ==> (r matches Ok(s) && s@.dtype == dtype@ && s@.value
                == value@ && s.wf()),
            !value@.matches(dtype@) ==> r is Err,
    {
        if value.matches_dtype(&dtype) {
            Ok(Scalar { dtype, value })
        } else {
            Err(crate::error::VortexError::TypeMismatch)
        }
    }

    /// The null scalar of a nullable type.
    pub fn null(dtype: DType) -> (r: Scalar)
        requires
            dtype@.is_nullable(),
        ensures
            r@.dtype == dtype@,
            r@.value == SpecValue::Null,
            r.wf(),
    {
        Scalar { dtype, value: ScalarValue::Null }
    }

    /// The scalar's type.
    pub fn dtype(&self) -> (d: &DType)
        ensures
            d@ == self@.dtype,
    {
        &self.dtype
    }

    /// The scalar's value.
    pub fn value(&self) -> (v: &ScalarValue)
        ensures
            v@ == self@.value,
    {
        &self.value
    }

    /// Take the scalar apart into its value.
    pub fn into_value(self) -> (v: ScalarValue)
        ensures
            v@ == self@.value,
    {
        self.value
    }

    /// Whether the scalar is null.
    pub fn is_null(&self) -> (r: bool)
        ensures
            r == (self@.value is Null),
    {
        matches!(self.value, ScalarValue::Null)
    }

    /// A boolean scalar.
    pub fn bool_(b: bool, n: Nullability) -> (r: Scalar)
        ensures
            r@.dtype == DTypeSpec::Bool(n),
            r@.value == SpecValue::Bool(b),
            r.wf(),
    {
        Scalar { dtype: DType::Bool(n), value: ScalarValue::Bool(b) }
    }

    /// A primitive scalar of the value's own type.
    pub fn primitive(p: PValue, n: Nullability) -> (r: Scalar)
        ensures
            r@.dtype == DTypeSpec::Primitive(p.spec_ptype(), n),
            r@.value == SpecValue::Primitive(p),
            r.wf(),
    {
        Scalar { dtype: DType::Primitive(p.ptype(), n), value: ScalarValue::Primitive(p) }
    }

    /// A UTF-8 scalar from its byte payload.
    pub fn utf8(bytes: Vec<u8>, n: Nullability) -> (r: Scalar)
        ensures
            r@.dtype == DTypeSpec::Utf8(n),
            r@.value == SpecValue::BufferString(bytes@),
            r.wf(),
    {
        Scalar { dtype: DType::Utf8(n), value: ScalarValue::BufferString(bytes) }
    }

    /// A binary scalar from its byte payload.
    pub fn binary(bytes: Vec<u8>, n: Nullability) -> (r: Scalar)
        ensures
            r@.dtype == DTypeSpec::Binary(n),
            r@.value == SpecValue::Buffer(bytes@),
            r.wf(),
    {
        Scalar { dtype: DType::Binary(n), value: ScalarValue::Buffer(bytes) }
    }
}

/// A binary scalar value on its own: a byte payload.
#[derive(Debug, Clone, PartialEq, Eq)]
pub struct BinaryScalar {
    pub value: Vec<u8>,
}

impl BinaryScalar {
    /// Wrap a byte payload.
    pub fn new(value: Vec<u8>) -> (r: BinaryScalar)
        ensures
            r.value@ == value@,
    {
        BinaryScalar { value }
    }

    /// The byte payload.
    pub fn value(&self) -> (v: &Vec<u8>)
        ensures
            v@ == self.value@,
    {
        &self.value
    }
}

impl View for BinaryScalar {
    type V = Seq<u8>;

    open spec fn view(&self) -> Seq<u8> {
        self.value@
    }
}

/// A UTF-8 scalar value on its own: a byte payload that callers promise is
/// valid UTF-8.
#[derive(Debug, Clone, PartialEq, Eq)]
pub struct Utf8Scalar {
    pub value: Vec<u8>,
}

impl Utf8Scalar {
    /// Wrap a UTF-8 byte payload.
    pub fn new(value: Vec<u8>) -> (r: Utf8Scalar)
        ensures
            r.value@ == value@,
    {
        Utf8Scalar { value }
    }

    /// The byte payload.
    pub fn value(&self) -> (v: &Vec<u8>)
        ensures
            v@ == self.value@,
    {
        &self.value
    }
}

impl View for Utf8Scalar {
    type V = Seq<u8>;

    open spec fn view(&self) -> Seq<u8> {
        self.value@
    }
}

impl Clone for ScalarValue {
    /// A deep copy whose view equals the original's.
    fn clone(&self) -> (r: Self)
        ensures
            r@ == self@,
        decreases *self,
    {
        match self {
            ScalarValue::Null => ScalarValue::Null,
            ScalarValue::Bool(b) => ScalarValue::Bool(*b),
            ScalarValue::Primitive(p) => ScalarValue::Primitive(*p),
            ScalarValue::Buffer(b) => ScalarValue::Buffer(crate::dtype::clone_bytes(b)),
            ScalarValue::BufferString(b) => ScalarValue::BufferString(crate::dtype::clone_bytes(b)),
            ScalarValue::List(vs) => ScalarValue::List(clone_values(vs)),
            ScalarValue::Struct(vs) => ScalarValue::Struct(clone_values(vs)),
        }
    }
}

/// A copy of a list of scalar values whose views equal the originals',
/// element by element.
pub fn clone_values(v: &Vec<ScalarValue>) -> (r: Vec<ScalarValue>)
    ensures
        r@.len() == v@.len(),
        value_views(r@) == value_views(v@),
        forall|i: int| 0 <= i < v@.len() ==> (#[trigger] r@[i])@ == v@[i]@,
    decreases v@,
{
    let mut r: Vec<ScalarValue> = Vec::new();
    let mut i: usize = 0;
    while i < v.len()
        invariant
            0 <= i <= v.len(),
            r@.len() == i,
            forall|j: int| 0 <= j < i ==> (#[trigger] r@[j])@ == v@[j]@,
        decreases v.len() - i,
    {
        r.push(v[i].clone());
        i = i + 1;
    }
    proof {
        lemma_value_views(r@);
        lemma_value_views(v@);
        assert forall|k: int| 0 <= k < r@.len() implies value_views(r@)[k] == value_views(
            v@,
        )[k] by {
            assert(r@[k]@ == v@[k]@);
        }
        assert(value_views(r@) =~= value_views(v@));
    }
    r
}

impl Clone for Scalar {
    /// A deep copy whose view equals the original's.
    fn clone(&self) -> (r: Self)
        ensures
            r@ == self@,
            r.wf() == self.wf(),
    {
        Scalar { dtype: self.dtype.clone(), value: self.value.clone() }
    }
}

} // verus!
