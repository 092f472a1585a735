//! Logical element types.
//!
//! A [`DType`] describes what the elements of an array are (booleans,
//! fixed-width numbers, strings, byte strings, structs, lists, extensions),
//! together with their nullability. It says nothing about the physical
//! encoding of an array.

use vstd::prelude::*;

verus! {

/// Width and signedness of a fixed-size primitive element.
///
/// The float widths describe elements whose bytes carry an IEEE 754 bit
/// pattern; this crate stores and moves those bits without arithmetic on them.
#[derive(Clone, Copy, Debug, PartialEq, Eq, Structural)]
pub enum PType {
    I8,
    I16,
    I32,
    I64,
    U8,
    U16,
    U32,
    U64,
    F16,
    F32,
    F64,
}

impl PType {
    /// Number of bytes a single element of this primitive type occupies.
    pub open spec fn spec_byte_width(self) -> usize {
        match self {
            PType::I8 | PType::U8 => 1usize,
            PType::I16 | PType::U16 | PType::F16 => 2usize,
            PType::I32 | PType::U32 | PType::F32 => 4usize,
            PType::I64 | PType::U64 | PType::F64 => 8usize,
        }
    }

    /// Number of bytes a single element of this primitive type occupies.
    #[verifier::when_used_as_spec(spec_byte_width)]
    pub fn byte_width(self) -> (w: usize)
        ensures
            w == self.spec_byte_width(),
            1 <= w <= 8,
    {
        match self {
            PType::I8 | PType::U8 => 1,
            PType::I16 | PType::U16 | PType::F16 => 2,
            PType::I32 | PType::U32 | PType::F32 => 4,
            PType::I64 | PType::U64 | PType::F64 => 8,
        }
    }

    /// Whether this type is an unsigned integer type.
    pub open spec fn spec_is_unsigned_int(self) -> bool {
        match self {
            PType::U8 | PType::U16 | PType::U32 | PType::U64 => true,
            _ => false,
        }
    }

    /// Whether this type is an unsigned integer type.
    #[verifier::when_used_as_spec(spec_is_unsigned_int)]
    pub fn is_unsigned_int(self) -> (r: bool)
        ensures
            r == self.spec_is_unsigned_int(),
    {
        match self {
            PType::U8 | PType::U16 | PType::U32 | PType::U64 => true,
            _ => false,
        }
    }

    /// Whether this type is a signed integer type.
    pub open spec fn spec_is_signed_int(self) -> bool {
        match self {
            PType::I8 | PType::I16 | PType::I32 | PType::I64 => true,
            _ => false,
        }
    }

    /// Whether this type is a signed integer type.
    #[verifier::when_used_as_spec(spec_is_signed_int)]
    pub fn is_signed_int(self) -> (r: bool)
        ensures
            r == self.spec_is_signed_int(),
    {
        match self {
            PType::I8 | PType::I16 | PType::I32 | PType::I64 => true,
            _ => false,
        }
    }

    /// Whether this type is an integer type of either signedness.
    pub open spec fn spec_is_int(self) -> bool {
        self.spec_is_unsigned_int() || self.spec_is_signed_int()
    }

    /// Whether this type is an integer type of either signedness.
    #[verifier::when_used_as_spec(spec_is_int)]
    pub fn is_int(self) -> (r: bool)
        ensures
            r == self.spec_is_int(),
    {
        self.is_unsigned_int() || self.is_signed_int()
    }

    /// Whether this type carries an IEEE 754 bit pattern.
    pub open spec fn spec_is_float(self) -> bool {
        match self {
            PType::F16 | PType::F32 | PType::F64 => true,
            _ => false,
        }
    }

    /// Whether this type carries an IEEE 754 bit pattern.
    #[verifier::when_used_as_spec(spec_is_float)]
    pub fn is_float(self) -> (r: bool)
        ensures
            r == self.spec_is_float(),
    {
        match self {
            PType::F16 | PType::F32 | PType::F64 => true,
            _ => false,
        }
    }
}

/// Whether elements of a type may be null.
#[derive(Clone, Copy, Debug, PartialEq, Eq, Structural)]
pub enum Nullability {
    NonNullable,
    Nullable,
}

impl Nullability {
    /// Convert a boolean "is nullable" flag.
    pub fn from_bool(nullable: bool) -> (n: Nullability)
        ensures
            n == (if nullable {
                Nullability::Nullable
            } else {
                Nullability::NonNullable
            }),
    {
        if nullable {
            Nullability::Nullable
        } else {
            Nullability::NonNullable
        }
    }
}

/// The logical type of an array's elements.
///
/// `Null` elements are always null, so the variant carries no nullability.
/// A `Struct` holds one name and one child type per field; well-formed struct
/// types have as many names as children and no repeated name.
#[derive(Debug, PartialEq, Eq)]
pub enum DType {
    Null,
    Bool(Nullability),
    Primitive(PType, Nullability),
    Utf8(Nullability),
    Binary(Nullability),
    Struct(Vec<String>, Vec<DType>, Nullability),
    List(Box<DType>, Nullability),
    Extension(String, Box<DType>, Vec<u8>, Nullability),
}

/// The mathematical value of a [`DType`]: the same shape, with sequences in
/// place of vectors and strings. Contracts compare types through this view.
pub enum DTypeSpec {
    Null,
    Bool(Nullability),
    Primitive(PType, Nullability),
    Utf8(Nullability),
    Binary(Nullability),
    Struct(Seq<Seq<char>>, Seq<DTypeSpec>, Nullability),
    List(Box<DTypeSpec>, Nullability),
    Extension(Seq<char>, Box<DTypeSpec>, Seq<u8>, Nullability),
}

/// The view of a single type.
pub open spec fn dtype_view(d: DType) -> DTypeSpec
    decreases d,
{
    match d {
        DType::Null => DTypeSpec::Null,
        DType::Bool(n) => DTypeSpec::Bool(n),
        DType::Primitive(p, n) => DTypeSpec::Primitive(p, n),
        DType::Utf8(n) => DTypeSpec::Utf8(n),
        DType::Binary(n) => DTypeSpec::Binary(n),
        DType::Struct(names, children, n) => DTypeSpec::Struct(
            names@.map_values(|s: String| s@),
            dtype_views(children@),
            n,
        ),
        DType::List(elem, n) => DTypeSpec::List(Box::new(dtype_view(*elem)), n),
        DType::Extension(id, storage, meta, n) => DTypeSpec::Extension(
            id@,
            Box::new(dtype_view(*storage)),
            meta@,
            n,
        ),
    }
}

/// The views of a sequence of types, element by element.
pub open spec fn dtype_views(s: Seq<DType>) -> Seq<DTypeSpec>
    decreases s,
{
    if s.len() == 0 {
        Seq::empty()
    } else {
        dtype_views(s.drop_last()).push(dtype_view(s.last()))
    }
}

/// `dtype_views` maps `dtype_view` over the sequence, position by position.
pub proof fn lemma_dtype_views(s: Seq<DType>)
    ensures
        dtype_views(s).len() == s.len(),
        forall|i: int| 0 <= i < s.len() ==> dtype_views(s)[i] == dtype_view(#[trigger] s[i]),
    decreases s,
{
    if s.len() > 0 {
        lemma_dtype_views(s.drop_last());
        assert forall|i: int| 0 <= i < s.len() implies dtype_views(s)[i] == dtype_view(
            #[trigger] s[i],
        ) by {
            if i < s.len() - 1 {
                assert(s.drop_last()[i] == s[i]);
                assert(dtype_views(s)[i] == dtype_views(s.drop_last())[i]);
            } else {
                assert(s.last() == s[i]);
            }
        }
    }
}

impl View for DType {
    type V = DTypeSpec;

    open spec fn view(&self) -> DTypeSpec {
        dtype_view(*self)
    }
}

impl DTypeSpec {
    /// Whether elements of this type may be null.
    pub open spec fn is_nullable(self) -> bool {
        match self {
            DTypeSpec::Null => true,
            DTypeSpec::Bool(n) => n is Nullable,
            DTypeSpec::Primitive(_, n) => n is Nullable,
            DTypeSpec::Utf8(n) => n is Nullable,
            DTypeSpec::Binary(n) => n is Nullable,
            DTypeSpec::Struct(_, _, n) => n is Nullable,
            DTypeSpec::List(_, n) => n is Nullable,
            DTypeSpec::Extension(_, _, _, n) => n is Nullable,
        }
    }

    /// A struct type's field names match its children one to one and repeat
    /// no name; the condition holds recursively for every nested type.
    pub open spec fn well_formed(self) -> bool
        decreases self,
    {
        match self {
            DTypeSpec::Null => true,
            DTypeSpec::Bool(_) => true,
            DTypeSpec::Primitive(_, _) => true,
            DTypeSpec::Utf8(_) => true,
            DTypeSpec::Binary(_) => true,
            DTypeSpec::Struct(names, children, _) => names.len() == children.len()
                && names_distinct(names) && all_well_formed(children),
            DTypeSpec::List(elem, _) => elem.well_formed(),
            DTypeSpec::Extension(_, storage, _, _) => storage.well_formed(),
        }
    }
}

/// No name repeats.
pub open spec fn names_distinct(names: Seq<Seq<char>>) -> bool {
    forall|i: int, j: int| 0 <= i < j < names.len() ==> names[i] != names[j]
}

/// Every type in the sequence is well-formed.
pub open spec fn all_well_formed(cs: Seq<DTypeSpec>) -> bool
    decreases cs,
{
    forall|i: int| 0 <= i < cs.len() ==> (#[trigger] cs[i]).well_formed()
}

impl DType {
    /// Whether elements of this type may be null.
    pub open spec fn spec_is_nullable(&self) -> bool {
        self@.is_nullable()
    }

    /// Whether elements of this type may be null.
    #[verifier::when_used_as_spec(spec_is_nullable)]
    pub fn is_nullable(&self) -> (r: bool)
        ensures
            r == self@.is_nullable(),
    {
        match self {
            DType::Null => true,
            DType::Bool(n) => matches!(n, Nullability::Nullable),
            DType::Primitive(_, n) => matches!(n, Nullability::Nullable),
            DType::Utf8(n) => matches!(n, Nullability::Nullable),
            DType::Binary(n) => matches!(n, Nullability::Nullable),
            DType::Struct(_, _, n) => matches!(n, Nullability::Nullable),
            DType::List(_, n) => matches!(n, Nullability::Nullable),
            DType::Extension(_, _, _, n) => matches!(n, Nullability::Nullable),
        }
    }

    /// Replace this type's nullability, keeping everything else.
    pub fn with_nullability(self, n: Nullability) -> (r: DType)
        ensures
            r@.is_nullable() == (n is Nullable) || self is Null,
    {
        match self {
            DType::Null => DType::Null,
            DType::Bool(_) => DType::Bool(n),
            DType::Primitive(p, _) => DType::Primitive(p, n),
            DType::Utf8(_) => DType::Utf8(n),
            DType::Binary(_) => DType::Binary(n),
            DType::Struct(names, children, _) => DType::Struct(names, children, n),
            DType::List(elem, _) => DType::List(elem, n),
            DType::Extension(id, storage, meta, _) => DType::Extension(id, storage, meta, n),
        }
    }
}

impl Clone for DType {
    /// A deep copy whose view equals the original's.
    fn clone(&self) -> (r: Self)
        ensures
            r@ == self@,
        decreases *self,
    {
        match self {
            DType::Null => DType::Null,
            DType::Bool(n) => DType::Bool(*n),
            DType::Primitive(p, n) => DType::Primitive(*p, *n),
            DType::Utf8(n) => DType::Utf8(*n),
            DType::Binary(n) => DType::Binary(*n),
            DType::Struct(names, children, n) => {
                let names_c = clone_strings(names);
                let children_c = clone_dtypes(children);
                let r = DType::Struct(names_c, children_c, *n);
                proof {
                    assert(names_c@.map_values(|s: String| s@) =~= names@.map_values(
                        |s: String| s@,
                    ));
                }
                r
            },
            DType::List(elem, n) => DType::List(Box::new((**elem).clone()), *n),
            DType::Extension(id, storage, meta, n) => {
                let meta_c = clone_bytes(meta);
                proof {
                    assert(meta_c@ =~= meta@);
                }
                DType::Extension(id.clone(), Box::new((**storage).clone()), meta_c, *n)
            },
        }
    }
}

/// A copy of a list of strings with an equal view.
pub fn clone_strings(v: &Vec<String>) -> (r: Vec<String>)
    ensures
        r@ == v@,
{
    let r = v.clone();
    proof {
        assert(r@ =~= v@);
    }
    r
}

/// A copy of a byte vector with an equal view.
pub fn clone_bytes(v: &Vec<u8>) -> (r: Vec<u8>)
    ensures
        r@ == v@,
{
    let r = v.clone();
    proof {
        assert(r@ =~= v@);
    }
    r
}

/// A copy of a boolean mask with an equal view.
pub fn clone_bools(v: &Vec<bool>) -> (r: Vec<bool>)
    ensures
        r@ == v@,
{
    let r = v.clone();
    proof {
        assert(r@ =~= v@);
    }
    r
}

/// A copy of a list of types whose views equal the originals', element by
/// element.
pub fn clone_dtypes(v: &Vec<DType>) -> (r: Vec<DType>)
    ensures
        r@.len() == v@.len(),
        dtype_views(r@) == dtype_views(v@),
        forall|i: int| 0 <= i < v@.len() ==> (#[trigger] r@[i])@ == v@[i]@,
    decreases v@,
{
    let mut r: Vec<DType> = Vec::new();
    let mut i: usize = 0;
    while i < v.len()
        invariant
            0 <= i <= v.len(),
            r@.len() == i,
            forall|j: int| 0 <= j < i ==> (#[trigger] r@[j])@ == v@[j]@,
        decreases v.len() - i,
    {
        r.push(v[i].clone());
        i = i + 1;
    }
    proof {
        lemma_dtype_views(r@);
        lemma_dtype_views(v@);
        assert forall|k: int| 0 <= k < r@.len() implies dtype_views(r@)[k] == dtype_views(
            v@,
        )[k] by {
            assert(r@[k]@ == v@[k]@);
        }
        assert(dtype_views(r@) =~= dtype_views(v@));
    }
    r
}


/// Whether two types are the same, compared as values.
pub fn dtype_eq(a: &DType, b: &DType) -> (r: bool)
    ensures
        r == (a@ == b@),
    decreases *a,
{
    match (a, b) {
        (DType::Null, DType::Null) => true,
        (DType::Bool(n1), DType::Bool(n2)) => n1 == n2,
        (DType::Primitive(p1, n1), DType::Primitive(p2, n2)) => p1 == p2 && n1 == n2,
        (DType::Utf8(n1), DType::Utf8(n2)) => n1 == n2,
        (DType::Binary(n1), DType::Binary(n2)) => n1 == n2,
        (DType::Struct(names1, ch1, n1), DType::Struct(names2, ch2, n2)) => {
            if n1 != n2 || names1.len() != names2.len() || ch1.len() != ch2.len() {
                proof {
                    lemma_dtype_views(ch1@);
                    lemma_dtype_views(ch2@);
                    assert(names1@.map_values(|s: String| s@).len() == names1@.len());
                    assert(names2@.map_values(|s: String| s@).len() == names2@.len());
                }
                return false;
            }
            let mut i: usize = 0;
            proof {
                lemma_dtype_views(ch1@);
                lemma_dtype_views(ch2@);
            }
            #[verifier::loop_isolation(false)]
            while i < names1.len()
                invariant
                    0 <= i <= names1@.len(),
                    forall|k: int| 0 <= k < i ==> (#[trigger] names1@[k])@ == names2@[k]@,
                decreases names1@.len() - i,
            {
                let names_differ = !names1[i].eq(&names2[i]);
                if names_differ {
                    proof {
                        assert(names1@.map_values(|s: String| s@)[i as int] != names2@.map_values(
                            |s: String| s@,
                        )[i as int]);
                    }
                    return false;
                }
                i = i + 1;
            }
            let mut j: usize = 0;
            #[verifier::loop_isolation(false)]
            while j < ch1.len()
                invariant
                    0 <= j <= ch1@.len(),
                    forall|k: int| 0 <= k < j ==> dtype_views(ch1@)[k] == dtype_views(ch2@)[k],
                decreases ch1@.len() - j,
            {
                proof {
                    assert(decreases_to!(*a => *ch1));
                    assert(decreases_to!(*ch1 => ch1@));
                    assert(decreases_to!(ch1@ => ch1@[j as int]));
                }
                if !dtype_eq(&ch1[j], &ch2[j]) {
                    proof {
                        assert(dtype_views(ch1@)[j as int] != dtype_views(ch2@)[j as int]);
                    }
                    return false;
                }
                j = j + 1;
            }
            proof {
                assert(names1@.map_values(|s: String| s@) =~= names2@.map_values(|s: String| s@));
                assert(dtype_views(ch1@) =~= dtype_views(ch2@));
            }
            true
        },
        (DType::List(e1, n1), DType::List(e2, n2)) => n1 == n2 && dtype_eq(e1, e2),
        (DType::Extension(id1, s1, m1, n1), DType::Extension(id2, s2, m2, n2)) => {
            let ids_eq = id1.eq(id2);
            let metas_eq = bytes_eq(m1, m2);
            ids_eq && metas_eq && n1 == n2 && dtype_eq(s1, s2)
        },
        _ => false,
    }
}

/// Whether two byte vectors hold the same bytes.
pub fn bytes_eq(a: &Vec<u8>, b: &Vec<u8>) -> (r: bool)
    ensures
        r == (a@ == b@),
{
    if a.len() != b.len() {
        return false;
    }
    let mut i: usize = 0;
    #[verifier::loop_isolation(false)]
    while i < a.len()
        invariant
            0 <= i <= a@.len(),
            a@.len() == b@.len(),
            forall|k: int| 0 <= k < i ==> a@[k] == b@[k],
        decreases a@.len() - i,
    {
        if a[i] != b[i] {
            return false;
        }
        i = i + 1;
    }
    proof {
        assert(a@ =~= b@);
    }
    true
}

} // verus!
