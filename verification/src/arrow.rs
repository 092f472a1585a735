//! Importing and exporting Arrow types.
//!
//! The crate models the Arrow type language with a value of its own, so the
//! conversion logic is verified; turning a real Arrow schema object into this
//! model is a mechanical step outside the library. Duration, interval and
//! union types have no mapping and are rejected at import.

use vstd::prelude::*;

use crate::dtype::{DType, DTypeSpec, Nullability, PType};
use crate::error::VortexError;

verus! {

/// An Arrow time granularity.
#[derive(Clone, Copy, Debug, PartialEq, Eq, Structural)]
pub enum ArrowTimeUnit {
    Second,
    Millisecond,
    Microsecond,
    Nanosecond,
}

impl ArrowTimeUnit {
    /// The tag byte the unit serializes to inside extension metadata.
    pub open spec fn spec_tag(&self) -> u8 {
        match self {
            ArrowTimeUnit::Second => 0,
            ArrowTimeUnit::Millisecond => 1,
            ArrowTimeUnit::Microsecond => 2,
            ArrowTimeUnit::Nanosecond => 3,
        }
    }

    /// The tag byte the unit serializes to inside extension metadata.
    #[verifier::when_used_as_spec(spec_tag)]
    pub fn tag(&self) -> (r: u8)
        ensures
            r == self.spec_tag(),
    {
        match self {
            ArrowTimeUnit::Second => 0,
            ArrowTimeUnit::Millisecond => 1,
            ArrowTimeUnit::Microsecond => 2,
            ArrowTimeUnit::Nanosecond => 3,
        }
    }
}

/// One field of an Arrow struct type.
#[derive(Debug)]
pub struct ArrowField {
    pub name: String,
    pub data_type: ArrowDataType,
    pub nullable: bool,
}

/// The Arrow type language, as this crate models it.
#[derive(Debug)]
pub enum ArrowDataType {
    Null,
    Boolean,
    Int8,
    Int16,
    Int32,
    Int64,
    UInt8,
    UInt16,
    UInt32,
    UInt64,
    Float16,
    Float32,
    Float64,
    Utf8,
    LargeUtf8,
    Binary,
    LargeBinary,
    FixedSizeBinary(i32),
    Timestamp(ArrowTimeUnit),
    Date32,
    Date64,
    Time32(ArrowTimeUnit),
    Time64(ArrowTimeUnit),
    Duration(ArrowTimeUnit),
    Interval,
    List(Box<ArrowField>),
    LargeList(Box<ArrowField>),
    FixedSizeList(Box<ArrowField>, i32),
    Struct(Vec<ArrowField>),
    Dictionary(Box<ArrowDataType>, Box<ArrowDataType>),
    RunEndEncoded(Box<ArrowField>, Box<ArrowField>),
    Union,
}

/// Whether an Arrow type has no mapping and must be rejected at import.
pub open spec fn arrow_rejected(ad: &ArrowDataType) -> bool {
    ad is Duration || ad is Interval || ad is Union
}

/// Whether a rejected type occurs anywhere inside an Arrow type; importing
/// succeeds on exactly the types free of them.
pub open spec fn arrow_rejected_deep(ad: &ArrowDataType) -> bool
    decreases ad,
{
    match ad {
        ArrowDataType::Duration(_) => true,
        ArrowDataType::Interval => true,
        ArrowDataType::Union => true,
        ArrowDataType::List(f) => arrow_rejected_deep(&f.data_type),
        ArrowDataType::LargeList(f) => arrow_rejected_deep(&f.data_type),
        ArrowDataType::FixedSizeList(f, _) => arrow_rejected_deep(&f.data_type),
        ArrowDataType::Struct(fields) => exists|i: int|
            0 <= i < fields@.len() && arrow_rejected_deep(&(#[trigger] fields@[i]).data_type),
        ArrowDataType::Dictionary(_, v) => arrow_rejected_deep(v),
        ArrowDataType::RunEndEncoded(_, v) => arrow_rejected_deep(&v.data_type),
        _ => false,
    }
}

/// The mapping importing performs, stated declaratively: which logical type
/// an Arrow type stands for at a given nullability.
pub open spec fn arrow_imports_to(ad: &ArrowDataType, nullable: bool, d: DTypeSpec) -> bool
    decreases ad,
{
    let n = if nullable {
        Nullability::Nullable
    } else {
        Nullability::NonNullable
    };
    match ad {
        ArrowDataType::Null => d is Null,
        ArrowDataType::Boolean => d == DTypeSpec::Bool(n),
        ArrowDataType::Int8 => d == DTypeSpec::Primitive(PType::I8, n),
        ArrowDataType::Int16 => d == DTypeSpec::Primitive(PType::I16, n),
        ArrowDataType::Int32 => d == DTypeSpec::Primitive(PType::I32, n),
        ArrowDataType::Int64 => d == DTypeSpec::Primitive(PType::I64, n),
        ArrowDataType::UInt8 => d == DTypeSpec::Primitive(PType::U8, n),
        ArrowDataType::UInt16 => d == DTypeSpec::Primitive(PType::U16, n),
        ArrowDataType::UInt32 => d == DTypeSpec::Primitive(PType::U32, n),
        ArrowDataType::UInt64 => d == DTypeSpec::Primitive(PType::U64, n),
        ArrowDataType::Float16 => d == DTypeSpec::Primitive(PType::F16, n),
        ArrowDataType::Float32 => d == DTypeSpec::Primitive(PType::F32, n),
        ArrowDataType::Float64 => d == DTypeSpec::Primitive(PType::F64, n),
        ArrowDataType::Utf8 => d == DTypeSpec::Utf8(n),
        ArrowDataType::LargeUtf8 => d == DTypeSpec::Utf8(n),
        ArrowDataType::Binary => d == DTypeSpec::Binary(n),
        ArrowDataType::LargeBinary => d == DTypeSpec::Binary(n),
        ArrowDataType::FixedSizeBinary(_) => d == DTypeSpec::Binary(n),
        ArrowDataType::Timestamp(u) => ext_import(d, "arrow.timestamp"@, PType::I64, u.spec_tag(), n),
        ArrowDataType::Date32 => ext_import(d, "arrow.date"@, PType::I32, 0, n),
        ArrowDataType::Date64 => ext_import(d, "arrow.date"@, PType::I64, 0, n),
        ArrowDataType::Time32(u) => ext_import(d, "arrow.time"@, PType::I32, u.spec_tag(), n),
        ArrowDataType::Time64(u) => ext_import(d, "arrow.time"@, PType::I64, u.spec_tag(), n),
        ArrowDataType::Duration(_) => false,
        ArrowDataType::Interval => false,
        ArrowDataType::Union => false,
        ArrowDataType::List(f) => match d {
            DTypeSpec::List(elem, n2) => n2 == n && arrow_imports_to(
                &f.data_type,
                f.nullable,
                *elem,
            ),
            _ => false,
        },
        ArrowDataType::LargeList(f) => match d {
            DTypeSpec::List(elem, n2) => n2 == n && arrow_imports_to(
                &f.data_type,
                f.nullable,
                *elem,
            ),
            _ => false,
        },
        ArrowDataType::FixedSizeList(f, _) => match d {
            DTypeSpec::List(elem, n2) => n2 == n && arrow_imports_to(
                &f.data_type,
                f.nullable,
                *elem,
            ),
            _ => false,
        },
        ArrowDataType::Struct(fields) => match d {
            DTypeSpec::Struct(names, children, n2) => n2 == n && fields_import(
                fields@,
                names,
                children,
            ),
            _ => false,
        },
        ArrowDataType::Dictionary(_, v) => arrow_imports_to(v, nullable, d),
        ArrowDataType::RunEndEncoded(_, v) => arrow_imports_to(&v.data_type, nullable, d),
    }
}

/// The extension type a date or time imports to: the id, the storage
/// integer, one metadata byte for the unit, the type's own nullability.
pub open spec fn ext_import(
    d: DTypeSpec,
    id: Seq<char>,
    storage_pt: PType,
    unit: u8,
    n: Nullability,
) -> bool {
    match d {
        DTypeSpec::Extension(id2, storage, meta, n2) => {
            &&& id2 == id
            &&& *storage == DTypeSpec::Primitive(storage_pt, n)
            &&& meta == seq![unit]
            &&& n2 == n
        },
        _ => false,
    }
}

/// Each field imports pointwise: same names, each child at its own field's
/// nullability.
pub open spec fn fields_import(
    fields: Seq<ArrowField>,
    names: Seq<Seq<char>>,
    children: Seq<DTypeSpec>,
) -> bool
    decreases fields,
{
    &&& names.len() == fields.len()
    &&& children.len() == fields.len()
    &&& forall|i: int|
        0 <= i < fields.len() ==> names[i] == (#[trigger] fields[i]).name@ && arrow_imports_to(
            &fields[i].data_type,
            fields[i].nullable,
            children[i],
        )
}

/// Conversion into this crate's type language.
pub trait TryIntoDType {
    /// The logical type this value stands for, at the given nullability.
    fn try_into_dtype(&self, is_nullable: bool) -> (r: Result<DType, VortexError>);
}

impl TryIntoDType for ArrowDataType {
    /// Map an Arrow type: fixed-width and string types map to their own
    /// kinds, dates and times to extensions over their storage integers,
    /// dictionaries and run ends to their value types. Succeeds on exactly
    /// the types free of duration, interval and union, and then returns the
    /// type [`arrow_imports_to`] names.
    fn try_into_dtype(&self, is_nullable: bool) -> (r: Result<DType, VortexError>)
        ensures
            r matches Ok(d) ==> arrow_imports_to(self, is_nullable, d@),
            r matches Ok(d) ==> (d@.is_nullable() == is_nullable || d is Null),
            !arrow_rejected_deep(self) ==> r is Ok,
            arrow_rejected_deep(self) ==> r == Err::<DType, VortexError>(
                VortexError::InvalidArrowType,
            ),
    {
        arrow_to_dtype(self, is_nullable)
    }
}

/// The worker behind [`TryIntoDType`], recursive over the type's structure.
fn arrow_to_dtype(ad: &ArrowDataType, is_nullable: bool) -> (r: Result<DType, VortexError>)
    ensures
        r matches Ok(d) ==> arrow_imports_to(ad, is_nullable, d@),
        r matches Ok(d) ==> (d@.is_nullable() == is_nullable || d is Null),
        !arrow_rejected_deep(ad) ==> r is Ok,
        arrow_rejected_deep(ad) ==> r == Err::<DType, VortexError>(VortexError::InvalidArrowType),
    decreases *ad,
{
    let n = Nullability::from_bool(is_nullable);
    match ad {
        ArrowDataType::Null => Ok(DType::Null),
        ArrowDataType::Boolean => Ok(DType::Bool(n)),
        ArrowDataType::Int8 => Ok(DType::Primitive(PType::I8, n)),
        ArrowDataType::Int16 => Ok(DType::Primitive(PType::I16, n)),
        ArrowDataType::Int32 => Ok(DType::Primitive(PType::I32, n)),
        ArrowDataType::Int64 => Ok(DType::Primitive(PType::I64, n)),
        ArrowDataType::UInt8 => Ok(DType::Primitive(PType::U8, n)),
        ArrowDataType::UInt16 => Ok(DType::Primitive(PType::U16, n)),
        ArrowDataType::UInt32 => Ok(DType::Primitive(PType::U32, n)),
        ArrowDataType::UInt64 => Ok(DType::Primitive(PType::U64, n)),
        ArrowDataType::Float16 => Ok(DType::Primitive(PType::F16, n)),
        ArrowDataType::Float32 => Ok(DType::Primitive(PType::F32, n)),
        ArrowDataType::Float64 => Ok(DType::Primitive(PType::F64, n)),
        ArrowDataType::Utf8 | ArrowDataType::LargeUtf8 => Ok(DType::Utf8(n)),
        ArrowDataType::Binary | ArrowDataType::LargeBinary | ArrowDataType::FixedSizeBinary(_) => {
            Ok(DType::Binary(n))
        },
        ArrowDataType::Timestamp(u) => Ok(
            extension_type("arrow.timestamp", DType::Primitive(PType::I64, n), u.tag(), n),
        ),
        ArrowDataType::Date32 => Ok(
            extension_type("arrow.date", DType::Primitive(PType::I32, n), 0, n),
        ),
        ArrowDataType::Date64 => Ok(
            extension_type("arrow.date", DType::Primitive(PType::I64, n), 0, n),
        ),
        ArrowDataType::Time32(u) => Ok(
            extension_type("arrow.time", DType::Primitive(PType::I32, n), u.tag(), n),
        ),
        ArrowDataType::Time64(u) => Ok(
            extension_type("arrow.time", DType::Primitive(PType::I64, n), u.tag(), n),
        ),
        ArrowDataType::Duration(_) => Err(VortexError::InvalidArrowType),
        ArrowDataType::Interval => Err(VortexError::InvalidArrowType),
        ArrowDataType::Union => Err(VortexError::InvalidArrowType),
        ArrowDataType::List(f) | ArrowDataType::LargeList(f) | ArrowDataType::FixedSizeList(
            f,
            _,
        ) => {
            proof {
                assert(decreases_to!(*ad => *f));
            }
            let elem = arrow_to_dtype(&f.data_type, f.nullable)?;
            Ok(DType::List(Box::new(elem), n))
        },
        ArrowDataType::Struct(fields) => {
            let mut names: Vec<String> = Vec::new();
            let mut children: Vec<DType> = Vec::new();
            let mut i: usize = 0;
            proof {
                crate::dtype::lemma_dtype_views(children@);
            }
            #[verifier::loop_isolation(false)]
            while i < fields.len()
                invariant
                    0 <= i <= fields@.len(),
                    names@.len() == i,
                    children@.len() == i,
                    forall|k: int|
                        0 <= k < i ==> names@.map_values(|s: String| s@)[k] == (
                        #[trigger] fields@[k]).name@ && arrow_imports_to(
                            &fields@[k].data_type,
                            fields@[k].nullable,
                            crate::dtype::dtype_views(children@)[k],
                        ),
                    forall|k: int|
                        0 <= k < i ==> !arrow_rejected_deep(&(#[trigger] fields@[k]).data_type),
                decreases fields@.len() - i,
            {
                proof {
                    assert(decreases_to!(*ad => *fields));
                    assert(decreases_to!(*fields => fields@));
                    assert(decreases_to!(fields@ => fields@[i as int]));
                    if !arrow_rejected_deep(ad) {
                        assert(!arrow_rejected_deep(&fields@[i as int].data_type));
                    }
                }
                let f = &fields[i];
                let ghost old_children = children@;
                let child = match arrow_to_dtype(&f.data_type, f.nullable) {
                    Ok(c) => c,
                    Err(e) => {
                        proof {
                            if !arrow_rejected_deep(ad) {
                                assert(false);
                            }
                            assert(arrow_rejected_deep(&fields@[i as int].data_type));
                            assert(e == VortexError::InvalidArrowType);
                        }
                        return Err(e);
                    },
                };
                let ghost old_names = names@;
                names.push(f.name.clone());
                children.push(child);
                proof {
                    crate::dtype::lemma_dtype_views(children@);
                    crate::dtype::lemma_dtype_views(old_children);
                    assert forall|k: int|
                        0 <= k < i + 1 implies names@.map_values(|s: String| s@)[k] == (
                    #[trigger] fields@[k]).name@ && arrow_imports_to(
                        &fields@[k].data_type,
                        fields@[k].nullable,
                        crate::dtype::dtype_views(children@)[k],
                    ) by {
                        assert(names@.map_values(|s: String| s@)[k] == names@[k]@);
                        if k < i {
                            assert(names@[k] == old_names[k]);
                            assert(old_names.map_values(|s: String| s@)[k] == old_names[k]@);
                            assert(children@[k] == old_children[k]);
                            assert(crate::dtype::dtype_views(children@)[k] == children@[k]@);
                            assert(crate::dtype::dtype_views(old_children)[k] == old_children[k]@);
                        } else {
                            assert(names@[k]@ == f.name@);
                            assert(crate::dtype::dtype_views(children@)[k] == children@[k]@);
                        }
                    }
                }
                i = i + 1;
            }
            proof {
                crate::dtype::lemma_dtype_views(children@);
                if arrow_rejected_deep(ad) {
                    let w = choose|w: int|
                        0 <= w < fields@.len() && arrow_rejected_deep(
                            &(#[trigger] fields@[w]).data_type,
                        );
                    assert(false);
                }
                assert(names@.map_values(|s: String| s@).len() == fields@.len());
                assert(crate::dtype::dtype_views(children@).len() == fields@.len());
                assert(fields_import(
                    fields@,
                    names@.map_values(|s: String| s@),
                    crate::dtype::dtype_views(children@),
                ));
            }
            let d = DType::Struct(names, children, n);
            Ok(d)
        },
        ArrowDataType::Dictionary(_, value) => {
            proof {
                assert(decreases_to!(*ad => *value));
            }
            arrow_to_dtype(value, is_nullable)
        },
        ArrowDataType::RunEndEncoded(_, value) => {
            proof {
                assert(decreases_to!(*ad => *value));
            }
            arrow_to_dtype(&value.data_type, is_nullable)
        },
    }
}

/// An extension type over an integer storage, carrying one metadata byte.
fn extension_type(id: &str, storage: DType, meta: u8, n: Nullability) -> (r: DType)
    ensures
        r@ == DTypeSpec::Extension(id@, Box::new(storage@), seq![meta], n),
{
    let mut m: Vec<u8> = Vec::new();
    m.push(meta);
    let r = DType::Extension(str_to_string(id), Box::new(storage), m, n);
    proof {
        assert(m@ =~= seq![meta]);
    }
    r
}

/// An owned copy of a borrowed string slice.
fn str_to_string(s: &str) -> (r: String)
    ensures
        r@ == s@,
{
    s.to_owned()
}

/// The primitive type behind an Arrow fixed-width type, where one exists:
/// integers and floats map to their own widths, times and dates to their
/// storage integers.
pub open spec fn spec_arrow_ptype(ad: &ArrowDataType) -> Option<PType> {
    match ad {
        ArrowDataType::Int8 => Some(PType::I8),
        ArrowDataType::Int16 => Some(PType::I16),
        ArrowDataType::Int32 => Some(PType::I32),
        ArrowDataType::Int64 => Some(PType::I64),
        ArrowDataType::UInt8 => Some(PType::U8),
        ArrowDataType::UInt16 => Some(PType::U16),
        ArrowDataType::UInt32 => Some(PType::U32),
        ArrowDataType::UInt64 => Some(PType::U64),
        ArrowDataType::Float16 => Some(PType::F16),
        ArrowDataType::Float32 => Some(PType::F32),
        ArrowDataType::Float64 => Some(PType::F64),
        ArrowDataType::Time32(_) => Some(PType::I32),
        ArrowDataType::Time64(_) => Some(PType::I64),
        ArrowDataType::Timestamp(_) => Some(PType::I64),
        ArrowDataType::Date32 => Some(PType::I32),
        ArrowDataType::Date64 => Some(PType::I64),
        _ => None,
    }
}

/// The primitive type behind an Arrow fixed-width type, where one exists.
pub fn arrow_to_ptype(ad: &ArrowDataType) -> (r: Result<PType, VortexError>)
    ensures
        spec_arrow_ptype(ad) matches Some(pt) ==> r == Ok::<PType, VortexError>(pt),
        spec_arrow_ptype(ad) is None ==> r == Err::<PType, VortexError>(
            VortexError::InvalidArrowType,
        ),
{
    match ad {
        ArrowDataType::Int8 => Ok(PType::I8),
        ArrowDataType::Int16 => Ok(PType::I16),
        ArrowDataType::Int32 => Ok(PType::I32),
        ArrowDataType::Int64 => Ok(PType::I64),
        ArrowDataType::UInt8 => Ok(PType::U8),
        ArrowDataType::UInt16 => Ok(PType::U16),
        ArrowDataType::UInt32 => Ok(PType::U32),
        ArrowDataType::UInt64 => Ok(PType::U64),
        ArrowDataType::Float16 => Ok(PType::F16),
        ArrowDataType::Float32 => Ok(PType::F32),
        ArrowDataType::Float64 => Ok(PType::F64),
        ArrowDataType::Time32(_) => Ok(PType::I32),
        ArrowDataType::Time64(_) => Ok(PType::I64),
        ArrowDataType::Timestamp(_) => Ok(PType::I64),
        ArrowDataType::Date32 => Ok(PType::I32),
        ArrowDataType::Date64 => Ok(PType::I64),
        _ => Err(VortexError::InvalidArrowType),
    }
}

/// The mapping exporting performs, stated declaratively: which Arrow type a
/// logical type maps back to. Extensions export through their storage.
pub open spec fn arrow_exports_to(d: DTypeSpec, ad: &ArrowDataType) -> bool
    decreases d,
{
    match d {
        DTypeSpec::Null => ad is Null,
        DTypeSpec::Bool(_) => ad is Boolean,
        DTypeSpec::Primitive(pt, _) => match pt {
            PType::I8 => ad is Int8,
            PType::I16 => ad is Int16,
            PType::I32 => ad is Int32,
            PType::I64 => ad is Int64,
            PType::U8 => ad is UInt8,
            PType::U16 => ad is UInt16,
            PType::U32 => ad is UInt32,
            PType::U64 => ad is UInt64,
            PType::F16 => ad is Float16,
            PType::F32 => ad is Float32,
            PType::F64 => ad is Float64,
        },
        DTypeSpec::Utf8(_) => ad is Utf8,
        DTypeSpec::Binary(_) => ad is Binary,
        DTypeSpec::Struct(names, children, _) => match ad {
            ArrowDataType::Struct(fields) => exports_fields(children, names, fields@),
            _ => false,
        },
        DTypeSpec::List(elem, _) => match ad {
            ArrowDataType::List(f) => f.nullable == elem.is_nullable() && arrow_exports_to(
                *elem,
                &f.data_type,
            ),
            _ => false,
        },
        DTypeSpec::Extension(_, storage, _, _) => arrow_exports_to(*storage, ad),
    }
}

/// Each field exports pointwise: same names, each field's nullability its
/// child's own.
pub open spec fn exports_fields(
    children: Seq<DTypeSpec>,
    names: Seq<Seq<char>>,
    fields: Seq<ArrowField>,
) -> bool
    decreases children,
{
    &&& fields.len() == children.len()
    &&& names.len() == children.len()
    &&& forall|i: int|
        0 <= i < children.len() ==> (#[trigger] fields[i]).name@ == names[i] && fields[i].nullable
            == children[i].is_nullable() && arrow_exports_to(children[i], &fields[i].data_type)
}

/// Export a logical type back into the Arrow type language. Extensions map
/// through their storage; lists and structs map their children. Every
/// well-formed type exports.
pub fn dtype_to_arrow(d: &DType) -> (r: Result<ArrowDataType, VortexError>)
    ensures
        r matches Ok(ad) ==> arrow_exports_to(d@, &ad),
        d@.well_formed() ==> r is Ok,
    decreases *d,
{
    match d {
        DType::Null => Ok(ArrowDataType::Null),
        DType::Bool(_) => Ok(ArrowDataType::Boolean),
        DType::Primitive(pt, _) => Ok(
            match pt {
                PType::I8 => ArrowDataType::Int8,
                PType::I16 => ArrowDataType::Int16,
                PType::I32 => ArrowDataType::Int32,
                PType::I64 => ArrowDataType::Int64,
                PType::U8 => ArrowDataType::UInt8,
                PType::U16 => ArrowDataType::UInt16,
                PType::U32 => ArrowDataType::UInt32,
                PType::U64 => ArrowDataType::UInt64,
                PType::F16 => ArrowDataType::Float16,
                PType::F32 => ArrowDataType::Float32,
                PType::F64 => ArrowDataType::Float64,
            },
        ),
        DType::Utf8(_) => Ok(ArrowDataType::Utf8),
        DType::Binary(_) => Ok(ArrowDataType::Binary),
        DType::Struct(names, children, _) => {
            proof {
                crate::dtype::lemma_dtype_views(children@);
            }
            if names.len() != children.len() {
                return Err(VortexError::TypeMismatch);
            }
            let mut fields: Vec<ArrowField> = Vec::new();
            let mut i: usize = 0;
            #[verifier::loop_isolation(false)]
            while i < children.len()
                invariant
                    0 <= i <= children@.len(),
                    names@.len() == children@.len(),
                    fields@.len() == i,
                    forall|k: int|
                        0 <= k < i ==> (#[trigger] fields@[k]).name@ == names@.map_values(
                            |s: String| s@,
                        )[k] && fields@[k].nullable == crate::dtype::dtype_views(
                            children@,
                        )[k].is_nullable() && arrow_exports_to(
                            crate::dtype::dtype_views(children@)[k],
                            &fields@[k].data_type,
                        ),
                decreases children@.len() - i,
            {
                proof {
                    assert(decreases_to!(*d => *children));
                    assert(decreases_to!(*children => children@));
                    assert(decreases_to!(children@ => children@[i as int]));
                    if d@.well_formed() {
                        match d@ {
                            DTypeSpec::Struct(nm, ch, _) => {
                                assert(ch == crate::dtype::dtype_views(children@));
                                assert(crate::dtype::all_well_formed(ch));
                                assert(ch[i as int].well_formed());
                            },
                            _ => {
                                assert(false);
                            },
                        }
                        assert(children@[i as int]@.well_formed());
                    }
                }
                let child = match dtype_to_arrow(&children[i]) {
                    Ok(c) => c,
                    Err(e) => {
                        proof {
                            if d@.well_formed() {
                                assert(false);
                            }
                        }
                        return Err(e);
                    },
                };
                let ghost old_fields = fields@;
                fields.push(
                    ArrowField {
                        name: names[i].clone(),
                        data_type: child,
                        nullable: children[i].is_nullable(),
                    },
                );
                proof {
                    assert forall|k: int|
                        0 <= k < i + 1 implies (#[trigger] fields@[k]).name@ == names@.map_values(
                        |s: String| s@,
                    )[k] && fields@[k].nullable == crate::dtype::dtype_views(
                        children@,
                    )[k].is_nullable() && arrow_exports_to(
                        crate::dtype::dtype_views(children@)[k],
                        &fields@[k].data_type,
                    ) by {
                        assert(names@.map_values(|s: String| s@)[k] == names@[k]@);
                        if k < i {
                            assert(fields@[k] == old_fields[k]);
                        }
                    }
                }
                i = i + 1;
            }
            proof {
                assert(exports_fields(
                    crate::dtype::dtype_views(children@),
                    names@.map_values(|s: String| s@),
                    fields@,
                ));
            }
            Ok(ArrowDataType::Struct(fields))
        },
        DType::List(elem, _) => {
            proof {
                if d@.well_formed() {
                    assert(elem@.well_formed());
                }
            }
            let inner = match dtype_to_arrow(elem) {
                Ok(c) => c,
                Err(e) => {
                    proof {
                        if d@.well_formed() {
                            assert(false);
                        }
                    }
                    return Err(e);
                },
            };
            let nullable = elem.is_nullable();
            Ok(
                ArrowDataType::List(
                    Box::new(
                        ArrowField {
                            name: str_to_string("element"),
                            data_type: inner,
                            nullable,
                        },
                    ),
                ),
            )
        },
        DType::Extension(_, storage, _, _) => {
            proof {
                if d@.well_formed() {
                    assert(storage@.well_formed());
                }
            }
            dtype_to_arrow(storage)
        },
    }
}

} // verus!
