//! The compressed-encoding fronts: roaring bitmaps, the registry, and the
//! Arrow type mapping.

use vortex::array::{Array, PrimitiveArray};
use vortex::arrow::{ArrowDataType, ArrowField, ArrowTimeUnit, TryIntoDType};
use vortex::dtype::{DType, Nullability, PType};
use vortex::encoding::{DeltaEncoding, EncodingId, REEEncoding, RoaringIntEncoding, SerdeContext};
use vortex::error::VortexError;
use vortex::roaring::RoaringIntArray;
use vortex::scalar::{PValue, Scalar, ScalarValue};
use vortex::stats::{read_stats, write_stats, Stat, StatValue, StatsSet};
use vortex::validity::Validity;

fn prim_u32(values: Vec<u32>) -> Array {
    Array::Primitive(
        PrimitiveArray::from_pvalues(
            PType::U32,
            &values.into_iter().map(PValue::U32).collect(),
            Validity::NonNullable,
        )
        .unwrap(),
    )
}

#[test]
fn scalar_at() {
    let ints = prim_u32(vec![2, 12, 22, 32]);
    let array = RoaringIntArray::encode(&ints).unwrap();
    assert_eq!(
        array.scalar_at(0),
        Ok(Scalar::primitive(PValue::U32(2), Nullability::NonNullable))
    );
    assert_eq!(
        array.scalar_at(1),
        Ok(Scalar::primitive(PValue::U32(12), Nullability::NonNullable))
    );
}

#[test]
fn roaring_bounds() {
    let ints = prim_u32(vec![5, 6]);
    let array = RoaringIntArray::encode(&ints).unwrap();
    assert_eq!(array.len(), 2);
    assert_eq!(array.scalar_at(2), Err(VortexError::OutOfBounds));
    assert_eq!(
        RoaringIntArray::try_new(croaring::Bitmap::of(&[1]), PType::I32).err(),
        Some(VortexError::TypeMismatch)
    );
}

#[test]
fn registry_codes() {
    let ctx = SerdeContext::standard();
    // The serialized code of an encoding is its position; unknown codes
    // resolve to nothing.
    let code = ctx.encoding_idx(EncodingId::Sparse).unwrap();
    assert_eq!(ctx.find_encoding(code), Some(EncodingId::Sparse));
    assert_eq!(ctx.find_encoding(999), None);
    assert_eq!(REEEncoding.id(), EncodingId::Ree);
    assert_eq!(RoaringIntEncoding.id(), EncodingId::RoaringInt);
    assert_eq!(DeltaEncoding.id(), EncodingId::Delta);
    assert_eq!(EncodingId::Ree.as_str(), "vortex.ree");
}

#[test]
fn test_dtype_to_datatype() {
    let dtype = DType::Primitive(PType::I32, Nullability::Nullable);
    let data_type = vortex::arrow::dtype_to_arrow(&dtype).unwrap();
    assert!(matches!(data_type, ArrowDataType::Int32));
}

#[test]
fn arrow_import() {
    // Fixed-width and nested types map; duration, interval and union are
    // rejected.
    assert_eq!(
        ArrowDataType::UInt16.try_into_dtype(false).unwrap(),
        DType::Primitive(PType::U16, Nullability::NonNullable)
    );
    assert_eq!(
        ArrowDataType::LargeUtf8.try_into_dtype(true).unwrap(),
        DType::Utf8(Nullability::Nullable)
    );
    let st = ArrowDataType::Struct(vec![ArrowField {
        name: "xs".to_string(),
        data_type: ArrowDataType::Float64,
        nullable: true,
    }]);
    assert_eq!(
        st.try_into_dtype(false).unwrap(),
        DType::Struct(
            vec!["xs".to_string()],
            vec![DType::Primitive(PType::F64, Nullability::Nullable)],
            Nullability::NonNullable
        )
    );
    assert_eq!(
        ArrowDataType::Duration(ArrowTimeUnit::Second)
            .try_into_dtype(false)
            .err(),
        Some(VortexError::InvalidArrowType)
    );
    assert_eq!(
        ArrowDataType::Union.try_into_dtype(false).err(),
        Some(VortexError::InvalidArrowType)
    );
}

#[test]
fn sparse_scalar_reads() {
    // A patched position serves its patch; every other position serves the
    // fill.
    let values = Array::Primitive(
        PrimitiveArray::from_pvalues(
            PType::U32,
            &vec![PValue::U32(7), PValue::U32(9)],
            Validity::AllValid,
        )
        .unwrap(),
    );
    let sp = vortex::array::SparseArray::try_new(
        Array::Primitive(PrimitiveArray::from_u64s(&vec![1, 3]).unwrap()),
        values,
        5,
        Scalar::null(DType::Primitive(PType::U32, Nullability::Nullable)),
    )
    .unwrap();
    let a = Array::Sparse(sp);
    let got = vortex::compute::scalar_at(&a, 1).unwrap();
    assert_eq!(got.value(), &ScalarValue::Primitive(PValue::U32(7)));
    assert!(vortex::compute::scalar_at(&a, 2).unwrap().is_null());
    assert_eq!(
        vortex::compute::scalar_at(&a, 5),
        Err(VortexError::OutOfBounds)
    );
}

#[test]
fn stats_roundtrip() {
    let mut set = StatsSet::new();
    set.set(Stat::Min, StatValue::Value(PValue::I32(-5)));
    set.set(Stat::Max, StatValue::Value(PValue::I32(40)));
    set.set(Stat::IsSorted, StatValue::Bool(true));
    set.set(Stat::NullCount, StatValue::Count(2));
    // Replacing keeps one entry per statistic.
    set.set(Stat::NullCount, StatValue::Count(3));
    let mut buf = Vec::new();
    write_stats(&mut buf, &set).unwrap();
    let (back, _) = read_stats(&buf, 0).unwrap();
    assert_eq!(back.get(Stat::Min), Some(StatValue::Value(PValue::I32(-5))));
    assert_eq!(back.get(Stat::Max), Some(StatValue::Value(PValue::I32(40))));
    assert_eq!(back.get(Stat::IsSorted), Some(StatValue::Bool(true)));
    assert_eq!(back.get(Stat::NullCount), Some(StatValue::Count(3)));
    assert_eq!(back.get(Stat::RunCount), None);
    // An unknown tag rejects the whole set.
    let mut bad = vec![1u8, 200u8, 0u8, 1u8];
    assert!(read_stats(&bad, 0).is_err());
    bad.clear();
    assert!(read_stats(&bad, 0).is_err());
}

#[test]
fn null_count_reads_validity() {
    let values = Array::Primitive(
        PrimitiveArray::from_pvalues(
            PType::U32,
            &vec![PValue::U32(1), PValue::U32(2), PValue::U32(3)],
            Validity::Array(vec![true, false, true]),
        )
        .unwrap(),
    );
    assert_eq!(vortex::stats::null_count(&values), 1);
}
