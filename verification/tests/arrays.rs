//! Element-level behaviour: view words, null arrays, sparse takes, runs,
//! slicing, canonicalization, filtering and searching.

use vortex::array::{Array, BoolArray, NullArray, PrimitiveArray, ReeArray, SparseArray, StructArray, VarBinViewArray};
use vortex::builder::varbinview_from_payloads;
use vortex::compute::{scalar_at, take};
use vortex::construct::logical_validity;
use vortex::dtype::{DType, Nullability, PType};
use vortex::error::VortexError;
use vortex::flatten::{filter, Canonical};
use vortex::flatten::flatten as flatten_op;
use vortex::scalar::{PValue, Scalar};
use vortex::search_sorted::{search_sorted_u64s, SearchResult, SearchSortedSide};
use vortex::slice::slice;
use vortex::sparse::take_map;
use vortex::validity::{LogicalValidity, Validity};
use vortex::varbinview::{BinaryView, Inlined, Ref};

fn prim_u64(values: Vec<u64>) -> Array {
    Array::Primitive(PrimitiveArray::from_u64s(&values).unwrap())
}

fn prim_from(pt: PType, values: Vec<PValue>, validity: Validity) -> Array {
    Array::Primitive(PrimitiveArray::from_pvalues(pt, &values, validity).unwrap())
}

fn prim_i32(values: Vec<i32>) -> Array {
    prim_from(
        PType::I32,
        values.into_iter().map(PValue::I32).collect(),
        Validity::NonNullable,
    )
}

fn prim_u32(values: Vec<u32>) -> Array {
    prim_from(
        PType::U32,
        values.into_iter().map(PValue::U32).collect(),
        Validity::NonNullable,
    )
}

fn pvalues_of(a: &Array) -> Vec<PValue> {
    match flatten_op(a).unwrap() {
        Canonical::Primitive(p) => p.pvalues(),
        _ => panic!("expected a primitive canonical form"),
    }
}

fn binary_array() -> VarBinViewArray {
    let values = PrimitiveArray::from_pvalues(
        PType::U8,
        &"hello world this is a long string"
            .as_bytes()
            .iter()
            .map(|b| PValue::U8(*b))
            .collect(),
        Validity::NonNullable,
    )
    .unwrap();
    let view1 = BinaryView::Inlined(Inlined::new(&b"hello world".to_vec()));
    let view2 = BinaryView::Ref(Ref {
        size: 33,
        prefix: b"hell".to_vec(),
        buffer_index: 0,
        offset: 0,
    });
    let mut view_bytes = view1.to_le_bytes();
    view_bytes.extend_from_slice(&view2.to_le_bytes());
    let views = PrimitiveArray {
        ptype: PType::U8,
        bytes: view_bytes,
        validity: Validity::NonNullable,
    };
    VarBinViewArray::new(
        Box::new(Array::Primitive(views)),
        vec![Array::Primitive(values)],
        DType::Utf8(Nullability::NonNullable),
        Validity::NonNullable,
    )
}

#[test]
fn varbin_view() {
    let binary_arr = Array::VarBinView(binary_array());
    assert_eq!(vortex::array::Array::len(&binary_arr), 2);
    assert_eq!(
        scalar_at(&binary_arr, 0).unwrap(),
        Scalar::utf8(b"hello world".to_vec(), Nullability::NonNullable)
    );
    assert_eq!(
        scalar_at(&binary_arr, 1).unwrap(),
        Scalar::utf8(
            b"hello world this is a long string".to_vec(),
            Nullability::NonNullable
        )
    );
}

#[test]
fn mod_slice() {
    let binary_arr = slice(&Array::VarBinView(binary_array()), 1, 2).unwrap();
    assert_eq!(
        scalar_at(&binary_arr, 0).unwrap(),
        Scalar::utf8(
            b"hello world this is a long string".to_vec(),
            Nullability::NonNullable
        )
    );
}

#[test]
fn iter() {
    let binary_arr = Array::VarBinView(binary_array());
    let mut out: Vec<Vec<u8>> = Vec::new();
    for i in 0..vortex::array::Array::len(&binary_arr) {
        match scalar_at(&binary_arr, i).unwrap().into_value() {
            vortex::scalar::ScalarValue::BufferString(b) => out.push(b),
            other => panic!("expected a string element, got {:?}", other),
        }
    }
    assert_eq!(
        out,
        vec![
            b"hello world".to_vec(),
            b"hello world this is a long string".to_vec()
        ]
    );
}

#[test]
fn test_slice_nulls() {
    let nulls = Array::Null(NullArray::new(10));
    let sliced = slice(&nulls, 0, 4).unwrap();
    assert_eq!(vortex::array::Array::len(&sliced), 4);
    assert!(matches!(
        logical_validity(&sliced),
        LogicalValidity::AllInvalid(4)
    ));
}

#[test]
fn test_take_nulls() {
    let nulls = Array::Null(NullArray::new(10));
    let taken = take(&nulls, &prim_u64(vec![0, 2, 4, 6, 8])).unwrap();
    assert_eq!(vortex::array::Array::len(&taken), 5);
    assert!(matches!(
        logical_validity(&taken),
        LogicalValidity::AllInvalid(5)
    ));
}

#[test]
fn test_scalar_at_nulls() {
    let nulls = Array::Null(NullArray::new(10));
    let scalar = scalar_at(&nulls, 0).unwrap();
    assert!(scalar.is_null());
    assert_eq!(scalar.dtype().clone(), DType::Null);
}

fn sparse_array() -> Array {
    let values = prim_from(
        PType::F64,
        vec![1.23f64, 0.47, 9.99, 3.5]
            .into_iter()
            .map(|x| PValue::F64(x.to_bits()))
            .collect(),
        Validity::AllValid,
    );
    Array::Sparse(
        SparseArray::try_new(
            prim_u64(vec![0, 37, 47, 99]),
            values,
            100,
            Scalar::null(DType::Primitive(PType::F64, Nullability::Nullable)),
        )
        .unwrap(),
    )
}

fn sparse_indices_u64(taken: &Array) -> Vec<u64> {
    match taken {
        Array::Sparse(sp) => pvalues_of(sp.indices())
            .into_iter()
            .map(|p| match p {
                PValue::U64(x) => x,
                other => panic!("expected unsigned indices, got {:?}", other),
            })
            .collect(),
        _ => panic!("expected a sparse result"),
    }
}

fn sparse_values_f64(taken: &Array) -> Vec<f64> {
    match taken {
        Array::Sparse(sp) => pvalues_of(sp.values())
            .into_iter()
            .map(|p| match p {
                PValue::F64(x) => f64::from_bits(x),
                other => panic!("expected float values, got {:?}", other),
            })
            .collect(),
        _ => panic!("expected a sparse result"),
    }
}

#[test]
fn sparse_take() {
    let sparse = sparse_array();
    let taken = take(&sparse, &prim_i32(vec![0, 47, 47, 0, 99])).unwrap();
    assert_eq!(sparse_indices_u64(&taken), vec![0, 1, 2, 3, 4]);
    assert_eq!(sparse_values_f64(&taken), vec![1.23f64, 9.99, 9.99, 1.23, 3.5]);
}

#[test]
fn nonexistent_take() {
    let sparse = sparse_array();
    let taken = take(&sparse, &prim_i32(vec![69])).unwrap();
    assert!(sparse_indices_u64(&taken).is_empty());
    assert!(sparse_values_f64(&taken).is_empty());
}

#[test]
fn ordered_take() {
    let sparse = sparse_array();
    let taken = take(&sparse, &prim_i32(vec![69, 37])).unwrap();
    assert_eq!(sparse_indices_u64(&taken), vec![1]);
    assert_eq!(sparse_values_f64(&taken), vec![0.47f64]);
    assert_eq!(vortex::array::Array::len(&taken), 2);
}

#[test]
fn test_take_map() {
    let sparse = match sparse_array() {
        Array::Sparse(sp) => sp,
        _ => unreachable!(),
    };
    let indices = match prim_u64((0u64..100).collect()) {
        Array::Primitive(p) => p,
        _ => unreachable!(),
    };
    let (positions, patch_indices) = take_map(&sparse, &indices).unwrap();
    let positions: Vec<PValue> = positions.pvalues();
    let expected: Vec<PValue> = pvalues_of(sparse.indices());
    assert_eq!(positions, expected);
    assert_eq!(
        patch_indices.pvalues(),
        vec![PValue::U64(0), PValue::U64(1), PValue::U64(2), PValue::U64(3)]
    );
}

fn ree_array() -> Array {
    Array::Ree(
        ReeArray::try_new(
            prim_u32(vec![2, 5, 10]),
            prim_i32(vec![1, 2, 3]),
            Validity::NonNullable,
            10,
        )
        .unwrap(),
    )
}

#[test]
fn new() {
    let arr = ree_array();
    assert_eq!(vortex::array::Array::len(&arr), 10);
    assert_eq!(
        vortex::array::Array::dtype(&arr),
        DType::Primitive(PType::I32, Nullability::NonNullable)
    );
    // Runs: positions 0..2 read the first value, 2..5 the second, 5..10 the
    // third.
    let one = Scalar::primitive(PValue::I32(1), Nullability::NonNullable);
    let two = Scalar::primitive(PValue::I32(2), Nullability::NonNullable);
    let three = Scalar::primitive(PValue::I32(3), Nullability::NonNullable);
    assert_eq!(scalar_at(&arr, 0).unwrap(), one);
    assert_eq!(scalar_at(&arr, 2).unwrap(), two);
    assert_eq!(scalar_at(&arr, 5).unwrap(), three);
    assert_eq!(scalar_at(&arr, 9).unwrap(), three);
}

#[test]
fn ree_slice() {
    let arr = slice(&ree_array(), 3, 8).unwrap();
    assert_eq!(
        vortex::array::Array::dtype(&arr),
        DType::Primitive(PType::I32, Nullability::NonNullable)
    );
    assert_eq!(vortex::array::Array::len(&arr), 5);
    assert_eq!(
        pvalues_of(&arr),
        vec![PValue::I32(2), PValue::I32(2), PValue::I32(3), PValue::I32(3), PValue::I32(3)]
    );
}

#[test]
fn flatten() {
    let arr = ree_array();
    assert_eq!(
        pvalues_of(&arr),
        vec![
            PValue::I32(1),
            PValue::I32(1),
            PValue::I32(2),
            PValue::I32(2),
            PValue::I32(2),
            PValue::I32(3),
            PValue::I32(3),
            PValue::I32(3),
            PValue::I32(3),
            PValue::I32(3)
        ]
    );
}

#[test]
fn slice_reads_through() {
    // A slice has the selected length and reads through to the original.
    let a = prim_u32(vec![10, 20, 30, 40]);
    let b = slice(&a, 1, 3).unwrap();
    assert_eq!(vortex::array::Array::len(&b), 2);
    for k in 0..2 {
        assert_eq!(scalar_at(&b, k).unwrap(), scalar_at(&a, 1 + k).unwrap());
    }
}

#[test]
fn take_identity_is_flatten() {
    // Taking every position in order denotes what the array denotes.
    let a = ree_array();
    let n = vortex::array::Array::len(&a);
    let taken = take(&a, &prim_u64((0..n as u64).collect())).unwrap();
    let flat = flatten_op(&a).unwrap().into_array();
    for i in 0..n {
        assert_eq!(scalar_at(&taken, i).unwrap(), scalar_at(&flat, i).unwrap());
    }
}

#[test]
fn take_composes() {
    let a = prim_u32(vec![5, 6, 7, 8, 9]);
    let i = vec![4u64, 2, 0, 2];
    let j = vec![3u64, 0, 1];
    let b = take(&take(&a, &prim_u64(i.clone())).unwrap(), &prim_u64(j.clone())).unwrap();
    let composed: Vec<u64> = j.iter().map(|&k| i[k as usize]).collect();
    let c = take(&a, &prim_u64(composed)).unwrap();
    assert_eq!(vortex::array::Array::len(&b), vortex::array::Array::len(&c));
    for k in 0..vortex::array::Array::len(&b) {
        assert_eq!(scalar_at(&b, k).unwrap(), scalar_at(&c, k).unwrap());
    }
}

#[test]
fn flatten_twice() {
    let a = ree_array();
    let once = flatten_op(&a).unwrap().into_array();
    let twice = flatten_op(&once).unwrap().into_array();
    for i in 0..vortex::array::Array::len(&a) {
        assert_eq!(scalar_at(&once, i).unwrap(), scalar_at(&twice, i).unwrap());
    }
}

#[test]
fn filter_constant_masks() {
    let a = ree_array();
    let n = vortex::array::Array::len(&a);
    let all_true = Array::Bool(BoolArray {
        values: vec![true; n],
        validity: Validity::NonNullable,
    });
    let all_false = Array::Bool(BoolArray {
        values: vec![false; n],
        validity: Validity::NonNullable,
    });
    let kept = filter(&a, &all_true).unwrap();
    let flat = flatten_op(&a).unwrap().into_array();
    assert_eq!(vortex::array::Array::len(&kept), n);
    for i in 0..n {
        assert_eq!(scalar_at(&kept, i).unwrap(), scalar_at(&flat, i).unwrap());
    }
    let dropped = filter(&a, &all_false).unwrap();
    assert_eq!(vortex::array::Array::len(&dropped), 0);
}

#[test]
fn search_sorted_sides() {
    let s = vec![1u64, 3, 3, 5];
    let left = search_sorted_u64s(&s, 3, SearchSortedSide::Left);
    let right = search_sorted_u64s(&s, 3, SearchSortedSide::Right);
    assert_eq!(left, SearchResult::Found(1));
    assert_eq!(right, SearchResult::Found(3));
    assert!(left.to_index() <= right.to_index());
    // Elements below the value sit exactly before the left insertion point.
    for (i, &x) in s.iter().enumerate() {
        assert_eq!(x < 3, i < left.to_index());
    }
    assert_eq!(
        search_sorted_u64s(&s, 4, SearchSortedSide::Left),
        SearchResult::NotFound(3)
    );
}

#[test]
fn struct_take() {
    let st = StructArray::try_new(
        vec!["a".to_string(), "b".to_string()],
        vec![prim_u32(vec![1, 2, 3]), prim_i32(vec![-1, -2, -3])],
        3,
        Validity::NonNullable,
    )
    .unwrap();
    let taken = take(&Array::Struct(st), &prim_u64(vec![2, 0])).unwrap();
    assert_eq!(vortex::array::Array::len(&taken), 2);
    let first = scalar_at(&taken, 0).unwrap();
    match first.value() {
        vortex::scalar::ScalarValue::Struct(vs) => {
            assert_eq!(vs[0], vortex::scalar::ScalarValue::Primitive(PValue::U32(3)));
            assert_eq!(vs[1], vortex::scalar::ScalarValue::Primitive(PValue::I32(-3)));
        }
        other => panic!("expected a struct element, got {:?}", other),
    }
}

#[test]
fn error_variants() {
    let a = prim_u32(vec![1, 2, 3]);
    assert_eq!(scalar_at(&a, 3), Err(VortexError::OutOfBounds));
    assert_eq!(
        slice(&a, 2, 1).err(),
        Some(VortexError::InvalidRange)
    );
    assert_eq!(
        take(&a, &prim_u64(vec![5])).err(),
        Some(VortexError::OutOfBounds)
    );
    let floats = prim_from(
        PType::F64,
        vec![PValue::F64(0)],
        Validity::NonNullable,
    );
    assert_eq!(
        take(&a, &floats).err(),
        Some(VortexError::TypeMismatch)
    );
}

#[test]
fn view_word_roundtrip() {
    let long = Ref {
        size: 33,
        prefix: b"hell".to_vec(),
        buffer_index: 0,
        offset: 7,
    };
    let bytes = BinaryView::Ref(long).to_le_bytes();
    assert_eq!(bytes.len(), 16);
    match BinaryView::from_le_bytes(&bytes) {
        BinaryView::Ref(r) => {
            assert_eq!(r.size, 33);
            assert_eq!(r.prefix, b"hell".to_vec());
            assert_eq!(r.buffer_index, 0);
            assert_eq!(r.offset, 7);
        }
        _ => panic!("expected a reference view"),
    }
}

#[test]
fn varbinview_builder_prefix() {
    // A built array serves its payloads back; the long one goes through a
    // reference view whose prefix is checked by construction.
    let payloads = vec![
        b"short".to_vec(),
        b"a payload too long to inline".to_vec(),
    ];
    let v = varbinview_from_payloads(
        &payloads,
        DType::Binary(Nullability::NonNullable),
        Validity::NonNullable,
    )
    .unwrap();
    let arr = Array::VarBinView(v);
    assert_eq!(
        scalar_at(&arr, 0).unwrap(),
        Scalar::binary(b"short".to_vec(), Nullability::NonNullable)
    );
    assert_eq!(
        scalar_at(&arr, 1).unwrap(),
        Scalar::binary(
            b"a payload too long to inline".to_vec(),
            Nullability::NonNullable
        )
    );
}
