//! File-level behaviour: the end-of-file constants, writing and reading
//! back, projection, row filters and row indices.

use vortex::array::{Array, ChunkedArray, PrimitiveArray, StructArray};
use vortex::builder::varbinview_from_payloads;
use vortex::compute::scalar_at;
use vortex::dtype::{DType, Nullability, PType};
use vortex::expr::{Expr, Operator, RowFilter};
use vortex::file::{VortexFileWriter, VortexReadBuilder};
use vortex::scalar::{PValue, Scalar, ScalarValue};
use vortex::validity::Validity;
use vortex::{VERSION, V1_FOOTER_FBS_SIZE};

fn prim_u32(values: Vec<u32>) -> Array {
    Array::Primitive(
        PrimitiveArray::from_pvalues(
            PType::U32,
            &values.into_iter().map(PValue::U32).collect(),
            Validity::NonNullable,
        )
        .unwrap(),
    )
}

fn prim_u64(values: Vec<u64>) -> Array {
    Array::Primitive(PrimitiveArray::from_u64s(&values).unwrap())
}

fn strings(values: Vec<&str>) -> Array {
    let payloads: Vec<Vec<u8>> = values.iter().map(|s| s.as_bytes().to_vec()).collect();
    Array::VarBinView(
        varbinview_from_payloads(
            &payloads,
            DType::Utf8(Nullability::NonNullable),
            Validity::NonNullable,
        )
        .unwrap(),
    )
}

fn nullable_strings(values: Vec<Option<&str>>) -> Array {
    let payloads: Vec<Vec<u8>> = values
        .iter()
        .map(|s| s.map(|x| x.as_bytes().to_vec()).unwrap_or_default())
        .collect();
    let mask: Vec<bool> = values.iter().map(|s| s.is_some()).collect();
    Array::VarBinView(
        varbinview_from_payloads(
            &payloads,
            DType::Utf8(Nullability::Nullable),
            Validity::Array(mask),
        )
        .unwrap(),
    )
}

fn nullable_i32(values: Vec<Option<i32>>) -> Array {
    let pvs: Vec<PValue> = values
        .iter()
        .map(|v| PValue::I32(v.unwrap_or(0)))
        .collect();
    let mask: Vec<bool> = values.iter().map(|v| v.is_some()).collect();
    Array::Primitive(
        PrimitiveArray::from_pvalues(PType::I32, &pvs, Validity::Array(mask)).unwrap(),
    )
}

fn string_value(a: &Array, i: usize) -> String {
    match scalar_at(a, i).unwrap().into_value() {
        ScalarValue::BufferString(b) => String::from_utf8(b).unwrap(),
        other => panic!("expected a string element, got {:?}", other),
    }
}

#[test]
fn test_eof_values() {
    // A reminder to think about the version whenever the footer changes.
    assert_eq!(VERSION, 1);
    assert_eq!(V1_FOOTER_FBS_SIZE, 32);
}

#[test]
fn truncated_file_is_rejected() {
    let st = StructArray::try_new(
        vec!["numbers".to_string()],
        vec![prim_u32(vec![1, 2, 3])],
        3,
        Validity::NonNullable,
    )
    .unwrap();
    let mut writer = VortexFileWriter::new(Vec::new());
    writer.write_array_columns(Array::Struct(st)).unwrap();
    let mut written = writer.finalize().unwrap();
    written.pop();
    let err = VortexReadBuilder::new(written).build().err();
    assert_eq!(err, Some(vortex::error::VortexError::InvalidSerialization));
}

#[test]
fn roundtrip_single_batch() {
    // Writing one struct array and reading it back reproduces every element.
    let numbers = prim_u32(vec![1, 2, 3, 4, 5, 6, 7, 8]);
    let names = strings(vec!["ab", "foo", "bar", "baz", "ab", "foo", "bar", "baz"]);
    let st = StructArray::try_new(
        vec!["strings".to_string(), "numbers".to_string()],
        vec![names, numbers],
        8,
        Validity::NonNullable,
    )
    .unwrap();
    let original = Array::Struct(st);
    let mut writer = VortexFileWriter::new(Vec::new());
    writer.write_array_columns(original).unwrap();
    let written = writer.finalize().unwrap();

    let reader = VortexReadBuilder::new(written).build().unwrap();
    let batches = reader.read_batches().unwrap();
    let mut row = 0usize;
    // Rebuild the expectation locally: the writer consumed the original.
    let expect_strings = vec!["ab", "foo", "bar", "baz", "ab", "foo", "bar", "baz"];
    let expect_numbers: Vec<u32> = vec![1, 2, 3, 4, 5, 6, 7, 8];
    for batch in &batches {
        let st = match batch {
            Array::Struct(st) => st,
            _ => panic!("expected struct batches"),
        };
        let strings_col = st.field(0).unwrap();
        let numbers_col = st.field(1).unwrap();
        for i in 0..st.len {
            assert_eq!(string_value(strings_col, i), expect_strings[row]);
            assert_eq!(
                scalar_at(numbers_col, i).unwrap(),
                Scalar::primitive(PValue::U32(expect_numbers[row]), Nullability::NonNullable)
            );
            row += 1;
        }
    }
    assert_eq!(row, 8);
}

#[test]
fn reader_projection() {
    // Write a struct of two chunked columns, read back only the first.
    let strings_chunked = Array::Chunked(
        ChunkedArray::try_new(
            vec![
                strings(vec!["ab", "foo", "bar", "baz"]),
                strings(vec!["ab", "foo", "bar", "baz"]),
            ],
            DType::Utf8(Nullability::NonNullable),
        )
        .unwrap(),
    );
    let numbers_chunked = Array::Chunked(
        ChunkedArray::try_new(
            vec![prim_u32(vec![1, 2, 3, 4]), prim_u32(vec![5, 6, 7, 8])],
            DType::Primitive(PType::U32, Nullability::NonNullable),
        )
        .unwrap(),
    );
    let st = StructArray::try_new(
        vec!["strings".to_string(), "numbers".to_string()],
        vec![strings_chunked, numbers_chunked],
        8,
        Validity::NonNullable,
    )
    .unwrap();
    let mut writer = VortexFileWriter::new(Vec::new());
    writer.write_array_columns(Array::Struct(st)).unwrap();
    let written = writer.finalize().unwrap();

    let reader = VortexReadBuilder::new(written)
        .with_projection(vec![0])
        .build()
        .unwrap();
    let batches = reader.read_batches().unwrap();
    let expected = vec!["ab", "foo", "bar", "baz", "ab", "foo", "bar", "baz"];
    let mut row = 0usize;
    for batch in &batches {
        let st = match batch {
            Array::Struct(st) => st,
            _ => panic!("expected struct batches"),
        };
        // The batch's type keeps only the projected field.
        match vortex::array::Array::dtype(batch) {
            DType::Struct(names, children, _) => {
                assert_eq!(names, vec!["strings".to_string()]);
                assert_eq!(children, vec![DType::Utf8(Nullability::NonNullable)]);
            }
            other => panic!("expected a struct type, got {:?}", other),
        }
        let col = st.field(0).unwrap();
        for i in 0..st.len {
            assert_eq!(string_value(col, i), expected[row]);
            row += 1;
        }
    }
    assert_eq!(row, 8);
}

#[test]
fn reader_row_filter() {
    // Write names and ages, read back only the row where the name matches.
    let names = nullable_strings(vec![
        Some("Joseph"),
        None,
        Some("Angela"),
        Some("Mikhail"),
        None,
    ]);
    let ages = nullable_i32(vec![Some(25), Some(31), None, Some(57), None]);
    let st = StructArray::try_new(
        vec!["name".to_string(), "age".to_string()],
        vec![names, ages],
        5,
        Validity::NonNullable,
    )
    .unwrap();
    let mut writer = VortexFileWriter::new(Vec::new());
    writer.write_array_columns(Array::Struct(st)).unwrap();
    let written = writer.finalize().unwrap();

    let filter = RowFilter::new(Expr::Binary(
        Operator::Eq,
        Box::new(Expr::Column("name".to_string())),
        Box::new(Expr::Literal(Scalar::utf8(
            b"Joseph".to_vec(),
            Nullability::NonNullable,
        ))),
    ));
    let reader = VortexReadBuilder::new(written)
        .with_row_filter(filter)
        .build()
        .unwrap();
    let batches = reader.read_batches().unwrap();
    assert_eq!(batches.len(), 1);
    let st = match &batches[0] {
        Array::Struct(st) => st,
        _ => panic!("expected a struct batch"),
    };
    assert_eq!(st.len, 1);
    assert_eq!(string_value(st.field(0).unwrap(), 0), "Joseph");
    assert_eq!(
        scalar_at(st.field(1).unwrap(), 0).unwrap(),
        Scalar::primitive(PValue::I32(25), Nullability::Nullable)
    );
}

#[test]
fn reader_row_indices() {
    let numbers = Array::Chunked(
        ChunkedArray::try_new(
            vec![prim_u32(vec![1, 2, 3, 4]), prim_u32(vec![5, 6, 7, 8])],
            DType::Primitive(PType::U32, Nullability::NonNullable),
        )
        .unwrap(),
    );
    let st = StructArray::try_new(
        vec!["numbers".to_string()],
        vec![numbers],
        8,
        Validity::NonNullable,
    )
    .unwrap();
    let mut writer = VortexFileWriter::new(Vec::new());
    writer.write_array_columns(Array::Struct(st)).unwrap();
    let written = writer.finalize().unwrap();

    let reader = VortexReadBuilder::new(written)
        .with_indices(vec![0, 3, 7])
        .build()
        .unwrap();
    let batches = reader.read_batches().unwrap();
    let mut got: Vec<u32> = Vec::new();
    for batch in &batches {
        let st = match batch {
            Array::Struct(st) => st,
            _ => panic!("expected struct batches"),
        };
        let col = st.field(0).unwrap();
        for i in 0..st.len {
            match scalar_at(col, i).unwrap().into_value() {
                ScalarValue::Primitive(PValue::U32(x)) => got.push(x),
                other => panic!("expected numbers, got {:?}", other),
            }
        }
    }
    assert_eq!(got, vec![1, 4, 8]);
}

#[test]
fn postscript_roundtrip() {
    // The postscript serializes to its fixed size and reads back.
    let ps = vortex::footer::Postscript::create(vortex::footer::PostscriptArgs {
        schema_offset: 1234,
        layout_offset: 5678,
    });
    let mut buf = Vec::new();
    vortex::footer::finish_postscript_buffer(&mut buf, &ps);
    assert_eq!(buf.len(), V1_FOOTER_FBS_SIZE);
    let back = vortex::footer::root_as_postscript(&buf).unwrap();
    assert_eq!(back.schema_offset(), 1234);
    assert_eq!(back.layout_offset(), 5678);
}

#[test]
fn prim_u64_helper_is_used() {
    // Row indices below exercise unsigned index arrays end to end.
    let a = prim_u64(vec![7, 8, 9]);
    assert_eq!(
        scalar_at(&a, 1).unwrap(),
        Scalar::primitive(PValue::U64(8), Nullability::NonNullable)
    );
}

#[test]
fn reader_row_indices_with_row_filter() {
    // Row indices select first; the filter then runs over the selected rows.
    let numbers = Array::Chunked(
        ChunkedArray::try_new(
            vec![prim_u32(vec![1, 2, 3, 4]), prim_u32(vec![5, 6, 7, 8])],
            DType::Primitive(PType::U32, Nullability::NonNullable),
        )
        .unwrap(),
    );
    let st = StructArray::try_new(
        vec!["numbers".to_string()],
        vec![numbers],
        8,
        Validity::NonNullable,
    )
    .unwrap();
    let mut writer = VortexFileWriter::new(Vec::new());
    writer.write_array_columns(Array::Struct(st)).unwrap();
    let written = writer.finalize().unwrap();

    let filter = RowFilter::new(Expr::Binary(
        Operator::Gt,
        Box::new(Expr::Column("numbers".to_string())),
        Box::new(Expr::Literal(Scalar::primitive(
            PValue::U32(3),
            Nullability::NonNullable,
        ))),
    ));
    let reader = VortexReadBuilder::new(written)
        .with_indices(vec![0, 3, 5, 7])
        .with_row_filter(filter)
        .build()
        .unwrap();
    let batches = reader.read_batches().unwrap();
    let mut got: Vec<u32> = Vec::new();
    for batch in &batches {
        let st = match batch {
            Array::Struct(st) => st,
            _ => panic!("expected struct batches"),
        };
        let col = st.field(0).unwrap();
        for i in 0..st.len {
            match scalar_at(col, i).unwrap().into_value() {
                ScalarValue::Primitive(PValue::U32(x)) => got.push(x),
                other => panic!("expected numbers, got {:?}", other),
            }
        }
    }
    // Selected rows 1, 4, 6, 8; the filter keeps those above three.
    assert_eq!(got, vec![4, 6, 8]);
}
