use struct_arithmetic::schema::{
    extract, scalar_ops_supported, FieldType, IntType, RawField, SchemaError,
};

fn field(name: &str, ty: FieldType) -> RawField {
    RawField {
        name: name.to_string(),
        ty,
    }
}

#[test]
fn empty_record_rejected() {
    let err = extract(vec![]).unwrap_err();
    assert_eq!(err, SchemaError::EmptyRecord);
}

#[test]
fn misplaced_reserved_rejected() {
    // A `_reserved` field anywhere but last is rejected, even in a field
    // list that is otherwise fine.
    let err = extract(vec![
        field("sol", FieldType::Scalar(IntType::U64)),
        field("eth", FieldType::Scalar(IntType::U64)),
        field("btc", FieldType::Scalar(IntType::U64)),
        field("tk1", FieldType::Array(IntType::U64, 2)),
        field("_reserved", FieldType::Array(IntType::U8, 128)),
        field("tk2", FieldType::Array(IntType::U128, 3)),
    ])
    .unwrap_err();
    assert_eq!(err, SchemaError::MisplacedReserved);
}

#[test]
fn misplaced_reserved_first() {
    let err = extract(vec![
        field("_reserved", FieldType::Array(IntType::U8, 8)),
        field("sol", FieldType::Scalar(IntType::U64)),
    ])
    .unwrap_err();
    assert_eq!(err, SchemaError::MisplacedReserved);
}

#[test]
fn reserved_not_array_rejected() {
    let err = extract(vec![
        field("sol", FieldType::Scalar(IntType::U64)),
        field("_reserved", FieldType::Scalar(IntType::U8)),
    ])
    .unwrap_err();
    assert_eq!(err, SchemaError::ReservedNotArray);
}

#[test]
fn primary_type_not_scalar_rejected() {
    let err = extract(vec![
        field("amounts", FieldType::Array(IntType::U64, 4)),
        field("sol", FieldType::Scalar(IntType::U64)),
    ])
    .unwrap_err();
    assert_eq!(err, SchemaError::PrimaryTypeNotScalar);
}

#[test]
fn lone_reserved_rejected() {
    // A record holding only `_reserved` has no scalar first field.
    let err = extract(vec![field("_reserved", FieldType::Array(IntType::U8, 8))]).unwrap_err();
    assert_eq!(err, SchemaError::PrimaryTypeNotScalar);
}

#[test]
fn extract_classifies_fields() {
    let s = extract(vec![
        field("sol", FieldType::Scalar(IntType::U64)),
        field("tk1", FieldType::Array(IntType::U128, 3)),
        field("_reserved", FieldType::Array(IntType::U8, 16)),
    ])
    .unwrap();
    assert_eq!(s.primary, IntType::U64);
    assert_eq!(s.fields.len(), 3);
    assert_eq!(s.fields[0].name, "sol");
    assert_eq!(s.fields[0].kind, FieldType::Scalar(IntType::U64));
    assert!(!s.fields[0].is_reserved);
    assert_eq!(s.fields[1].kind, FieldType::Array(IntType::U128, 3));
    assert!(!s.fields[1].is_reserved);
    assert_eq!(s.fields[2].name, "_reserved");
    assert!(s.fields[2].is_reserved);
}

#[test]
fn scalar_ops_need_lossless_conversion() {
    // u64 primary into u64 and u128 fields: lossless.
    let s = extract(vec![
        field("sol", FieldType::Scalar(IntType::U64)),
        field("tk", FieldType::Array(IntType::U128, 2)),
    ])
    .unwrap();
    assert!(scalar_ops_supported(&s));

    // u64 primary into a u8 array: lossy, so the scalar operations are a
    // generation-time error for this schema.
    let s = extract(vec![
        field("sol", FieldType::Scalar(IntType::U64)),
        field("small", FieldType::Array(IntType::U8, 2)),
    ])
    .unwrap();
    assert!(!scalar_ops_supported(&s));

    // The reserved padding never counts against convertibility.
    let s = extract(vec![
        field("sol", FieldType::Scalar(IntType::U64)),
        field("_reserved", FieldType::Array(IntType::U8, 64)),
    ])
    .unwrap();
    assert!(scalar_ops_supported(&s));
}
