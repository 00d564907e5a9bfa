use struct_arithmetic::record::{FieldValue, Record};
use struct_arithmetic::schema::{extract, FieldType, IntType, RawField, Schema};

fn raw(name: &str, ty: FieldType) -> RawField {
    RawField {
        name: name.to_string(),
        ty,
    }
}

/// Schema `{sol: u64, eth: u64, btc: u64}`.
fn simple_schema() -> Schema {
    extract(vec![
        raw("sol", FieldType::Scalar(IntType::U64)),
        raw("eth", FieldType::Scalar(IntType::U64)),
        raw("btc", FieldType::Scalar(IntType::U64)),
    ])
    .unwrap()
}

/// Schema `{sol: u64, eth: u64, btc: u64, secondary: [u64; 2]}`.
fn array_schema() -> Schema {
    extract(vec![
        raw("sol", FieldType::Scalar(IntType::U64)),
        raw("eth", FieldType::Scalar(IntType::U64)),
        raw("btc", FieldType::Scalar(IntType::U64)),
        raw("secondary", FieldType::Array(IntType::U64, 2)),
    ])
    .unwrap()
}

/// Schema `{sol: u64, eth: u64, btc: u64, _reserved: [u8; 128]}`.
fn reserved_schema() -> Schema {
    extract(vec![
        raw("sol", FieldType::Scalar(IntType::U64)),
        raw("eth", FieldType::Scalar(IntType::U64)),
        raw("btc", FieldType::Scalar(IntType::U64)),
        raw("_reserved", FieldType::Array(IntType::U8, 128)),
    ])
    .unwrap()
}

/// Schema with two extra token arrays and reserved padding:
/// `{sol: u64, eth: u64, btc: u64, tk1: [u64; 2], tk2: [u128; 3], _reserved: [u8; 128]}`
/// (the reserved field stands last, as the schema rules require).
fn multi_schema() -> Schema {
    extract(vec![
        raw("sol", FieldType::Scalar(IntType::U64)),
        raw("eth", FieldType::Scalar(IntType::U64)),
        raw("btc", FieldType::Scalar(IntType::U64)),
        raw("tk1", FieldType::Array(IntType::U64, 2)),
        raw("tk2", FieldType::Array(IntType::U128, 3)),
        raw("_reserved", FieldType::Array(IntType::U8, 128)),
    ])
    .unwrap()
}

fn simple_rec(s: &Schema, a: u128, b: u128, c: u128) -> Record {
    Record::new(
        s,
        vec![
            FieldValue::Scalar(a),
            FieldValue::Scalar(b),
            FieldValue::Scalar(c),
        ],
    )
}

fn array_rec(s: &Schema, a: u128, b: u128, c: u128, arr: [u128; 2]) -> Record {
    Record::new(
        s,
        vec![
            FieldValue::Scalar(a),
            FieldValue::Scalar(b),
            FieldValue::Scalar(c),
            FieldValue::Array(arr.to_vec()),
        ],
    )
}

fn multi_rec(
    s: &Schema,
    a: u128,
    b: u128,
    c: u128,
    tk1: [u128; 2],
    tk2: [u128; 3],
) -> Record {
    Record::new(
        s,
        vec![
            FieldValue::Scalar(a),
            FieldValue::Scalar(b),
            FieldValue::Scalar(c),
            FieldValue::Array(tk1.to_vec()),
            FieldValue::Array(tk2.to_vec()),
        ],
    )
}

fn scalars(r: &Record) -> (u128, u128, u128) {
    (
        r.scalar_at(0).unwrap(),
        r.scalar_at(1).unwrap(),
        r.scalar_at(2).unwrap(),
    )
}

#[test]
fn test_add() {
    let s = simple_schema();
    let x = simple_rec(&s, 10, 20, 30);
    let y = simple_rec(&s, 10, 20, 30);
    let z = x.add(&y).unwrap();
    assert_eq!(scalars(&z), (20, 40, 60));

    let s = array_schema();
    let x = array_rec(&s, 10, 20, 30, [1, 2]);
    let y = array_rec(&s, 10, 20, 30, [1, 2]);
    let z = x.add(&y).unwrap();
    assert_eq!(scalars(&z), (20, 40, 60));
    assert_eq!(z.elem_at(3, 0), Some(2));
    assert_eq!(z.elem_at(3, 1), Some(4));

    let s = reserved_schema();
    let x = simple_rec(&s, 10, 20, 30);
    let y = simple_rec(&s, 10, 20, 30);
    let z = x.add(&y).unwrap();
    assert_eq!(scalars(&z), (20, 40, 60));

    let s = multi_schema();
    let x = multi_rec(&s, 10, 20, 30, [1, 2], [3, 4, 5]);
    let y = multi_rec(&s, 10, 20, 30, [1, 2], [3, 4, 5]);
    let z = x.add(&y).unwrap();
    assert_eq!(scalars(&z), (20, 40, 60));
    assert_eq!(z.elem_at(3, 0), Some(2));
    assert_eq!(z.elem_at(3, 1), Some(4));
    assert_eq!(z.elem_at(4, 0), Some(6));
    assert_eq!(z.elem_at(4, 1), Some(8));
    assert_eq!(z.elem_at(4, 2), Some(10));
}

#[test]
fn test_add_assign() {
    let s = simple_schema();
    let mut x = simple_rec(&s, 10, 20, 30);
    let y = simple_rec(&s, 10, 20, 30);
    x.add_assign(&y).unwrap();
    assert_eq!(scalars(&x), (20, 40, 60));

    let s = array_schema();
    let mut x = array_rec(&s, 10, 20, 30, [1, 2]);
    let y = array_rec(&s, 10, 20, 30, [1, 2]);
    x.add_assign(&y).unwrap();
    assert_eq!(scalars(&x), (20, 40, 60));
    assert_eq!(x.elem_at(3, 0), Some(2));
    assert_eq!(x.elem_at(3, 1), Some(4));

    let s = reserved_schema();
    let mut x = simple_rec(&s, 10, 20, 30);
    let y = simple_rec(&s, 10, 20, 30);
    x.add_assign(&y).unwrap();
    assert_eq!(scalars(&x), (20, 40, 60));

    let s = multi_schema();
    let mut x = multi_rec(&s, 10, 20, 30, [1, 2], [3, 4, 5]);
    let y = multi_rec(&s, 10, 20, 30, [1, 2], [3, 4, 5]);
    x.add_assign(&y).unwrap();
    assert_eq!(scalars(&x), (20, 40, 60));
    assert_eq!(x.elem_at(3, 0), Some(2));
    assert_eq!(x.elem_at(3, 1), Some(4));
    assert_eq!(x.elem_at(4, 0), Some(6));
    assert_eq!(x.elem_at(4, 1), Some(8));
    assert_eq!(x.elem_at(4, 2), Some(10));
}

#[test]
fn test_sub() {
    let s = simple_schema();
    let x = simple_rec(&s, 10, 20, 30);
    let y = simple_rec(&s, 10, 20, 30);
    let z = x.sub(&y).unwrap();
    assert_eq!(scalars(&z), (0, 0, 0));

    let s = array_schema();
    let x = array_rec(&s, 10, 20, 30, [1, 2]);
    let y = array_rec(&s, 10, 20, 30, [1, 2]);
    let z = x.sub(&y).unwrap();
    assert_eq!(scalars(&z), (0, 0, 0));
    assert_eq!(z.elem_at(3, 0), Some(0));
    assert_eq!(z.elem_at(3, 1), Some(0));

    let s = reserved_schema();
    let x = simple_rec(&s, 10, 20, 30);
    let y = simple_rec(&s, 10, 20, 30);
    let z = x.sub(&y).unwrap();
    assert_eq!(scalars(&z), (0, 0, 0));

    let s = multi_schema();
    let x = multi_rec(&s, 10, 20, 30, [1, 2], [3, 4, 5]);
    let y = multi_rec(&s, 10, 20, 30, [1, 2], [3, 4, 5]);
    let z = x.sub(&y).unwrap();
    assert_eq!(scalars(&z), (0, 0, 0));
    assert_eq!(z.elem_at(3, 0), Some(0));
    assert_eq!(z.elem_at(3, 1), Some(0));
    assert_eq!(z.elem_at(4, 0), Some(0));
    assert_eq!(z.elem_at(4, 1), Some(0));
    assert_eq!(z.elem_at(4, 2), Some(0));
}

#[test]
fn test_sub_assign() {
    let s = simple_schema();
    let mut x = simple_rec(&s, 10, 20, 30);
    let y = simple_rec(&s, 10, 20, 30);
    x.sub_assign(&y).unwrap();
    assert_eq!(scalars(&x), (0, 0, 0));

    let s = array_schema();
    let mut x = array_rec(&s, 10, 20, 30, [1, 2]);
    let y = array_rec(&s, 10, 20, 30, [1, 2]);
    x.sub_assign(&y).unwrap();
    assert_eq!(scalars(&x), (0, 0, 0));
    assert_eq!(x.elem_at(3, 0), Some(0));
    assert_eq!(x.elem_at(3, 1), Some(0));

    let s = reserved_schema();
    let mut x = simple_rec(&s, 10, 20, 30);
    let y = simple_rec(&s, 10, 20, 30);
    x.sub_assign(&y).unwrap();
    assert_eq!(scalars(&x), (0, 0, 0));

    let s = multi_schema();
    let mut x = multi_rec(&s, 10, 20, 30, [1, 2], [3, 4, 5]);
    let y = multi_rec(&s, 10, 20, 30, [1, 2], [3, 4, 5]);
    x.sub_assign(&y).unwrap();
    assert_eq!(scalars(&x), (0, 0, 0));
    assert_eq!(x.elem_at(3, 0), Some(0));
    assert_eq!(x.elem_at(3, 1), Some(0));
    assert_eq!(x.elem_at(4, 0), Some(0));
    assert_eq!(x.elem_at(4, 1), Some(0));
    assert_eq!(x.elem_at(4, 2), Some(0));
}

#[test]
fn test_mul() {
    let s = simple_schema();
    let x = simple_rec(&s, 10, 20, 30);
    let y = simple_rec(&s, 10, 20, 30);
    let z = x.mul(&y).unwrap();
    assert_eq!(scalars(&z), (100, 400, 900));

    let s = array_schema();
    let x = array_rec(&s, 10, 20, 30, [1, 2]);
    let y = array_rec(&s, 10, 20, 30, [1, 2]);
    let z = x.mul(&y).unwrap();
    assert_eq!(scalars(&z), (100, 400, 900));
    assert_eq!(z.elem_at(3, 0), Some(1));
    assert_eq!(z.elem_at(3, 1), Some(4));

    let s = reserved_schema();
    let x = simple_rec(&s, 10, 20, 30);
    let y = simple_rec(&s, 10, 20, 30);
    let z = x.mul(&y).unwrap();
    assert_eq!(scalars(&z), (100, 400, 900));

    let s = multi_schema();
    let x = multi_rec(&s, 10, 20, 30, [1, 2], [3, 4, 5]);
    let y = multi_rec(&s, 10, 20, 30, [1, 2], [3, 4, 5]);
    let z = x.mul(&y).unwrap();
    assert_eq!(scalars(&z), (100, 400, 900));
    assert_eq!(z.elem_at(3, 0), Some(1));
    assert_eq!(z.elem_at(3, 1), Some(4));
    assert_eq!(z.elem_at(4, 0), Some(9));
    assert_eq!(z.elem_at(4, 1), Some(16));
    assert_eq!(z.elem_at(4, 2), Some(25));
}

#[test]
fn test_mul_scalar() {
    let s = simple_schema();
    let x = simple_rec(&s, 10, 20, 30);
    let z = x.mul_scalar(2).unwrap();
    assert_eq!(scalars(&z), (20, 40, 60));

    let s = array_schema();
    let x = array_rec(&s, 10, 20, 30, [1, 2]);
    let z = x.mul_scalar(2).unwrap();
    assert_eq!(scalars(&z), (20, 40, 60));
    assert_eq!(z.elem_at(3, 0), Some(2));
    assert_eq!(z.elem_at(3, 1), Some(4));

    let s = reserved_schema();
    let x = simple_rec(&s, 10, 20, 30);
    let z = x.mul_scalar(2).unwrap();
    assert_eq!(scalars(&z), (20, 40, 60));

    let s = multi_schema();
    let x = multi_rec(&s, 10, 20, 30, [1, 2], [3, 4, 5]);
    let z = x.mul_scalar(2).unwrap();
    assert_eq!(scalars(&z), (20, 40, 60));
    assert_eq!(z.elem_at(3, 0), Some(2));
    assert_eq!(z.elem_at(3, 1), Some(4));
    assert_eq!(z.elem_at(4, 0), Some(6));
    assert_eq!(z.elem_at(4, 1), Some(8));
    assert_eq!(z.elem_at(4, 2), Some(10));
}

#[test]
fn test_div() {
    let s = simple_schema();
    let x = simple_rec(&s, 10, 20, 30);
    let y = simple_rec(&s, 10, 20, 30);
    let z = x.div(&y).unwrap();
    assert_eq!(scalars(&z), (1, 1, 1));

    let s = array_schema();
    let x = array_rec(&s, 10, 20, 30, [1, 2]);
    let y = array_rec(&s, 10, 20, 30, [1, 2]);
    let z = x.div(&y).unwrap();
    assert_eq!(scalars(&z), (1, 1, 1));
    assert_eq!(z.elem_at(3, 0), Some(1));
    assert_eq!(z.elem_at(3, 1), Some(1));

    let s = reserved_schema();
    let x = simple_rec(&s, 10, 20, 30);
    let y = simple_rec(&s, 10, 20, 30);
    let z = x.div(&y).unwrap();
    assert_eq!(scalars(&z), (1, 1, 1));

    let s = multi_schema();
    let x = multi_rec(&s, 10, 20, 30, [1, 2], [3, 4, 5]);
    let y = multi_rec(&s, 10, 20, 30, [1, 2], [3, 4, 5]);
    let z = x.div(&y).unwrap();
    assert_eq!(scalars(&z), (1, 1, 1));
    assert_eq!(z.elem_at(3, 0), Some(1));
    assert_eq!(z.elem_at(3, 1), Some(1));
    assert_eq!(z.elem_at(4, 0), Some(1));
    assert_eq!(z.elem_at(4, 1), Some(1));
    assert_eq!(z.elem_at(4, 2), Some(1));
}

#[test]
fn test_div_scalar() {
    let s = simple_schema();
    let x = simple_rec(&s, 10, 20, 30);
    let z = x.div_scalar(10).unwrap();
    assert_eq!(scalars(&z), (1, 2, 3));

    let s = array_schema();
    let x = array_rec(&s, 10, 20, 30, [1, 2]);
    let z = x.div_scalar(10).unwrap();
    assert_eq!(scalars(&z), (1, 2, 3));
    assert_eq!(z.elem_at(3, 0), Some(0));
    assert_eq!(z.elem_at(3, 1), Some(0));

    let s = reserved_schema();
    let x = simple_rec(&s, 10, 20, 30);
    let z = x.div_scalar(10).unwrap();
    assert_eq!(scalars(&z), (1, 2, 3));

    let s = multi_schema();
    let x = multi_rec(&s, 10, 20, 30, [1, 2], [3, 4, 5]);
    let z = x.div_scalar(10).unwrap();
    assert_eq!(scalars(&z), (1, 2, 3));
    assert_eq!(z.elem_at(3, 0), Some(0));
    assert_eq!(z.elem_at(3, 1), Some(0));
    assert_eq!(z.elem_at(4, 0), Some(0));
    assert_eq!(z.elem_at(4, 1), Some(0));
    assert_eq!(z.elem_at(4, 2), Some(0));
}
