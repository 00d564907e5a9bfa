//! The same arithmetic scenarios over the padded and array-bearing record
//! shapes, driven through freshly extracted schemas.

use struct_arithmetic::record::{FieldValue, Record};
use struct_arithmetic::schema::{extract, FieldType, IntType, RawField, Schema};

fn named(name: &str, ty: FieldType) -> RawField {
    RawField {
        name: name.to_string(),
        ty,
    }
}

/// Schema `{sol: u64, eth: u64, btc: u64, _reserved: [u8; 128]}`.
fn padded_schema() -> Schema {
    extract(vec![
        named("sol", FieldType::Scalar(IntType::U64)),
        named("eth", FieldType::Scalar(IntType::U64)),
        named("btc", FieldType::Scalar(IntType::U64)),
        named("_reserved", FieldType::Array(IntType::U8, 128)),
    ])
    .unwrap()
}

/// Schema with token arrays and reserved padding, the padding last.
fn tokens_schema() -> Schema {
    extract(vec![
        named("sol", FieldType::Scalar(IntType::U64)),
        named("eth", FieldType::Scalar(IntType::U64)),
        named("btc", FieldType::Scalar(IntType::U64)),
        named("tk1", FieldType::Array(IntType::U64, 2)),
        named("tk2", FieldType::Array(IntType::U128, 3)),
        named("_reserved", FieldType::Array(IntType::U8, 128)),
    ])
    .unwrap()
}

fn padded_rec(s: &Schema, a: u128, b: u128, c: u128) -> Record {
    Record::new(
        s,
        vec![
            FieldValue::Scalar(a),
            FieldValue::Scalar(b),
            FieldValue::Scalar(c),
        ],
    )
}

fn tokens_rec(s: &Schema, a: u128, b: u128, c: u128, tk1: [u128; 2], tk2: [u128; 3]) -> Record {
    Record::new(
        s,
        vec![
            FieldValue::Scalar(a),
            FieldValue::Scalar(b),
            FieldValue::Scalar(c),
            FieldValue::Array(tk1.to_vec()),
            FieldValue::Array(tk2.to_vec()),
        ],
    )
}

fn three_scalars(r: &Record) -> (u128, u128, u128) {
    (
        r.scalar_at(0).unwrap(),
        r.scalar_at(1).unwrap(),
        r.scalar_at(2).unwrap(),
    )
}

#[test]
fn basic_arithmetics_test_add() {
    let s = padded_schema();
    let x = padded_rec(&s, 10, 20, 30);
    let y = padded_rec(&s, 10, 20, 30);
    let z = x.add(&y).unwrap();
    assert_eq!(three_scalars(&z), (20, 40, 60));

    let s = tokens_schema();
    let x = tokens_rec(&s, 10, 20, 30, [1, 2], [3, 4, 5]);
    let y = tokens_rec(&s, 10, 20, 30, [1, 2], [3, 4, 5]);
    let z = x.add(&y).unwrap();
    assert_eq!(three_scalars(&z), (20, 40, 60));
    assert_eq!(z.elem_at(3, 0), Some(2));
    assert_eq!(z.elem_at(3, 1), Some(4));
    assert_eq!(z.elem_at(4, 0), Some(6));
    assert_eq!(z.elem_at(4, 1), Some(8));
    assert_eq!(z.elem_at(4, 2), Some(10));
}

#[test]
fn basic_arithmetics_test_add_assign() {
    let s = padded_schema();
    let mut x = padded_rec(&s, 10, 20, 30);
    let y = padded_rec(&s, 10, 20, 30);
    x.add_assign(&y).unwrap();
    assert_eq!(three_scalars(&x), (20, 40, 60));

    let s = tokens_schema();
    let mut x = tokens_rec(&s, 10, 20, 30, [1, 2], [3, 4, 5]);
    let y = tokens_rec(&s, 10, 20, 30, [1, 2], [3, 4, 5]);
    x.add_assign(&y).unwrap();
    assert_eq!(three_scalars(&x), (20, 40, 60));
    assert_eq!(x.elem_at(3, 0), Some(2));
    assert_eq!(x.elem_at(3, 1), Some(4));
    assert_eq!(x.elem_at(4, 0), Some(6));
    assert_eq!(x.elem_at(4, 1), Some(8));
    assert_eq!(x.elem_at(4, 2), Some(10));
}

#[test]
fn basic_arithmetics_test_sub() {
    let s = padded_schema();
    let x = padded_rec(&s, 10, 20, 30);
    let y = padded_rec(&s, 10, 20, 30);
    let z = x.sub(&y).unwrap();
    assert_eq!(three_scalars(&z), (0, 0, 0));

    let s = tokens_schema();
    let x = tokens_rec(&s, 10, 20, 30, [1, 2], [3, 4, 5]);
    let y = tokens_rec(&s, 10, 20, 30, [1, 2], [3, 4, 5]);
    let z = x.sub(&y).unwrap();
    assert_eq!(three_scalars(&z), (0, 0, 0));
    assert_eq!(z.elem_at(3, 0), Some(0));
    assert_eq!(z.elem_at(3, 1), Some(0));
    assert_eq!(z.elem_at(4, 0), Some(0));
    assert_eq!(z.elem_at(4, 1), Some(0));
    assert_eq!(z.elem_at(4, 2), Some(0));
}

#[test]
fn basic_arithmetics_test_sub_assign() {
    let s = padded_schema();
    let mut x = padded_rec(&s, 10, 20, 30);
    let y = padded_rec(&s, 10, 20, 30);
    x.sub_assign(&y).unwrap();
    assert_eq!(three_scalars(&x), (0, 0, 0));

    let s = tokens_schema();
    let mut x = tokens_rec(&s, 10, 20, 30, [1, 2], [3, 4, 5]);
    let y = tokens_rec(&s, 10, 20, 30, [1, 2], [3, 4, 5]);
    x.sub_assign(&y).unwrap();
    assert_eq!(three_scalars(&x), (0, 0, 0));
    assert_eq!(x.elem_at(3, 0), Some(0));
    assert_eq!(x.elem_at(3, 1), Some(0));
    assert_eq!(x.elem_at(4, 0), Some(0));
    assert_eq!(x.elem_at(4, 1), Some(0));
    assert_eq!(x.elem_at(4, 2), Some(0));
}

#[test]
fn basic_arithmetics_test_mul() {
    let s = padded_schema();
    let x = padded_rec(&s, 10, 20, 30);
    let y = padded_rec(&s, 10, 20, 30);
    let z = x.mul(&y).unwrap();
    assert_eq!(three_scalars(&z), (100, 400, 900));

    let s = tokens_schema();
    let x = tokens_rec(&s, 10, 20, 30, [1, 2], [3, 4, 5]);
    let y = tokens_rec(&s, 10, 20, 30, [1, 2], [3, 4, 5]);
    let z = x.mul(&y).unwrap();
    assert_eq!(three_scalars(&z), (100, 400, 900));
    assert_eq!(z.elem_at(3, 0), Some(1));
    assert_eq!(z.elem_at(3, 1), Some(4));
    assert_eq!(z.elem_at(4, 0), Some(9));
    assert_eq!(z.elem_at(4, 1), Some(16));
    assert_eq!(z.elem_at(4, 2), Some(25));
}

#[test]
fn basic_arithmetics_test_mul_scalar() {
    let s = padded_schema();
    let x = padded_rec(&s, 10, 20, 30);
    let z = x.mul_scalar(2).unwrap();
    assert_eq!(three_scalars(&z), (20, 40, 60));

    let s = tokens_schema();
    let x = tokens_rec(&s, 10, 20, 30, [1, 2], [3, 4, 5]);
    let z = x.mul_scalar(2).unwrap();
    assert_eq!(three_scalars(&z), (20, 40, 60));
    assert_eq!(z.elem_at(3, 0), Some(2));
    assert_eq!(z.elem_at(3, 1), Some(4));
    assert_eq!(z.elem_at(4, 0), Some(6));
    assert_eq!(z.elem_at(4, 1), Some(8));
    assert_eq!(z.elem_at(4, 2), Some(10));
}

#[test]
fn basic_arithmetics_test_div() {
    let s = padded_schema();
    let x = padded_rec(&s, 10, 20, 30);
    let y = padded_rec(&s, 10, 20, 30);
    let z = x.div(&y).unwrap();
    assert_eq!(three_scalars(&z), (1, 1, 1));

    let s = tokens_schema();
    let x = tokens_rec(&s, 10, 20, 30, [1, 2], [3, 4, 5]);
    let y = tokens_rec(&s, 10, 20, 30, [1, 2], [3, 4, 5]);
    let z = x.div(&y).unwrap();
    assert_eq!(three_scalars(&z), (1, 1, 1));
    assert_eq!(z.elem_at(3, 0), Some(1));
    assert_eq!(z.elem_at(3, 1), Some(1));
    assert_eq!(z.elem_at(4, 0), Some(1));
    assert_eq!(z.elem_at(4, 1), Some(1));
    assert_eq!(z.elem_at(4, 2), Some(1));
}

#[test]
fn basic_arithmetics_test_div_scalar() {
    let s = padded_schema();
    let x = padded_rec(&s, 10, 20, 30);
    let z = x.div_scalar(10).unwrap();
    assert_eq!(three_scalars(&z), (1, 2, 3));

    let s = tokens_schema();
    let x = tokens_rec(&s, 10, 20, 30, [1, 2], [3, 4, 5]);
    let z = x.div_scalar(10).unwrap();
    assert_eq!(three_scalars(&z), (1, 2, 3));
    assert_eq!(z.elem_at(3, 0), Some(0));
    assert_eq!(z.elem_at(3, 1), Some(0));
    assert_eq!(z.elem_at(4, 0), Some(0));
    assert_eq!(z.elem_at(4, 1), Some(0));
    assert_eq!(z.elem_at(4, 2), Some(0));
}
