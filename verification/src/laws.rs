//! The algebraic laws relating the operations, stated over the same spec
//! functions the operations' contracts use, and proved for every schema
//! and every well-formed record.

use vstd::prelude::*;

use crate::ops::{
    BinOp, elem_ok, elem_val, field_frac_ok, field_frac_val, field_ok, field_val, frac_elem_ok,
    frac_elem_val, narrowed, rec_frac_ok, rec_frac_result, rec_ok, rec_result,
};
use crate::record::{
    Record, RecordView, ValView, all_zero, new_vals, rec_is_zero, val_is_zero, val_wf,
};
use crate::schema::{FieldType, IntType, SchemaView, nonreserved_len, schema_wf, ty_max};
use vstd::arithmetic::div_mod::{lemma_div_basics, lemma_small_mod};

verus! {

/// Law: subtracting and then adding back reproduces the minuend. When
/// `a.sub(b)` succeeds, adding `b` to the difference succeeds as well,
/// and yields `a` with its reserved padding re-zeroed — so exactly `a`
/// whenever `a`'s padding was already all zero (as it is for every record
/// the constructor built).
pub proof fn lemma_sub_then_add_round_trip(a: Record, b: Record)
    requires
        a.wf(),
        b.wf(),
        a@.schema == b@.schema,
        rec_ok(BinOp::Sub, a@.schema, a@.vals, b@.vals),
    ensures
        rec_ok(
            BinOp::Add,
            a@.schema,
            rec_result(BinOp::Sub, a@.schema, a@.vals, b@.vals),
            b@.vals,
        ),
        rec_result(
            BinOp::Add,
            a@.schema,
            rec_result(BinOp::Sub, a@.schema, a@.vals, b@.vals),
            b@.vals,
        ) == new_vals(a@.schema, a@.vals),
{
    let s = a@.schema;
    let d = rec_result(BinOp::Sub, s, a@.vals, b@.vals);
    assert forall|i: int|
        0 <= i < s.fields.len() && !(#[trigger] s.fields[i]).is_reserved implies field_ok(
        BinOp::Add,
        s.fields[i].kind,
        d[i],
        b@.vals[i],
    ) && field_val(BinOp::Add, s.fields[i].kind, d[i], b@.vals[i]) == a@.vals[i] by {
        assert(field_ok(BinOp::Sub, s.fields[i].kind, a@.vals[i], b@.vals[i]));
        assert(val_wf(a@.vals[i], s.fields[i].kind));
        assert(val_wf(b@.vals[i], s.fields[i].kind));
        assert(d[i] == field_val(BinOp::Sub, s.fields[i].kind, a@.vals[i], b@.vals[i]));
        match s.fields[i].kind {
            FieldType::Scalar(t) => {
                assert(a@.vals[i] == ValView::Scalar(a@.vals[i]->Scalar_0));
            },
            FieldType::Array(t, n) => {
                let xs = a@.vals[i]->Array_0;
                let ys = b@.vals[i]->Array_0;
                assert forall|j: int| 0 <= j < n implies elem_ok(
                    BinOp::Add,
                    t,
                    #[trigger] d[i]->Array_0[j],
                    ys[j],
                ) && elem_val(BinOp::Add, t, d[i]->Array_0[j], ys[j]) == xs[j] by {
                    assert(elem_ok(BinOp::Sub, t, xs[j], ys[j]));
                    assert(xs[j] <= ty_max(t));
                    assert(d[i]->Array_0[j] == elem_val(BinOp::Sub, t, xs[j], ys[j]));
                }
                assert(field_val(BinOp::Add, s.fields[i].kind, d[i], b@.vals[i])->Array_0 =~= xs);
                assert(a@.vals[i] == ValView::Array(xs));
            },
        }
    }
    assert(rec_result(BinOp::Add, s, d, b@.vals) =~= new_vals(s, a@.vals));
}

/// Law: the constructor applied to all-zero arguments yields a record
/// that `is_zero` accepts, for any schema.
pub proof fn lemma_new_zero_is_zero(s: SchemaView, args: Seq<ValView>)
    requires
        schema_wf(s),
        args.len() == nonreserved_len(s),
        forall|i: int| #![trigger args[i]] 0 <= i < args.len() ==> val_is_zero(args[i]),
    ensures
        rec_is_zero(RecordView { schema: s, vals: new_vals(s, args) }),
{
    let r = RecordView { schema: s, vals: new_vals(s, args) };
    assert forall|i: int|
        0 <= i < r.vals.len() && !r.schema.fields[i].is_reserved implies val_is_zero(
        #[trigger] r.vals[i],
    ) by {
        assert(i < args.len());
        assert(val_is_zero(args[i]));
    }
}

/// Law: a record in which any single non-reserved field — or array
/// element — is nonzero is not zero, whatever its reserved padding holds.
pub proof fn lemma_nonzero_not_is_zero(r: RecordView, i: int)
    requires
        0 <= i < r.vals.len(),
        !r.schema.fields[i].is_reserved,
        !val_is_zero(r.vals[i]),
    ensures
        !rec_is_zero(r),
{
    assert(!val_is_zero(r.vals[i]));
}

/// Law: fraction scaling by the identity fraction 1/1 always succeeds
/// and returns the record unchanged, modulo re-zeroed reserved padding
/// (the narrowing discards nothing, since every value already fits its
/// declared type).
pub proof fn lemma_mul_fraction_identity(a: Record)
    requires
        a.wf(),
    ensures
        rec_frac_ok(a@.schema, a@.vals, 1, 1),
        rec_frac_result(a@.schema, a@.vals, 1, 1) == new_vals(a@.schema, a@.vals),
{
    let s = a@.schema;
    assert forall|i: int|
        0 <= i < s.fields.len() && !(#[trigger] s.fields[i]).is_reserved implies frac_field_identity(
        s.fields[i].kind,
        a@.vals[i],
    ) by {
        assert(val_wf(a@.vals[i], s.fields[i].kind));
        match s.fields[i].kind {
            FieldType::Scalar(t) => {
                lemma_frac_elem_identity(t, a@.vals[i]->Scalar_0);
                assert(a@.vals[i] == ValView::Scalar(a@.vals[i]->Scalar_0));
            },
            FieldType::Array(t, n) => {
                let xs = a@.vals[i]->Array_0;
                assert forall|j: int| 0 <= j < n implies frac_elem_ok(#[trigger] xs[j], 1, 1)
                    && frac_elem_val(t, xs[j], 1, 1) == xs[j] by {
                    assert(xs[j] <= ty_max(t));
                    lemma_frac_elem_identity(t, xs[j]);
                }
                assert(field_frac_val(s.fields[i].kind, a@.vals[i], 1, 1)->Array_0
                    =~= xs);
                assert(a@.vals[i] == ValView::Array(xs));
            },
        }
    }
    assert(rec_frac_result(s, a@.vals, 1, 1) =~= new_vals(s, a@.vals));
}

/// One field scales by 1/1 to itself.
spec fn frac_field_identity(k: FieldType, v: ValView) -> bool {
    field_frac_ok(k, v, 1, 1) && field_frac_val(k, v, 1, 1) == v
}

/// One element scales by 1/1 to itself.
proof fn lemma_frac_elem_identity(t: IntType, x: u128)
    requires
        x <= ty_max(t),
    ensures
        frac_elem_ok(x, 1, 1),
        frac_elem_val(t, x, 1, 1) == x,
{
    assert(x * 1 == x);
    lemma_div_basics(x as int);
    assert((x * 1) / (1 as int) == x);
    if t != IntType::U128 {
        lemma_small_mod(x as nat, (ty_max(t) + 1) as nat);
    }
    assert(narrowed(t, x) == x);
}

/// Law: fraction scaling with a zero numerator and any nonzero
/// denominator always succeeds and yields an all-zero record.
pub proof fn lemma_mul_fraction_zero(a: Record, den: u128)
    requires
        a.wf(),
        den != 0,
    ensures
        rec_frac_ok(a@.schema, a@.vals, 0, den),
        rec_is_zero(
            RecordView {
                schema: a@.schema,
                vals: rec_frac_result(a@.schema, a@.vals, 0, den),
            },
        ),
{
    let s = a@.schema;
    let r = RecordView { schema: s, vals: rec_frac_result(s, a@.vals, 0, den) };
    assert forall|i: int|
        0 <= i < s.fields.len() && !(#[trigger] s.fields[i]).is_reserved implies
        field_frac_ok(s.fields[i].kind, a@.vals[i], 0, den) && val_is_zero(
        field_frac_val(s.fields[i].kind, a@.vals[i], 0, den),
    ) by {
        assert(val_wf(a@.vals[i], s.fields[i].kind));
        match s.fields[i].kind {
            FieldType::Scalar(t) => {
                lemma_frac_elem_zero(t, a@.vals[i]->Scalar_0, den);
            },
            FieldType::Array(t, n) => {
                let xs = a@.vals[i]->Array_0;
                assert forall|j: int| 0 <= j < n implies frac_elem_ok(#[trigger] xs[j], 0, den)
                    && frac_elem_val(t, xs[j], 0, den) == 0 by {
                    lemma_frac_elem_zero(t, xs[j], den);
                }
                assert(all_zero(
                    field_frac_val(s.fields[i].kind, a@.vals[i], 0, den)->Array_0,
                ));
            },
        }
    }
    assert forall|i: int|
        0 <= i < r.vals.len() && !r.schema.fields[i].is_reserved implies val_is_zero(
        #[trigger] r.vals[i],
    ) by {
        assert(r.vals[i] == field_frac_val(s.fields[i].kind, a@.vals[i], 0, den));
    }
}

/// One element scales by 0/den to zero.
proof fn lemma_frac_elem_zero(t: IntType, x: u128, den: u128)
    requires
        den != 0,
    ensures
        frac_elem_ok(x, 0, den),
        frac_elem_val(t, x, 0, den) == 0,
{
    assert(x * 0 == 0);
    lemma_div_basics(den as int);
    assert((0 as int) / (den as int) == 0);
    if t != IntType::U128 {
        lemma_small_mod(0, (ty_max(t) + 1) as nat);
    }
    assert(narrowed(t, 0) == 0);
}

} // verus!
