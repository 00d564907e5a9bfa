//! The synthesized arithmetic operations of a record type.
//!
//! Every operation walks the record's fields in declared order and works
//! elementwise, in ascending index order, on array fields. "Checked" means
//! the whole operation returns no value as soon as one sub-step overflows,
//! underflows or divides by zero; except for the documented in-place
//! assignment variants, no partial result is ever observable. The reserved
//! padding field takes part in no arithmetic: result records get it
//! re-zeroed by the constructor, whatever the operands held there.

use vstd::prelude::*;

use crate::record::{FieldValue, Record, ValView, val_wf, zero_val};
use crate::schema::{
    FieldType, IntType, SchemaView, elem_ty, factor_convertible, nonreserved_len, ty_max,
    ty_max_value,
};

verus! {

/// The four elementwise checked operations.
#[derive(Clone, Copy, PartialEq, Eq, Structural, Debug)]
pub enum BinOp {
    Add,
    Sub,
    Mul,
    Div,
}

/// Whether one checked element step of type `t` succeeds: the sum or
/// product fits the type, the difference does not underflow, the divisor
/// is nonzero.
pub open spec fn elem_ok(op: BinOp, t: IntType, a: u128, b: u128) -> bool {
    match op {
        BinOp::Add => a + b <= ty_max(t),
        BinOp::Sub => b <= a,
        BinOp::Mul => a * b <= ty_max(t),
        BinOp::Div => b != 0,
    }
}

/// The element result of a successful step: sum, difference, product, or
/// floor quotient.
pub open spec fn elem_val(op: BinOp, t: IntType, a: u128, b: u128) -> u128 {
    match op {
        BinOp::Add => (a + b) as u128,
        BinOp::Sub => (a - b) as u128,
        BinOp::Mul => (a * b) as u128,
        BinOp::Div => a / b,
    }
}

/// Whether the operation succeeds on a whole field pair: on the scalar,
/// or on every element pair of the array.
pub open spec fn field_ok(op: BinOp, k: FieldType, a: ValView, b: ValView) -> bool {
    match k {
        FieldType::Scalar(t) => elem_ok(op, t, a->Scalar_0, b->Scalar_0),
        FieldType::Array(t, n) => forall|j: int|
            #![trigger a->Array_0[j]]
            0 <= j < n ==> elem_ok(op, t, a->Array_0[j], b->Array_0[j]),
    }
}

/// The field result of a successful operation, elementwise on arrays.
pub open spec fn field_val(op: BinOp, k: FieldType, a: ValView, b: ValView) -> ValView {
    match k {
        FieldType::Scalar(t) => ValView::Scalar(elem_val(op, t, a->Scalar_0, b->Scalar_0)),
        FieldType::Array(t, n) => ValView::Array(
            Seq::new(n as nat, |j: int| elem_val(op, t, a->Array_0[j], b->Array_0[j])),
        ),
    }
}

/// Whether the operation succeeds on every non-reserved field pair of the
/// two records.
pub open spec fn rec_ok(op: BinOp, s: SchemaView, a: Seq<ValView>, b: Seq<ValView>) -> bool {
    forall|i: int|
        #![trigger s.fields[i]]
        0 <= i < s.fields.len() && !s.fields[i].is_reserved ==> field_ok(
            op,
            s.fields[i].kind,
            a[i],
            b[i],
        )
}

/// The field values of a successful operation's result: the per-field
/// results in declared order, the reserved padding re-zeroed.
pub open spec fn rec_result(op: BinOp, s: SchemaView, a: Seq<ValView>, b: Seq<ValView>) -> Seq<
    ValView,
> {
    Seq::new(
        s.fields.len(),
        |i: int|
            if s.fields[i].is_reserved {
                zero_val(s.fields[i].kind)
            } else {
                field_val(op, s.fields[i].kind, a[i], b[i])
            },
    )
}

/// One checked element step on the `u128` carriers of type `t`.
pub(crate) fn checked_elem(op: BinOp, t: IntType, a: u128, b: u128) -> (r: Option<u128>)
    requires
        a <= ty_max(t),
        b <= ty_max(t),
    ensures
        r is Some <==> elem_ok(op, t, a, b),
        r matches Some(v) ==> v == elem_val(op, t, a, b) && v <= ty_max(t),
{
    let m: u128 = ty_max_value(t);
    match op {
        BinOp::Add => match a.checked_add(b) {
            Some(s) => if s <= m {
                Some(s)
            } else {
                None
            },
            None => None,
        },
        BinOp::Sub => if b <= a {
            Some(a - b)
        } else {
            None
        },
        BinOp::Mul => match a.checked_mul(b) {
            Some(p) => if p <= m {
                Some(p)
            } else {
                None
            },
            None => None,
        },
        BinOp::Div => if b != 0 {
            let q: u128 = a / b;
            proof {
                assert(a / b <= a) by (nonlinear_arith)
                    requires b != 0
                ;
            }
            Some(q)
        } else {
            None
        },
    }
}

/// One checked field step: the scalar step, or the elementwise array
/// steps in ascending index order, into a fresh array.
fn checked_field(op: BinOp, k: FieldType, a: &FieldValue, b: &FieldValue) -> (r: Option<
    FieldValue,
>)
    requires
        val_wf(a@, k),
        val_wf(b@, k),
    ensures
        r is Some <==> field_ok(op, k, a@, b@),
        r matches Some(v) ==> v@ == field_val(op, k, a@, b@) && val_wf(v@, k),
{
    match k {
        FieldType::Scalar(t) => match (a, b) {
            (FieldValue::Scalar(x), FieldValue::Scalar(y)) => match checked_elem(op, t, *x, *y) {
                Some(v) => Some(FieldValue::Scalar(v)),
                None => None,
            },
            _ => {
                proof {
                    assert(false);
                }
                None
            },
        },
        FieldType::Array(t, n) => match (a, b) {
            (FieldValue::Array(xs), FieldValue::Array(ys)) => {
                let mut out: Vec<u128> = Vec::new();
                let mut j: usize = 0;
                while j < n
                    invariant
                        k == FieldType::Array(t, n),
                        a@ == ValView::Array(xs@),
                        b@ == ValView::Array(ys@),
                        val_wf(a@, k),
                        val_wf(b@, k),
                        xs@.len() == n,
                        ys@.len() == n,
                        j <= n,
                        out@.len() == j,
                        forall|q: int|
                            #![trigger xs@[q]]
                            0 <= q < j ==> elem_ok(op, t, xs@[q], ys@[q]),
                        forall|q: int|
                            #![trigger out@[q]]
                            0 <= q < j ==> out@[q] == elem_val(op, t, xs@[q], ys@[q]),
                        forall|q: int|
                            #![trigger out@[q]]
                            0 <= q < j ==> out@[q] <= ty_max(t),
                    decreases n - j,
                {
                    match checked_elem(op, t, xs[j], ys[j]) {
                        Some(v) => {
                            let ghost out0 = out@;
                            proof {
                                assert(elem_ok(op, t, xs@[j as int], ys@[j as int]));
                                assert(v == elem_val(op, t, xs@[j as int], ys@[j as int]));
                            }
                            out.push(v);
                            proof {
                                assert forall|q: int| 0 <= q < out@.len() implies #[trigger] out@[q]
                                    == (if q < j { out0[q] } else { v }) by {
                                    assert(out@ == out0.push(v));
                                }
                            }
                        },
                        None => {
                            proof {
                                assert(!elem_ok(op, t, a@->Array_0[j as int], b@->Array_0[j as int]));
                                assert(!field_ok(op, k, a@, b@));
                            }
                            return None;
                        },
                    }
                    j += 1;
                }
                let res = FieldValue::Array(out);
                proof {
                    assert forall|q: int| 0 <= q < n implies elem_ok(
                        op,
                        t,
                        a@->Array_0[q],
                        b@->Array_0[q],
                    ) by {
                        assert(out@[q] == elem_val(op, t, xs@[q], ys@[q]));
                    }
                    assert(field_ok(op, k, a@, b@));
                    assert(res@->Array_0 =~= field_val(op, k, a@, b@)->Array_0);
                    assert(res@ == field_val(op, k, a@, b@));
                }
                Some(res)
            },
            _ => {
                proof {
                    assert(false);
                }
                None
            },
        },
    }
}

/// The shared walk of the two records' fields for `add`, `sub`, `mul` and
/// `div`: every non-reserved field stepped in declared order, the results
/// handed to the constructor, which re-zeroes the reserved padding.
fn bin_records(op: BinOp, x: &Record, y: &Record) -> (r: Option<Record>)
    requires
        x.wf(),
        y.wf(),
        x@.schema == y@.schema,
    ensures
        r is Some <==> rec_ok(op, x@.schema, x@.vals, y@.vals),
        r matches Some(z) ==> {
            &&& z@.schema == x@.schema
            &&& z@.vals == rec_result(op, x@.schema, x@.vals, y@.vals)
            &&& z.wf()
        },
{
    let n: usize = x.schema.fields.len();
    let nr: usize = if x.schema.fields[n - 1].is_reserved {
        n - 1
    } else {
        n
    };
    let mut out: Vec<FieldValue> = Vec::new();
    let mut i: usize = 0;
    while i < nr
        invariant
            x.wf(),
            y.wf(),
            x@.schema == y@.schema,
            n == x@.schema.fields.len(),
            nr == nonreserved_len(x@.schema),
            nr <= n,
            i <= nr,
            out@.len() == i,
            forall|q: int|
                #![trigger out@[q]]
                0 <= q < i ==> out@[q]@ == field_val(
                    op,
                    x@.schema.fields[q].kind,
                    x@.vals[q],
                    y@.vals[q],
                ) && field_ok(op, x@.schema.fields[q].kind, x@.vals[q], y@.vals[q]) && val_wf(
                    out@[q]@,
                    x@.schema.fields[q].kind,
                ),
        decreases nr - i,
    {
        proof {
            let ii = i as int;
            assert(!x@.schema.fields[ii].is_reserved);
            assert(x@.vals.len() == x@.schema.fields.len() && y@.vals.len() == y@.schema.fields.len());
            assert(val_wf(x@.vals[ii], x@.schema.fields[ii].kind));
            assert(val_wf(y@.vals[ii], y@.schema.fields[ii].kind));
            assert(x@.vals[ii] == x.vals@[ii]@);
            assert(y@.vals[ii] == y.vals@[ii]@);
            assert(x@.schema.fields[ii].kind == x.schema.fields@[ii].kind);
        }
        match checked_field(op, x.schema.fields[i].kind, &x.vals[i], &y.vals[i]) {
            Some(v) => {
                out.push(v);
            },
            None => {
                proof {
                    assert(!rec_ok(op, x@.schema, x@.vals, y@.vals));
                }
                return None;
            },
        }
        i += 1;
    }
    proof {
        let s = x@.schema;
        assert forall|q: int| 0 <= q < s.fields.len() && !s.fields[q].is_reserved implies field_ok(
            op,
            s.fields[q].kind,
            x@.vals[q],
            y@.vals[q],
        ) by {
            assert(q < nr);
            assert(out@[q]@ == field_val(op, s.fields[q].kind, x@.vals[q], y@.vals[q]));
        }
        assert(rec_ok(op, x@.schema, x@.vals, y@.vals));
    }
    let z = Record::new(&x.schema, out);
    proof {
        let s = x@.schema;
        let rr = rec_result(op, s, x@.vals, y@.vals);
        assert forall|q: int| 0 <= q < s.fields.len() implies z@.vals[q] == rr[q] by {
            if !s.fields[q].is_reserved {
                assert(out@[q]@ == field_val(op, s.fields[q].kind, x@.vals[q], y@.vals[q]));
            }
        }
        assert(z@.vals =~= rr);
    }
    Some(z)
}

impl Record {
    /// Elementwise checked addition. Succeeds iff every non-reserved
    /// field/element pair's sum fits its declared type; then each result
    /// field is the elementwise sum and the reserved padding of the result
    /// is all zero, whatever the operands' padding held.
    pub fn add(&self, other: &Record) -> (r: Option<Record>)
        requires
            self.wf(),
            other.wf(),
            self@.schema == other@.schema,
        ensures
            r is Some <==> rec_ok(BinOp::Add, self@.schema, self@.vals, other@.vals),
            r matches Some(z) ==> {
                &&& z@.schema == self@.schema
                &&& z@.vals == rec_result(BinOp::Add, self@.schema, self@.vals, other@.vals)
                &&& z.wf()
            },
    {
        bin_records(BinOp::Add, self, other)
    }

    /// Elementwise checked subtraction. Succeeds iff no non-reserved
    /// field/element pair underflows; then each result field is the
    /// elementwise difference, with all-zero reserved padding.
    pub fn sub(&self, other: &Record) -> (r: Option<Record>)
        requires
            self.wf(),
            other.wf(),
            self@.schema == other@.schema,
        ensures
            r is Some <==> rec_ok(BinOp::Sub, self@.schema, self@.vals, other@.vals),
            r matches Some(z) ==> {
                &&& z@.schema == self@.schema
                &&& z@.vals == rec_result(BinOp::Sub, self@.schema, self@.vals, other@.vals)
                &&& z.wf()
            },
    {
        bin_records(BinOp::Sub, self, other)
    }

    /// Elementwise checked multiplication. Succeeds iff every non-reserved
    /// field/element pair's product fits its declared type; then each
    /// result field is the elementwise product, with all-zero reserved
    /// padding.
    pub fn mul(&self, other: &Record) -> (r: Option<Record>)
        requires
            self.wf(),
            other.wf(),
            self@.schema == other@.schema,
        ensures
            r is Some <==> rec_ok(BinOp::Mul, self@.schema, self@.vals, other@.vals),
            r matches Some(z) ==> {
                &&& z@.schema == self@.schema
                &&& z@.vals == rec_result(BinOp::Mul, self@.schema, self@.vals, other@.vals)
                &&& z.wf()
            },
    {
        bin_records(BinOp::Mul, self, other)
    }

    /// Elementwise checked division. Fails iff some non-reserved
    /// field/element of the divisor record is zero; otherwise each result
    /// field is the elementwise integer floor quotient, with all-zero
    /// reserved padding.
    pub fn div(&self, other: &Record) -> (r: Option<Record>)
        requires
            self.wf(),
            other.wf(),
            self@.schema == other@.schema,
        ensures
            r is Some <==> rec_ok(BinOp::Div, self@.schema, self@.vals, other@.vals),
            r matches Some(z) ==> {
                &&& z@.schema == self@.schema
                &&& z@.vals == rec_result(BinOp::Div, self@.schema, self@.vals, other@.vals)
                &&& z.wf()
            },
    {
        bin_records(BinOp::Div, self, other)
    }
}


/// A fresh vector of `n` copies of `c`.
fn fill_elems(n: usize, c: u128) -> (r: Vec<u128>)
    ensures
        r@ == Seq::new(n as nat, |j: int| c),
{
    let mut v: Vec<u128> = Vec::new();
    let mut j: usize = 0;
    while j < n
        invariant
            j <= n,
            v@.len() == j,
            forall|k: int| #![trigger v@[k]] 0 <= k < j ==> v@[k] == c,
        decreases n - j,
    {
        v.push(c);
        j += 1;
    }
    proof {
        assert(v@ =~= Seq::new(n as nat, |j: int| c));
    }
    v
}

/// The externally supplied factor spread into a field's shape, as the
/// right-hand operand of the scalar operations.
pub open spec fn splat(k: FieldType, c: u128) -> ValView {
    match k {
        FieldType::Scalar(_) => ValView::Scalar(c),
        FieldType::Array(_, n) => ValView::Array(Seq::new(n as nat, |j: int| c)),
    }
}

/// Whether the scalar operation succeeds on every non-reserved field and
/// array element against the single factor.
pub open spec fn rec_scalar_ok(op: BinOp, s: SchemaView, a: Seq<ValView>, c: u128) -> bool {
    forall|i: int|
        #![trigger s.fields[i]]
        0 <= i < s.fields.len() && !s.fields[i].is_reserved ==> field_ok(
            op,
            s.fields[i].kind,
            a[i],
            splat(s.fields[i].kind, c),
        )
}

/// The field values of a successful scalar operation's result, reserved
/// padding re-zeroed.
pub open spec fn rec_scalar_result(op: BinOp, s: SchemaView, a: Seq<ValView>, c: u128) -> Seq<
    ValView,
> {
    Seq::new(
        s.fields.len(),
        |i: int|
            if s.fields[i].is_reserved {
                zero_val(s.fields[i].kind)
            } else {
                field_val(op, s.fields[i].kind, a[i], splat(s.fields[i].kind, c))
            },
    )
}

/// The shared field walk of `mul_scalar` and `div_scalar`: every
/// non-reserved field stepped against the factor, spread to the field's
/// shape, and the results handed to the constructor.
fn scalar_records(op: BinOp, x: &Record, factor: u128) -> (r: Option<Record>)
    requires
        x.wf(),
        factor <= ty_max(x@.schema.primary),
        factor_convertible(x@.schema),
    ensures
        r is Some <==> rec_scalar_ok(op, x@.schema, x@.vals, factor),
        r matches Some(z) ==> {
            &&& z@.schema == x@.schema
            &&& z@.vals == rec_scalar_result(op, x@.schema, x@.vals, factor)
            &&& z.wf()
        },
{
    let n: usize = x.schema.fields.len();
    let nr: usize = if x.schema.fields[n - 1].is_reserved {
        n - 1
    } else {
        n
    };
    let mut out: Vec<FieldValue> = Vec::new();
    let mut i: usize = 0;
    while i < nr
        invariant
            x.wf(),
            factor <= ty_max(x@.schema.primary),
            factor_convertible(x@.schema),
            n == x@.schema.fields.len(),
            nr == nonreserved_len(x@.schema),
            nr <= n,
            i <= nr,
            out@.len() == i,
            forall|q: int|
                #![trigger out@[q]]
                0 <= q < i ==> out@[q]@ == field_val(
                    op,
                    x@.schema.fields[q].kind,
                    x@.vals[q],
                    splat(x@.schema.fields[q].kind, factor),
                ) && val_wf(out@[q]@, x@.schema.fields[q].kind),
            forall|q: int|
                #![trigger x@.schema.fields[q]]
                0 <= q < i ==> field_ok(
                    op,
                    x@.schema.fields[q].kind,
                    x@.vals[q],
                    splat(x@.schema.fields[q].kind, factor),
                ),
        decreases nr - i,
    {
        proof {
            let ii = i as int;
            assert(!x@.schema.fields[ii].is_reserved);
            assert(x@.vals.len() == x@.schema.fields.len());
            assert(val_wf(x@.vals[ii], x@.schema.fields[ii].kind));
            assert(x@.vals[ii] == x.vals@[ii]@);
            assert(x@.schema.fields[ii].kind == x.schema.fields@[ii].kind);
            assert(ty_max(x@.schema.primary) <= ty_max(elem_ty(x@.schema.fields[ii].kind)));
        }
        let rhs: FieldValue = match x.schema.fields[i].kind {
            FieldType::Scalar(_) => FieldValue::Scalar(factor),
            FieldType::Array(_, len) => FieldValue::Array(fill_elems(len, factor)),
        };
        proof {
            assert(rhs@ == splat(x@.schema.fields[i as int].kind, factor));
            assert(val_wf(rhs@, x@.schema.fields[i as int].kind));
        }
        match checked_field(op, x.schema.fields[i].kind, &x.vals[i], &rhs) {
            Some(v) => {
                out.push(v);
            },
            None => {
                proof {
                    assert(!rec_scalar_ok(op, x@.schema, x@.vals, factor));
                }
                return None;
            },
        }
        i += 1;
    }
    proof {
        let s = x@.schema;
        assert forall|q: int| 0 <= q < s.fields.len() && !s.fields[q].is_reserved implies field_ok(
            op,
            s.fields[q].kind,
            x@.vals[q],
            splat(s.fields[q].kind, factor),
        ) by {
            assert(q < nr);
            assert(0 <= q < i);
        }
        assert(rec_scalar_ok(op, x@.schema, x@.vals, factor));
    }
    let z = Record::new(&x.schema, out);
    proof {
        let s = x@.schema;
        let rr = rec_scalar_result(op, s, x@.vals, factor);
        assert forall|q: int| 0 <= q < s.fields.len() implies z@.vals[q] == rr[q] by {
            if !s.fields[q].is_reserved {
                assert(out@[q]@ == field_val(op, s.fields[q].kind, x@.vals[q], splat(s.fields[q].kind, factor)));
            }
        }
        assert(z@.vals =~= rr);
    }
    Some(z)
}

/// Whether one fraction-scaling element step succeeds: the product of the
/// value and the numerator fits the widened 128-bit precision, and the
/// denominator is nonzero.
pub open spec fn frac_elem_ok(a: u128, num: u128, den: u128) -> bool {
    a * num <= u128::MAX && den != 0
}

/// Truncating narrowing of a widened quotient back to type `t`: the high
/// bits beyond the type's width are silently discarded.
pub open spec fn narrowed(t: IntType, q: u128) -> u128 {
    if t == IntType::U128 {
        q
    } else {
        ((q as int) % (ty_max(t) + 1)) as u128
    }
}

/// The element result of a successful fraction step: multiply at the
/// widened precision, divide, narrow back to the declared type.
pub open spec fn frac_elem_val(t: IntType, a: u128, num: u128, den: u128) -> u128 {
    narrowed(t, ((a * num) / (den as int)) as u128)
}

/// Whether the fraction scaling succeeds on a whole field.
pub open spec fn field_frac_ok(k: FieldType, a: ValView, num: u128, den: u128) -> bool {
    match k {
        FieldType::Scalar(_) => frac_elem_ok(a->Scalar_0, num, den),
        FieldType::Array(_, n) => forall|j: int|
            #![trigger a->Array_0[j]]
            0 <= j < n ==> frac_elem_ok(a->Array_0[j], num, den),
    }
}

/// The field result of a successful fraction scaling.
pub open spec fn field_frac_val(k: FieldType, a: ValView, num: u128, den: u128) -> ValView {
    match k {
        FieldType::Scalar(t) => ValView::Scalar(frac_elem_val(t, a->Scalar_0, num, den)),
        FieldType::Array(t, n) => ValView::Array(
            Seq::new(n as nat, |j: int| frac_elem_val(t, a->Array_0[j], num, den)),
        ),
    }
}

/// Whether the fraction scaling succeeds on every non-reserved field.
pub open spec fn rec_frac_ok(s: SchemaView, a: Seq<ValView>, num: u128, den: u128) -> bool {
    forall|i: int|
        #![trigger s.fields[i]]
        0 <= i < s.fields.len() && !s.fields[i].is_reserved ==> field_frac_ok(
            s.fields[i].kind,
            a[i],
            num,
            den,
        )
}

/// The field values of a successful fraction scaling's result, reserved
/// padding re-zeroed.
pub open spec fn rec_frac_result(s: SchemaView, a: Seq<ValView>, num: u128, den: u128) -> Seq<
    ValView,
> {
    Seq::new(
        s.fields.len(),
        |i: int|
            if s.fields[i].is_reserved {
                zero_val(s.fields[i].kind)
            } else {
                field_frac_val(s.fields[i].kind, a[i], num, den)
            },
    )
}

/// One fraction-scaling element step: widen to 128 bits, checked multiply,
/// checked divide, truncating narrow back to `t`.
fn checked_frac_elem(t: IntType, a: u128, num: u128, den: u128) -> (r: Option<u128>)
    requires
        a <= ty_max(t),
    ensures
        r is Some <==> frac_elem_ok(a, num, den),
        r matches Some(v) ==> v == frac_elem_val(t, a, num, den) && v <= ty_max(t),
{
    match a.checked_mul(num) {
        Some(w) => {
            if den == 0 {
                None
            } else {
                let q: u128 = w / den;
                match t {
                    IntType::U128 => Some(q),
                    _ => {
                        let m1: u128 = ty_max_value(t) + 1;
                        Some(q % m1)
                    },
                }
            }
        },
        None => None,
    }
}

/// One fraction-scaling field step, elementwise on arrays in ascending
/// index order.
fn checked_frac_field(k: FieldType, a: &FieldValue, num: u128, den: u128) -> (r: Option<
    FieldValue,
>)
    requires
        val_wf(a@, k),
    ensures
        r is Some <==> field_frac_ok(k, a@, num, den),
        r matches Some(v) ==> v@ == field_frac_val(k, a@, num, den) && val_wf(v@, k),
{
    match k {
        FieldType::Scalar(t) => match a {
            FieldValue::Scalar(x) => match checked_frac_elem(t, *x, num, den) {
                Some(v) => Some(FieldValue::Scalar(v)),
                None => None,
            },
            _ => {
                proof {
                    assert(false);
                }
                None
            },
        },
        FieldType::Array(t, n) => match a {
            FieldValue::Array(xs) => {
                let mut out: Vec<u128> = Vec::new();
                let mut j: usize = 0;
                while j < n
                    invariant
                        k == FieldType::Array(t, n),
                        a@ == ValView::Array(xs@),
                        val_wf(a@, k),
                        xs@.len() == n,
                        j <= n,
                        out@.len() == j,
                        forall|q: int|
                            #![trigger xs@[q]]
                            0 <= q < j ==> frac_elem_ok(xs@[q], num, den),
                        forall|q: int|
                            #![trigger out@[q]]
                            0 <= q < j ==> out@[q] == frac_elem_val(t, xs@[q], num, den) && out@[q]
                                <= ty_max(t),
                    decreases n - j,
                {
                    match checked_frac_elem(t, xs[j], num, den) {
                        Some(v) => {
                            let ghost out0 = out@;
                            proof {
                                assert(frac_elem_ok(xs@[j as int], num, den));
                                assert(v == frac_elem_val(t, xs@[j as int], num, den));
                            }
                            out.push(v);
                            proof {
                                assert forall|q: int| 0 <= q < out@.len() implies #[trigger] out@[q]
                                    == (if q < j { out0[q] } else { v }) by {
                                    assert(out@ == out0.push(v));
                                }
                            }
                        },
                        None => {
                            proof {
                                assert(!frac_elem_ok(a@->Array_0[j as int], num, den));
                                assert(!field_frac_ok(k, a@, num, den));
                            }
                            return None;
                        },
                    }
                    j += 1;
                }
                let res = FieldValue::Array(out);
                proof {
                    assert forall|q: int| 0 <= q < n implies frac_elem_ok(
                        a@->Array_0[q],
                        num,
                        den,
                    ) by {
                        assert(frac_elem_ok(xs@[q], num, den));
                    }
                    assert(field_frac_ok(k, a@, num, den));
                    assert(res@->Array_0 =~= field_frac_val(k, a@, num, den)->Array_0);
                    assert(res@ == field_frac_val(k, a@, num, den));
                }
                Some(res)
            },
            _ => {
                proof {
                    assert(false);
                }
                None
            },
        },
    }
}

/// The field walk of `mul_fraction`: every non-reserved field scaled at
/// the widened precision, results handed to the constructor.
fn frac_records(x: &Record, num: u128, den: u128) -> (r: Option<Record>)
    requires
        x.wf(),
    ensures
        r is Some <==> rec_frac_ok(x@.schema, x@.vals, num, den),
        r matches Some(z) ==> {
            &&& z@.schema == x@.schema
            &&& z@.vals == rec_frac_result(x@.schema, x@.vals, num, den)
            &&& z.wf()
        },
{
    let n: usize = x.schema.fields.len();
    let nr: usize = if x.schema.fields[n - 1].is_reserved {
        n - 1
    } else {
        n
    };
    let mut out: Vec<FieldValue> = Vec::new();
    let mut i: usize = 0;
    while i < nr
        invariant
            x.wf(),
            n == x@.schema.fields.len(),
            nr == nonreserved_len(x@.schema),
            nr <= n,
            i <= nr,
            out@.len() == i,
            forall|q: int|
                #![trigger out@[q]]
                0 <= q < i ==> out@[q]@ == field_frac_val(
                    x@.schema.fields[q].kind,
                    x@.vals[q],
                    num,
                    den,
                ) && val_wf(out@[q]@, x@.schema.fields[q].kind),
            forall|q: int|
                #![trigger x@.schema.fields[q]]
                0 <= q < i ==> field_frac_ok(x@.schema.fields[q].kind, x@.vals[q], num, den),
        decreases nr - i,
    {
        proof {
            let ii = i as int;
            assert(!x@.schema.fields[ii].is_reserved);
            assert(x@.vals.len() == x@.schema.fields.len());
            assert(val_wf(x@.vals[ii], x@.schema.fields[ii].kind));
            assert(x@.vals[ii] == x.vals@[ii]@);
            assert(x@.schema.fields[ii].kind == x.schema.fields@[ii].kind);
        }
        match checked_frac_field(x.schema.fields[i].kind, &x.vals[i], num, den) {
            Some(v) => {
                out.push(v);
            },
            None => {
                proof {
                    assert(!rec_frac_ok(x@.schema, x@.vals, num, den));
                }
                return None;
            },
        }
        i += 1;
    }
    proof {
        let s = x@.schema;
        assert forall|q: int| 0 <= q < s.fields.len() && !s.fields[q].is_reserved implies
            field_frac_ok(s.fields[q].kind, x@.vals[q], num, den) by {
            assert(q < nr);
            assert(0 <= q < i);
        }
        assert(rec_frac_ok(x@.schema, x@.vals, num, den));
    }
    let z = Record::new(&x.schema, out);
    proof {
        let s = x@.schema;
        let rr = rec_frac_result(s, x@.vals, num, den);
        assert forall|q: int| 0 <= q < s.fields.len() implies z@.vals[q] == rr[q] by {
            if !s.fields[q].is_reserved {
                assert(out@[q]@ == field_frac_val(s.fields[q].kind, x@.vals[q], num, den));
            }
        }
        assert(z@.vals =~= rr);
    }
    Some(z)
}

/// A `u16` factor carried into the primary type, as the generated code
/// does with a cast: truncated when the primary type is narrower.
pub open spec fn factor_in_primary(s: SchemaView, factor: u16) -> u128 {
    ((factor as int) % (ty_max(s.primary) + 1)) as u128
}

impl Record {
    /// Multiply every non-reserved scalar field and array element by the
    /// single factor of the primary type, checked against each field's
    /// declared type. Fails iff some product overflows. Available only for
    /// schemas whose primary type converts losslessly into every field's
    /// element type.
    pub fn mul_scalar(&self, factor: u128) -> (r: Option<Record>)
        requires
            self.wf(),
            factor <= ty_max(self@.schema.primary),
            factor_convertible(self@.schema),
        ensures
            r is Some <==> rec_scalar_ok(BinOp::Mul, self@.schema, self@.vals, factor),
            r matches Some(z) ==> {
                &&& z@.schema == self@.schema
                &&& z@.vals == rec_scalar_result(BinOp::Mul, self@.schema, self@.vals, factor)
                &&& z.wf()
            },
    {
        scalar_records(BinOp::Mul, self, factor)
    }

    /// Divide every non-reserved scalar field and array element by the
    /// single factor of the primary type. Fails iff the factor is zero.
    /// Available only for schemas whose primary type converts losslessly
    /// into every field's element type.
    pub fn div_scalar(&self, factor: u128) -> (r: Option<Record>)
        requires
            self.wf(),
            factor <= ty_max(self@.schema.primary),
            factor_convertible(self@.schema),
        ensures
            r is Some <==> rec_scalar_ok(BinOp::Div, self@.schema, self@.vals, factor),
            r matches Some(z) ==> {
                &&& z@.schema == self@.schema
                &&& z@.vals == rec_scalar_result(BinOp::Div, self@.schema, self@.vals, factor)
                &&& z.wf()
            },
    {
        scalar_records(BinOp::Div, self, factor)
    }

    /// Scale every non-reserved scalar field and array element by the
    /// fraction `numerator / denominator`, both of the primary type: the
    /// value and numerator are multiplied at a widened 128-bit precision,
    /// checked; divided by the denominator, checked; and the quotient is
    /// narrowed back to the field's declared type, silently discarding
    /// high bits. Fails iff a widened product exceeds 128 bits or the
    /// denominator is zero.
    pub fn mul_fraction(&self, numerator: u128, denominator: u128) -> (r: Option<Record>)
        requires
            self.wf(),
            numerator <= ty_max(self@.schema.primary),
            denominator <= ty_max(self@.schema.primary),
        ensures
            r is Some <==> rec_frac_ok(self@.schema, self@.vals, numerator, denominator),
            r matches Some(z) ==> {
                &&& z@.schema == self@.schema
                &&& z@.vals == rec_frac_result(self@.schema, self@.vals, numerator, denominator)
                &&& z.wf()
            },
    {
        frac_records(self, numerator, denominator)
    }

    /// Basis-point scaling: `mul_fraction(factor, 10_000)`. Available only
    /// when the primary type can hold `10_000`.
    pub fn mul_bps(&self, factor: u16) -> (r: Option<Record>)
        requires
            self.wf(),
            10_000 <= ty_max(self@.schema.primary),
        ensures
            r is Some <==> rec_frac_ok(self@.schema, self@.vals, factor as u128, 10_000),
            r matches Some(z) ==> {
                &&& z@.schema == self@.schema
                &&& z@.vals == rec_frac_result(self@.schema, self@.vals, factor as u128, 10_000)
                &&& z.wf()
            },
    {
        self.mul_fraction(factor as u128, 10_000)
    }

    /// Percent scaling: `mul_fraction(factor, 100)`, the factor first
    /// carried into the primary type (truncated when that type is
    /// narrower than `u16`).
    pub fn mul_percent(&self, factor: u16) -> (r: Option<Record>)
        requires
            self.wf(),
        ensures
            ({
                let num = factor_in_primary(self@.schema, factor);
                &&& (r is Some <==> rec_frac_ok(self@.schema, self@.vals, num, 100))
                &&& (r matches Some(z) ==> {
                    &&& z@.schema == self@.schema
                    &&& z@.vals == rec_frac_result(self@.schema, self@.vals, num, 100)
                    &&& z.wf()
                })
            }),
    {
        let m: u128 = ty_max_value(self.schema.primary);
        let f: u128 = factor as u128;
        let num: u128 = if f <= m {
            f
        } else {
            f % (m + 1)
        };
        proof {
            if f <= m {
                vstd::arithmetic::div_mod::lemma_small_mod(f as nat, (m + 1) as nat);
            }
            assert(num == factor_in_primary(self@.schema, factor));
            assert(100 <= ty_max(self@.schema.primary));
        }
        self.mul_fraction(num, 100)
    }
}

} // verus!
