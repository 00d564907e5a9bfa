//! Record values: one dynamic value per schema field, each bounded by the
//! field's declared integer type.
//!
//! A [`Record`] pairs a [`Schema`] with one [`FieldValue`] per field. The
//! constructor [`Record::new`] takes one argument per non-reserved field in
//! declared order and zero-fills the reserved padding field; [`Record::is_zero`]
//! tests every non-reserved field and array element against zero and never
//! inspects the padding.

use vstd::prelude::*;

use crate::schema::{FieldSpec, FieldType, Schema, SchemaView, nonreserved_len, schema_wf, ty_max};

verus! {

/// The dynamic value of one field: a single integer, or a fixed-length
/// array of integers. Values are carried as `u128` and bounded by the
/// field's declared type.
#[derive(Debug)]
pub enum FieldValue {
    Scalar(u128),
    Array(Vec<u128>),
}

/// Mathematical value of a [`FieldValue`].
pub enum ValView {
    Scalar(u128),
    Array(Seq<u128>),
}

impl View for FieldValue {
    type V = ValView;

    open spec fn view(&self) -> ValView {
        match self {
            FieldValue::Scalar(x) => ValView::Scalar(*x),
            FieldValue::Array(xs) => ValView::Array(xs@),
        }
    }
}

impl Clone for FieldValue {
    fn clone(&self) -> (res: Self)
        ensures
            res@ == self@,
    {
        match self {
            FieldValue::Scalar(x) => FieldValue::Scalar(*x),
            FieldValue::Array(xs) => {
                let ys = xs.clone();
                proof {
                    assert(ys@ =~= xs@);
                }
                FieldValue::Array(ys)
            },
        }
    }
}

/// The value conforms to the declared field shape: matching variant,
/// declared array length, every integer within the declared type's range.
pub open spec fn val_wf(v: ValView, k: FieldType) -> bool {
    match k {
        FieldType::Scalar(t) => v matches ValView::Scalar(x) && x <= ty_max(t),
        FieldType::Array(t, n) => v matches ValView::Array(xs) && xs.len() == n && (forall|j: int|
            #![trigger xs[j]]
            0 <= j < xs.len() ==> xs[j] <= ty_max(t)),
    }
}

/// Every value conforms to its field, one value per field.
pub open spec fn vals_wf(s: SchemaView, vals: Seq<ValView>) -> bool {
    &&& vals.len() == s.fields.len()
    &&& forall|i: int|
        #![trigger vals[i]]
        0 <= i < vals.len() ==> val_wf(vals[i], s.fields[i].kind)
}

/// A record value of one record type: the validated schema together with
/// one value per field, in declared order.
#[derive(Debug)]
pub struct Record {
    pub schema: Schema,
    pub vals: Vec<FieldValue>,
}

/// Mathematical value of a [`Record`].
pub struct RecordView {
    pub schema: SchemaView,
    pub vals: Seq<ValView>,
}

/// Views of a field value sequence, in order.
pub open spec fn vals_view(v: Seq<FieldValue>) -> Seq<ValView> {
    Seq::new(v.len(), |i: int| v[i]@)
}

impl View for Record {
    type V = RecordView;

    open spec fn view(&self) -> RecordView {
        RecordView { schema: self.schema@, vals: vals_view(self.vals@) }
    }
}

/// A record is well formed when its schema is and every field value
/// conforms to its field.
pub open spec fn record_wf(r: RecordView) -> bool {
    &&& schema_wf(r.schema)
    &&& vals_wf(r.schema, r.vals)
}

/// The all-zero value of a field shape.
pub open spec fn zero_val(k: FieldType) -> ValView {
    match k {
        FieldType::Scalar(_) => ValView::Scalar(0),
        FieldType::Array(_, n) => ValView::Array(Seq::new(n as nat, |j: int| 0u128)),
    }
}

/// The field values a constructor call produces: the given arguments for
/// the non-reserved fields, in order, and all-zero padding for the
/// reserved field.
pub open spec fn new_vals(s: SchemaView, args: Seq<ValView>) -> Seq<ValView> {
    Seq::new(
        s.fields.len(),
        |i: int|
            if s.fields[i].is_reserved {
                zero_val(s.fields[i].kind)
            } else {
                args[i]
            },
    )
}

/// A fresh vector of `n` zeros.
fn zero_elems(n: usize) -> (r: Vec<u128>)
    ensures
        r@ == Seq::new(n as nat, |j: int| 0u128),
{
    let mut v: Vec<u128> = Vec::new();
    let mut j: usize = 0;
    while j < n
        invariant
            j <= n,
            v@.len() == j,
            forall|k: int| #![trigger v@[k]] 0 <= k < j ==> v@[k] == 0u128,
        decreases n - j,
    {
        v.push(0u128);
        j += 1;
    }
    proof {
        assert(v@ =~= Seq::new(n as nat, |j: int| 0u128));
    }
    v
}

/// Every element of the sequence is zero.
pub open spec fn all_zero(xs: Seq<u128>) -> bool {
    forall|j: int| #![trigger xs[j]] 0 <= j < xs.len() ==> xs[j] == 0
}

/// A value is zero when the scalar is zero, or every array element is.
pub open spec fn val_is_zero(v: ValView) -> bool {
    match v {
        ValView::Scalar(x) => x == 0,
        ValView::Array(xs) => all_zero(xs),
    }
}

/// A record is zero when every non-reserved field value is; the reserved
/// padding never counts.
pub open spec fn rec_is_zero(r: RecordView) -> bool {
    forall|i: int|
        #![trigger r.vals[i]]
        0 <= i < r.vals.len() && !r.schema.fields[i].is_reserved ==> val_is_zero(r.vals[i])
}

impl Clone for Record {
    fn clone(&self) -> (res: Self)
        ensures
            res@ == self@,
    {
        let mut vals: Vec<FieldValue> = Vec::new();
        let n: usize = self.vals.len();
        let mut i: usize = 0;
        while i < n
            invariant
                n == self.vals@.len(),
                i <= n,
                vals@.len() == i,
                forall|k: int| #![trigger vals@[k]] 0 <= k < i ==> vals@[k]@ == self.vals@[k]@,
            decreases n - i,
        {
            vals.push(self.vals[i].clone());
            i += 1;
        }
        let res = Record { schema: self.schema.clone(), vals };
        proof {
            assert(res@.vals =~= self@.vals);
        }
        res
    }
}

impl Record {
    /// The record is well formed; see [`record_wf`].
    pub open spec fn wf(&self) -> bool {
        record_wf(self@)
    }

    /// Construct a record: one argument per non-reserved field, in declared
    /// order, each of the field's declared shape. The reserved padding
    /// field, if the schema has one, is synthesized as all zero. Never
    /// fails.
    pub fn new(schema: &Schema, args: Vec<FieldValue>) -> (r: Record)
        requires
            schema_wf(schema@),
            args@.len() == nonreserved_len(schema@),
            forall|i: int|
                #![trigger args@[i]]
                0 <= i < args@.len() ==> val_wf(args@[i]@, schema@.fields[i].kind),
        ensures
            r@.schema == schema@,
            r@.vals == new_vals(schema@, vals_view(args@)),
            r.wf(),
    {
        let n: usize = schema.fields.len();
        let mut vals: Vec<FieldValue> = args;
        let last: &FieldSpec = &schema.fields[n - 1];
        if last.is_reserved {
            match last.kind {
                FieldType::Array(_, len) => {
                    vals.push(FieldValue::Array(zero_elems(len)));
                },
                FieldType::Scalar(_) => {
                    proof {
                        assert(false);
                    }
                },
            }
        }
        let r = Record { schema: schema.clone(), vals };
        proof {
            assert(r@.vals =~= new_vals(schema@, vals_view(args@)));
        }
        r
    }

    /// True iff every non-reserved scalar field is zero and every element
    /// of every non-reserved array field is zero. The reserved padding is
    /// never inspected.
    pub fn is_zero(&self) -> (r: bool)
        requires
            self.wf(),
        ensures
            r == rec_is_zero(self@),
    {
        let n: usize = self.vals.len();
        let mut i: usize = 0;
        while i < n
            invariant
                n == self.vals@.len(),
                n == self@.schema.fields.len(),
                i <= n,
                forall|k: int|
                    #![trigger self@.vals[k]]
                    0 <= k < i && !self@.schema.fields[k].is_reserved ==> val_is_zero(
                        self@.vals[k],
                    ),
            decreases n - i,
        {
            if !self.schema.fields[i].is_reserved {
                match &self.vals[i] {
                    FieldValue::Scalar(x) => {
                        if *x != 0 {
                            proof {
                                assert(!val_is_zero(self@.vals[i as int]));
                            }
                            return false;
                        }
                    },
                    FieldValue::Array(xs) => {
                        let m: usize = xs.len();
                        let mut j: usize = 0;
                        while j < m
                            invariant
                                m == xs@.len(),
                                j <= m,
                                i < n,
                                n == self.vals@.len(),
                                n == self@.schema.fields.len(),
                                !self@.schema.fields[i as int].is_reserved,
                                self@.vals[i as int] == ValView::Array(xs@),
                                forall|k: int| #![trigger xs@[k]] 0 <= k < j ==> xs@[k] == 0,
                            decreases m - j,
                        {
                            if xs[j] != 0 {
                                proof {
                                    assert(!all_zero(xs@)) by {
                                        assert(0 <= j < xs@.len() && xs@[j as int] != 0);
                                    }
                                    assert(!val_is_zero(ValView::Array(xs@)));
                                    assert(!rec_is_zero(self@));
                                }
                                return false;
                            }
                            j += 1;
                        }
                        proof {
                            assert(val_is_zero(self@.vals[i as int]));
                        }
                    },
                }
            }
            i += 1;
        }
        true
    }
}


impl Record {
    /// How many fields the record has, the reserved padding included.
    pub fn field_count(&self) -> (r: usize)
        ensures
            r == self@.vals.len(),
    {
        self.vals.len()
    }

    /// The value of field `i`, when `i` is in range and a scalar field.
    pub fn scalar_at(&self, i: usize) -> (r: Option<u128>)
        ensures
            match r {
                Some(x) => i < self@.vals.len() && (self@.vals[i as int] matches ValView::Scalar(y)
                    && x == y),
                None => i >= self@.vals.len() || !(self@.vals[i as int] is Scalar),
            },
    {
        if i < self.vals.len() {
            match &self.vals[i] {
                FieldValue::Scalar(x) => Some(*x),
                FieldValue::Array(_) => None,
            }
        } else {
            None
        }
    }

    /// Element `j` of field `i`, when `i` is in range, an array field,
    /// and `j` is within its length.
    pub fn elem_at(&self, i: usize, j: usize) -> (r: Option<u128>)
        ensures
            match r {
                Some(x) => i < self@.vals.len() && (self@.vals[i as int] matches ValView::Array(
                    xs,
                ) && j < xs.len() && x == xs[j as int]),
                None => i >= self@.vals.len() || !(self@.vals[i as int] is Array) || (
                self@.vals[i as int] matches ValView::Array(xs) && j >= xs.len()),
            },
    {
        if i < self.vals.len() {
            match &self.vals[i] {
                FieldValue::Array(xs) => {
                    if j < xs.len() {
                        Some(xs[j])
                    } else {
                        None
                    }
                },
                FieldValue::Scalar(_) => None,
            }
        } else {
            None
        }
    }
}

} // verus!
