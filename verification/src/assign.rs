//! The in-place assignment variants of addition and subtraction.
//!
//! `add_assign` and `sub_assign` mutate `self` field by field in declared
//! order, arrays elementwise in ascending index order, and abort at the
//! first failing step. They are deliberately not atomic: fields — and
//! array elements — mutated before the failing step stay mutated even
//! though the call reports failure. The reserved padding field is never
//! touched. The contracts below pin this partial-mutation behaviour down
//! exactly, through [`assign_result`].

use vstd::prelude::*;

use crate::ops::{BinOp, checked_elem, elem_ok, elem_val, field_ok, field_val, rec_ok};
use crate::record::{FieldValue, Record, ValView, val_wf, vals_wf};
use crate::schema::{
    FieldSpecView, FieldType, IntType, SchemaView, nonreserved_len, schema_wf, ty_max,
};

verus! {

/// Whether the in-place walk passes field `f` without aborting: reserved
/// fields are skipped and always pass.
pub open spec fn field_pair_ok(op: BinOp, f: FieldSpecView, a: ValView, b: ValView) -> bool {
    f.is_reserved || field_ok(op, f.kind, a, b)
}

/// The first element index of an array pair on which the checked step
/// fails, or the length when none does.
pub open spec fn first_bad_elem(op: BinOp, t: IntType, xs: Seq<u128>, ys: Seq<u128>) -> int
    decreases xs.len(),
{
    if xs.len() == 0 {
        0
    } else if !elem_ok(op, t, xs[0], ys[0]) {
        0
    } else {
        1 + first_bad_elem(op, t, xs.drop_first(), ys.drop_first())
    }
}

/// The first field index on which the in-place walk aborts, or the field
/// count when it completes.
pub open spec fn first_bad_field(
    op: BinOp,
    fs: Seq<FieldSpecView>,
    a: Seq<ValView>,
    b: Seq<ValView>,
) -> int
    decreases fs.len(),
{
    if fs.len() == 0 {
        0
    } else if !field_pair_ok(op, fs[0], a[0], b[0]) {
        0
    } else {
        1 + first_bad_field(op, fs.drop_first(), a.drop_first(), b.drop_first())
    }
}

/// `first_bad_elem` points at the first failing element pair: every
/// earlier pair succeeds, and the pair there — when in bounds — fails.
pub proof fn lemma_first_bad_elem(op: BinOp, t: IntType, xs: Seq<u128>, ys: Seq<u128>)
    requires
        xs.len() == ys.len(),
    ensures
        ({
            let f = first_bad_elem(op, t, xs, ys);
            &&& 0 <= f <= xs.len()
            &&& forall|j: int| #![trigger xs[j]] 0 <= j < f ==> elem_ok(op, t, xs[j], ys[j])
            &&& f < xs.len() ==> !elem_ok(op, t, xs[f], ys[f])
        }),
    decreases xs.len(),
{
    if xs.len() == 0 {
    } else if !elem_ok(op, t, xs[0], ys[0]) {
    } else {
        lemma_first_bad_elem(op, t, xs.drop_first(), ys.drop_first());
        let f = first_bad_elem(op, t, xs, ys);
        let fd = first_bad_elem(op, t, xs.drop_first(), ys.drop_first());
        assert(f == 1 + fd);
        assert forall|j: int| #![trigger xs[j]] 0 <= j < f implies elem_ok(op, t, xs[j], ys[j]) by {
            if j > 0 {
                assert(xs.drop_first()[j - 1] == xs[j]);
                assert(ys.drop_first()[j - 1] == ys[j]);
            }
        }
        if f < xs.len() {
            assert(xs.drop_first()[fd] == xs[f]);
            assert(ys.drop_first()[fd] == ys[f]);
        }
    }
}

/// Conversely: an index with succeeding pairs everywhere before it, and a
/// failing pair at it unless it is the length, is the first failing index.
pub proof fn lemma_first_bad_elem_is(op: BinOp, t: IntType, xs: Seq<u128>, ys: Seq<u128>, k: int)
    requires
        xs.len() == ys.len(),
        0 <= k <= xs.len(),
        forall|j: int| #![trigger xs[j]] 0 <= j < k ==> elem_ok(op, t, xs[j], ys[j]),
        k < xs.len() ==> !elem_ok(op, t, xs[k], ys[k]),
    ensures
        first_bad_elem(op, t, xs, ys) == k,
{
    lemma_first_bad_elem(op, t, xs, ys);
    let f = first_bad_elem(op, t, xs, ys);
    if f < k {
        assert(elem_ok(op, t, xs[f], ys[f]));
        assert(false);
    } else if k < f {
        assert(elem_ok(op, t, xs[k], ys[k]));
        assert(false);
    }
}

/// `first_bad_field` points at the first field on which the walk aborts:
/// every earlier field passes, and the field there — when in bounds —
/// does not.
pub proof fn lemma_first_bad_field(
    op: BinOp,
    fs: Seq<FieldSpecView>,
    a: Seq<ValView>,
    b: Seq<ValView>,
)
    requires
        a.len() == fs.len(),
        b.len() == fs.len(),
    ensures
        ({
            let f = first_bad_field(op, fs, a, b);
            &&& 0 <= f <= fs.len()
            &&& forall|j: int| #![trigger fs[j]] 0 <= j < f ==> field_pair_ok(op, fs[j], a[j], b[j])
            &&& f < fs.len() ==> !field_pair_ok(op, fs[f], a[f], b[f])
        }),
    decreases fs.len(),
{
    if fs.len() == 0 {
    } else if !field_pair_ok(op, fs[0], a[0], b[0]) {
    } else {
        lemma_first_bad_field(op, fs.drop_first(), a.drop_first(), b.drop_first());
        let f = first_bad_field(op, fs, a, b);
        let fd = first_bad_field(op, fs.drop_first(), a.drop_first(), b.drop_first());
        assert(f == 1 + fd);
        assert forall|j: int| #![trigger fs[j]] 0 <= j < f implies field_pair_ok(
            op,
            fs[j],
            a[j],
            b[j],
        ) by {
            if j > 0 {
                assert(fs.drop_first()[j - 1] == fs[j]);
                assert(a.drop_first()[j - 1] == a[j]);
                assert(b.drop_first()[j - 1] == b[j]);
            }
        }
        if f < fs.len() {
            assert(fs.drop_first()[fd] == fs[f]);
            assert(a.drop_first()[fd] == a[f]);
            assert(b.drop_first()[fd] == b[f]);
        }
    }
}

/// Conversely: a field index with passing fields everywhere before it,
/// and a failing field at it unless it is the count, is the first.
pub proof fn lemma_first_bad_field_is(
    op: BinOp,
    fs: Seq<FieldSpecView>,
    a: Seq<ValView>,
    b: Seq<ValView>,
    k: int,
)
    requires
        a.len() == fs.len(),
        b.len() == fs.len(),
        0 <= k <= fs.len(),
        forall|j: int| #![trigger fs[j]] 0 <= j < k ==> field_pair_ok(op, fs[j], a[j], b[j]),
        k < fs.len() ==> !field_pair_ok(op, fs[k], a[k], b[k]),
    ensures
        first_bad_field(op, fs, a, b) == k,
{
    lemma_first_bad_field(op, fs, a, b);
    let f = first_bad_field(op, fs, a, b);
    if f < k {
        assert(field_pair_ok(op, fs[f], a[f], b[f]));
        assert(false);
    } else if k < f {
        assert(field_pair_ok(op, fs[k], a[k], b[k]));
        assert(false);
    }
}

/// The array contents after an aborted elementwise in-place step:
/// elements before the first failing index stepped, the rest unchanged.
pub open spec fn assign_elems(op: BinOp, t: IntType, xs: Seq<u128>, ys: Seq<u128>) -> Seq<u128> {
    Seq::new(
        xs.len(),
        |j: int|
            if j < first_bad_elem(op, t, xs, ys) {
                elem_val(op, t, xs[j], ys[j])
            } else {
                xs[j]
            },
    )
}

/// One field's value after the in-place walk visited it: stepped fully
/// when every element step succeeds; otherwise an array keeps its stepped
/// prefix and a scalar stays unchanged.
pub open spec fn assign_field_val(op: BinOp, k: FieldType, a: ValView, b: ValView) -> ValView {
    if field_ok(op, k, a, b) {
        field_val(op, k, a, b)
    } else {
        match k {
            FieldType::Scalar(_) => a,
            FieldType::Array(t, _) => ValView::Array(assign_elems(op, t, a->Array_0, b->Array_0)),
        }
    }
}

/// All field values of `self` after an in-place operation: fields before
/// the first failing one fully stepped, that field partially stepped,
/// every later field — and the reserved padding — untouched.
pub open spec fn assign_result(op: BinOp, s: SchemaView, a: Seq<ValView>, b: Seq<ValView>) -> Seq<
    ValView,
> {
    let bad = first_bad_field(op, s.fields, a, b);
    Seq::new(
        a.len(),
        |i: int|
            if s.fields[i].is_reserved || i > bad {
                a[i]
            } else {
                assign_field_val(op, s.fields[i].kind, a[i], b[i])
            },
    )
}

/// One in-place field step: the stepped (or partially stepped) value,
/// and whether the step completed.
fn assign_field_step(op: BinOp, k: FieldType, a: &FieldValue, b: &FieldValue) -> (r: (
    FieldValue,
    bool,
))
    requires
        val_wf(a@, k),
        val_wf(b@, k),
    ensures
        r.1 == field_ok(op, k, a@, b@),
        r.0@ == assign_field_val(op, k, a@, b@),
        val_wf(r.0@, k),
{
    match k {
        FieldType::Scalar(t) => match (a, b) {
            (FieldValue::Scalar(x), FieldValue::Scalar(y)) => match checked_elem(op, t, *x, *y) {
                Some(v) => (FieldValue::Scalar(v), true),
                None => (FieldValue::Scalar(*x), false),
            },
            _ => {
                proof {
                    assert(false);
                }
                (FieldValue::Scalar(0), false)
            },
        },
        FieldType::Array(t, n) => match (a, b) {
            (FieldValue::Array(xs), FieldValue::Array(ys)) => {
                let mut out: Vec<u128> = Vec::new();
                let mut j: usize = 0;
                while j < n
                    invariant
                        k == FieldType::Array(t, n),
                        a@ == ValView::Array(xs@),
                        b@ == ValView::Array(ys@),
                        val_wf(a@, k),
                        val_wf(b@, k),
                        xs@.len() == n,
                        ys@.len() == n,
                        j <= n,
                        out@.len() == j,
                        forall|q: int|
                            #![trigger xs@[q]]
                            0 <= q < j ==> elem_ok(op, t, xs@[q], ys@[q]),
                        forall|q: int|
                            #![trigger out@[q]]
                            0 <= q < j ==> out@[q] == elem_val(op, t, xs@[q], ys@[q]) && out@[q]
                                <= ty_max(t),
                    decreases n - j,
                {
                    match checked_elem(op, t, xs[j], ys[j]) {
                        Some(v) => {
                            let ghost out0 = out@;
                            proof {
                                assert(elem_ok(op, t, xs@[j as int], ys@[j as int]));
                                assert(v == elem_val(op, t, xs@[j as int], ys@[j as int]));
                            }
                            out.push(v);
                            proof {
                                assert forall|q: int| 0 <= q < out@.len() implies #[trigger] out@[q]
                                    == (if q < j { out0[q] } else { v }) by {
                                    assert(out@ == out0.push(v));
                                }
                            }
                        },
                        None => {
                            let ghost bad = j as int;
                            proof {
                                lemma_first_bad_elem_is(op, t, xs@, ys@, bad);
                            }
                            let mut j2: usize = j;
                            while j2 < n
                                invariant
                                    j <= j2 <= n,
                                    xs@.len() == n,
                                    ys@.len() == n,
                                    bad == j,
                                    first_bad_elem(op, t, xs@, ys@) == bad,
                                    out@.len() == j2,
                                    forall|q: int|
                                        #![trigger out@[q]]
                                        0 <= q < j ==> out@[q] == elem_val(op, t, xs@[q], ys@[q]),
                                    forall|q: int|
                                        #![trigger out@[q]]
                                        j <= q < j2 ==> out@[q] == xs@[q],
                                decreases n - j2,
                            {
                                let ghost out0 = out@;
                                let w: u128 = xs[j2];
                                out.push(w);
                                proof {
                                    assert forall|q: int| 0 <= q < out@.len() implies #[trigger] out@[q]
                                        == (if q < j2 { out0[q] } else { w }) by {
                                        assert(out@ == out0.push(w));
                                    }
                                }
                                j2 += 1;
                            }
                            let res = FieldValue::Array(out);
                            proof {
                                assert(!elem_ok(op, t, a@->Array_0[bad], b@->Array_0[bad]));
                                assert(!field_ok(op, k, a@, b@));
                                assert(res@->Array_0 =~= assign_elems(op, t, xs@, ys@));
                                assert(res@ == assign_field_val(op, k, a@, b@));
                            }
                            return (res, false);
                        },
                    }
                    j += 1;
                }
                let res = FieldValue::Array(out);
                proof {
                    assert forall|q: int| 0 <= q < n implies elem_ok(
                        op,
                        t,
                        a@->Array_0[q],
                        b@->Array_0[q],
                    ) by {
                        assert(elem_ok(op, t, xs@[q], ys@[q]));
                    }
                    assert(field_ok(op, k, a@, b@));
                    assert(res@->Array_0 =~= field_val(op, k, a@, b@)->Array_0);
                    assert(res@ == assign_field_val(op, k, a@, b@));
                }
                (res, true)
            },
            _ => {
                proof {
                    assert(false);
                }
                (FieldValue::Scalar(0), false)
            },
        },
    }
}

/// The shared in-place walk of `add_assign` and `sub_assign`.
fn assign_records(op: BinOp, x: &mut Record, y: &Record) -> (r: Option<()>)
    requires
        old(x).wf(),
        y.wf(),
        old(x)@.schema == y@.schema,
    ensures
        final(x)@.schema == old(x)@.schema,
        final(x).wf(),
        r is Some <==> rec_ok(op, old(x)@.schema, old(x)@.vals, y@.vals),
        final(x)@.vals == assign_result(op, old(x)@.schema, old(x)@.vals, y@.vals),
{
    let ghost s = x@.schema;
    let ghost a0 = x@.vals;
    let ghost b = y@.vals;
    let n: usize = x.schema.fields.len();
    let nr: usize = if x.schema.fields[n - 1].is_reserved {
        n - 1
    } else {
        n
    };
    let mut i: usize = 0;
    while i < nr
        invariant
            s == old(x)@.schema,
            a0 == old(x)@.vals,
            x@.schema == s,
            schema_wf(s),
            y.wf(),
            y@.schema == s,
            y@.vals == b,
            n == s.fields.len(),
            nr == nonreserved_len(s),
            nr <= n,
            i <= nr,
            a0.len() == n,
            b.len() == n,
            vals_wf(s, a0),
            vals_wf(s, x@.vals),
            forall|q: int|
                #![trigger s.fields[q]]
                0 <= q < i ==> field_pair_ok(op, s.fields[q], a0[q], b[q]),
            forall|q: int|
                #![trigger x@.vals[q]]
                0 <= q < i ==> x@.vals[q] == field_val(op, s.fields[q].kind, a0[q], b[q]),
            forall|q: int| #![trigger x@.vals[q]] i <= q < n ==> x@.vals[q] == a0[q],
        decreases nr - i,
    {
        proof {
            let ii = i as int;
            assert(!s.fields[ii].is_reserved);
            assert(x@.vals.len() == n);
            assert(val_wf(x@.vals[ii], s.fields[ii].kind));
            assert(val_wf(b[ii], s.fields[ii].kind));
            assert(x@.vals[ii] == x.vals@[ii]@);
            assert(b[ii] == y.vals@[ii]@);
            assert(x@.vals[ii] == a0[ii]);
            assert(s.fields[ii].kind == x.schema.fields@[ii].kind);
        }
        let step: (FieldValue, bool) = assign_field_step(
            op,
            x.schema.fields[i].kind,
            &x.vals[i],
            &y.vals[i],
        );
        let ok: bool = step.1;
        let ghost before = x@.vals;
        let ghost nv = step.0@;
        x.vals[i] = step.0;
        proof {
            assert forall|q: int| 0 <= q < n implies #[trigger] x@.vals[q] == (if q == i {
                nv
            } else {
                before[q]
            }) by {
                assert(x.vals@[q]@ == x@.vals[q]);
            }
        }
        if !ok {
            proof {
                let ii = i as int;
                assert(!field_pair_ok(op, s.fields[ii], a0[ii], b[ii]));
                lemma_first_bad_field_is(op, s.fields, a0, b, ii);
                let rr = assign_result(op, s, a0, b);
                assert forall|q: int| 0 <= q < n implies x@.vals[q] == rr[q] by {
                    if q < ii {
                        assert(x@.vals[q] == field_val(op, s.fields[q].kind, a0[q], b[q]));
                        assert(field_pair_ok(op, s.fields[q], a0[q], b[q]));
                    } else if q == ii {
                        assert(x@.vals[q] == nv);
                    } else {
                        assert(x@.vals[q] == a0[q]);
                    }
                }
                assert(x@.vals =~= rr);
                assert(!rec_ok(op, s, a0, b)) by {
                    assert(!s.fields[ii].is_reserved && !field_ok(op, s.fields[ii].kind, a0[ii], b[ii]));
                }
                assert(vals_wf(s, x@.vals)) by {
                    assert forall|q: int| 0 <= q < n implies val_wf(
                        #[trigger] x@.vals[q],
                        s.fields[q].kind,
                    ) by {
                        if q != ii {
                            assert(val_wf(before[q], s.fields[q].kind));
                        }
                    }
                }
            }
            return None;
        }
        i += 1;
        proof {
            let ii = (i - 1) as int;
            assert(field_ok(op, s.fields[ii].kind, a0[ii], b[ii]));
            assert(x@.vals[ii] == field_val(op, s.fields[ii].kind, a0[ii], b[ii]));
            assert(vals_wf(s, x@.vals)) by {
                assert forall|q: int| 0 <= q < n implies val_wf(
                    #[trigger] x@.vals[q],
                    s.fields[q].kind,
                ) by {
                    if q != ii {
                        assert(val_wf(before[q], s.fields[q].kind));
                    }
                }
            }
        }
    }
    proof {
        assert forall|q: int| 0 <= q < n implies field_pair_ok(
            op,
            #[trigger] s.fields[q],
            a0[q],
            b[q],
        ) by {
            if q >= nr {
                assert(s.fields[q].is_reserved);
            }
        }
        lemma_first_bad_field_is(op, s.fields, a0, b, n as int);
        let rr = assign_result(op, s, a0, b);
        assert forall|q: int| 0 <= q < n implies x@.vals[q] == rr[q] by {
            if q < nr {
                assert(x@.vals[q] == field_val(op, s.fields[q].kind, a0[q], b[q]));
                assert(field_pair_ok(op, s.fields[q], a0[q], b[q]));
                assert(!s.fields[q].is_reserved);
            } else {
                assert(x@.vals[q] == a0[q]);
                assert(s.fields[q].is_reserved);
            }
        }
        assert(x@.vals =~= rr);
        assert(rec_ok(op, s, a0, b)) by {
            assert forall|q: int|
                0 <= q < s.fields.len() && !(#[trigger] s.fields[q]).is_reserved implies field_ok(
                op,
                s.fields[q].kind,
                a0[q],
                b[q],
            ) by {
                assert(q < nr);
                assert(field_pair_ok(op, s.fields[q], a0[q], b[q]));
            }
        }
    }
    Some(())
}

impl Record {
    /// In-place elementwise checked addition. Succeeds — and leaves every
    /// non-reserved field summed — iff every non-reserved field/element
    /// pair's sum fits its declared type. On failure the fields, and
    /// array elements, stepped before the first overflowing one remain
    /// mutated: this operation is deliberately not atomic. The reserved
    /// padding of `self` is never touched.
    pub fn add_assign(&mut self, other: &Record) -> (r: Option<()>)
        requires
            old(self).wf(),
            other.wf(),
            old(self)@.schema == other@.schema,
        ensures
            final(self)@.schema == old(self)@.schema,
            final(self).wf(),
            r is Some <==> rec_ok(BinOp::Add, old(self)@.schema, old(self)@.vals, other@.vals),
            final(self)@.vals == assign_result(
                BinOp::Add,
                old(self)@.schema,
                old(self)@.vals,
                other@.vals,
            ),
    {
        assign_records(BinOp::Add, self, other)
    }

    /// In-place elementwise checked subtraction, with the same
    /// deliberately non-atomic failure behaviour as [`Record::add_assign`]:
    /// fields stepped before the first underflowing one remain mutated.
    pub fn sub_assign(&mut self, other: &Record) -> (r: Option<()>)
        requires
            old(self).wf(),
            other.wf(),
            old(self)@.schema == other@.schema,
        ensures
            final(self)@.schema == old(self)@.schema,
            final(self).wf(),
            r is Some <==> rec_ok(BinOp::Sub, old(self)@.schema, old(self)@.vals, other@.vals),
            final(self)@.vals == assign_result(
                BinOp::Sub,
                old(self)@.schema,
                old(self)@.vals,
                other@.vals,
            ),
    {
        assign_records(BinOp::Sub, self, other)
    }
}

} // verus!
