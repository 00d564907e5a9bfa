//! The schema: the validated, ordered field classification of a record type.
//!
//! A raw field list — one `(name, declared type)` pair per field — is turned
//! by [`extract`] into a [`Schema`]: every field classified as a scalar or a
//! fixed-length array, a trailing `_reserved` padding field recognised, and
//! the first field's scalar type recorded as the primary type (the type of
//! every externally supplied scaling factor).

use vstd::prelude::*;

verus! {

/// A fixed-width unsigned integer type, as declared on a field.
#[derive(Clone, Copy, PartialEq, Eq, Structural, Debug)]
pub enum IntType {
    U8,
    U16,
    U32,
    U64,
    U128,
}

/// The declared shape of one field: a single integer, or a fixed-length
/// array of `usize` many integers.
#[derive(Clone, Copy, PartialEq, Eq, Structural, Debug)]
pub enum FieldType {
    Scalar(IntType),
    Array(IntType, usize),
}

/// The errors that reject a raw field list.
#[derive(Clone, Copy, PartialEq, Eq, Structural, Debug)]
pub enum SchemaError {
    /// The field list is empty.
    EmptyRecord,
    /// A field named `_reserved` stands anywhere but last.
    MisplacedReserved,
    /// The last field is named `_reserved` but is not an array.
    ReservedNotArray,
    /// The first field's declared type is an array, so no scalar primary
    /// type can be recorded.
    PrimaryTypeNotScalar,
}

/// The largest value an integer of type `t` can hold.
pub open spec fn ty_max(t: IntType) -> u128 {
    match t {
        IntType::U8 => 0xff,
        IntType::U16 => 0xffff,
        IntType::U32 => 0xffff_ffff,
        IntType::U64 => 0xffff_ffff_ffff_ffff,
        IntType::U128 => 0xffff_ffff_ffff_ffff_ffff_ffff_ffff_ffff,
    }
}

/// Executable counterpart of [`ty_max`].
pub fn ty_max_value(t: IntType) -> (r: u128)
    ensures
        r == ty_max(t),
{
    match t {
        IntType::U8 => 0xff,
        IntType::U16 => 0xffff,
        IntType::U32 => 0xffff_ffff,
        IntType::U64 => 0xffff_ffff_ffff_ffff,
        IntType::U128 => 0xffff_ffff_ffff_ffff_ffff_ffff_ffff_ffff,
    }
}

/// The integer type of a field's scalar value, or of its array elements.
pub open spec fn elem_ty(k: FieldType) -> IntType {
    match k {
        FieldType::Scalar(t) => t,
        FieldType::Array(t, _) => t,
    }
}

/// The name that marks the trailing padding field.
pub open spec fn reserved_name() -> Seq<char> {
    "_reserved"@
}

/// One field of the raw, not yet validated field list.
#[derive(Debug)]
pub struct RawField {
    pub name: String,
    pub ty: FieldType,
}

/// Mathematical value of a [`RawField`].
pub struct RawFieldView {
    pub name: Seq<char>,
    pub ty: FieldType,
}

impl View for RawField {
    type V = RawFieldView;

    open spec fn view(&self) -> RawFieldView {
        RawFieldView { name: self.name@, ty: self.ty }
    }
}

/// One validated field of a schema.
#[derive(Debug)]
pub struct FieldSpec {
    /// Identifier of the field, unique within the record.
    pub name: String,
    /// Classified shape of the field.
    pub kind: FieldType,
    /// True exactly for a field named `_reserved`: trailing padding that
    /// carries no arithmetic meaning.
    pub is_reserved: bool,
}

/// Mathematical value of a [`FieldSpec`].
pub struct FieldSpecView {
    pub name: Seq<char>,
    pub kind: FieldType,
    pub is_reserved: bool,
}

impl View for FieldSpec {
    type V = FieldSpecView;

    open spec fn view(&self) -> FieldSpecView {
        FieldSpecView { name: self.name@, kind: self.kind, is_reserved: self.is_reserved }
    }
}

impl Clone for FieldSpec {
    fn clone(&self) -> (res: Self)
        ensures
            res == *self,
    {
        FieldSpec { name: self.name.clone(), kind: self.kind, is_reserved: self.is_reserved }
    }
}

/// The validated description of one record type.
#[derive(Debug)]
pub struct Schema {
    /// The scalar type of the first field; scaling factors have this type.
    pub primary: IntType,
    /// All fields in declared order, the reserved field (if any) last.
    pub fields: Vec<FieldSpec>,
}

/// Mathematical value of a [`Schema`].
pub struct SchemaView {
    pub primary: IntType,
    pub fields: Seq<FieldSpecView>,
}

impl View for Schema {
    type V = SchemaView;

    open spec fn view(&self) -> SchemaView {
        SchemaView {
            primary: self.primary,
            fields: Seq::new(self.fields@.len(), |i: int| self.fields@[i]@),
        }
    }
}

impl Clone for Schema {
    fn clone(&self) -> (res: Self)
        ensures
            res@ == self@,
    {
        let res = Schema { primary: self.primary, fields: self.fields.clone() };
        proof {
            assert forall|i: int| 0 <= i < self.fields@.len() implies res.fields@[i]
                == self.fields@[i] by {
            }
            assert(res@.fields =~= self@.fields);
        }
        res
    }
}

/// A schema is well formed when it has at least one field, the `_reserved`
/// name and the reserved mark coincide, only the last field may be reserved,
/// a reserved field is an array, and the first field is a plain scalar of
/// the primary type.
pub open spec fn schema_wf(s: SchemaView) -> bool {
    &&& s.fields.len() > 0
    &&& forall|i: int|
        #![trigger s.fields[i]]
        0 <= i < s.fields.len() ==> (s.fields[i].is_reserved <==> s.fields[i].name
            == reserved_name())
    &&& forall|i: int| #![trigger s.fields[i]] 0 <= i < s.fields.len() - 1 ==> !s.fields[i].is_reserved
    &&& forall|i: int|
        #![trigger s.fields[i]]
        0 <= i < s.fields.len() ==> (s.fields[i].is_reserved ==> s.fields[i].kind is Array)
    &&& s.fields[0].kind == FieldType::Scalar(s.primary)
    &&& !s.fields[0].is_reserved
}

/// Whether the schema ends in a reserved padding field.
pub open spec fn has_reserved(s: SchemaView) -> bool {
    s.fields.len() > 0 && s.fields.last().is_reserved
}

/// How many leading fields carry arithmetic meaning.
pub open spec fn nonreserved_len(s: SchemaView) -> int {
    if has_reserved(s) {
        s.fields.len() - 1
    } else {
        s.fields.len() as int
    }
}

/// The primary type converts losslessly into every non-reserved field's
/// element type, so the scalar multiply/divide operations can be generated.
pub open spec fn factor_convertible(s: SchemaView) -> bool {
    forall|i: int|
        #![trigger s.fields[i]]
        0 <= i < s.fields.len() && !s.fields[i].is_reserved ==> ty_max(s.primary) <= ty_max(
            elem_ty(s.fields[i].kind),
        )
}

/// Views of a raw field list, in order.
pub open spec fn raw_views(v: Seq<RawField>) -> Seq<RawFieldView> {
    Seq::new(v.len(), |i: int| v[i]@)
}

/// Some field other than the last is named `_reserved`.
pub open spec fn has_misplaced_reserved(rv: Seq<RawFieldView>) -> bool {
    exists|i: int| #![trigger rv[i]] 0 <= i < rv.len() - 1 && rv[i].name == reserved_name()
}

/// The last field is named `_reserved` but declared as a scalar.
pub open spec fn last_reserved_not_array(rv: Seq<RawFieldView>) -> bool {
    rv.len() > 0 && rv.last().name == reserved_name() && rv.last().ty is Scalar
}

/// The first field's declared type is an array.
pub open spec fn primary_not_scalar(rv: Seq<RawFieldView>) -> bool {
    rv.len() > 0 && rv[0].ty is Array
}

/// The error, if any, on which validation of a raw field list fails, in
/// order of precedence.
pub open spec fn extract_err(rv: Seq<RawFieldView>) -> Option<SchemaError> {
    if rv.len() == 0 {
        Some(SchemaError::EmptyRecord)
    } else if has_misplaced_reserved(rv) {
        Some(SchemaError::MisplacedReserved)
    } else if last_reserved_not_array(rv) {
        Some(SchemaError::ReservedNotArray)
    } else if primary_not_scalar(rv) {
        Some(SchemaError::PrimaryTypeNotScalar)
    } else {
        None
    }
}

/// Whether `name` is the reserved padding field's name, `_reserved`.
fn is_reserved_name(name: &String) -> (r: bool)
    ensures
        r == (name@ == reserved_name()),
{
    let rsv: String = String::from_str("_reserved");
    *name == rsv
}

/// Validate a raw field list into a [`Schema`].
///
/// Fails with [`SchemaError::EmptyRecord`] on an empty list, with
/// [`SchemaError::MisplacedReserved`] when a field named `_reserved` stands
/// anywhere but last, with [`SchemaError::ReservedNotArray`] when the last
/// field is named `_reserved` but is no array, and with
/// [`SchemaError::PrimaryTypeNotScalar`] when the first field is an array —
/// in that order of precedence, and on nothing else. On success the schema
/// keeps every field under its name and declared shape, in order, with
/// exactly the `_reserved`-named fields marked reserved.
pub fn extract(raw: Vec<RawField>) -> (r: Result<Schema, SchemaError>)
    ensures
        ({
            let rv = raw_views(raw@);
            match r {
                Result::Ok(s) => {
                    &&& extract_err(rv) is None
                    &&& schema_wf(s@)
                    &&& s@.fields.len() == rv.len()
                    &&& forall|i: int|
                        #![trigger s@.fields[i]]
                        0 <= i < rv.len() ==> {
                            &&& s@.fields[i].name == rv[i].name
                            &&& s@.fields[i].kind == rv[i].ty
                            &&& s@.fields[i].is_reserved == (rv[i].name == reserved_name())
                        }
                    &&& s@.primary == elem_ty(rv[0].ty)
                },
                Result::Err(e) => extract_err(rv) == Some(e),
            }
        }),
{
    let ghost rv = raw_views(raw@);
    let n: usize = raw.len();
    if n == 0 {
        return Err(SchemaError::EmptyRecord);
    }
    let mut i: usize = 0;
    while i < n - 1
        invariant
            n == rv.len(),
            n >= 1,
            rv == raw_views(raw@),
            i <= n - 1,
            forall|j: int| #![trigger rv[j]] 0 <= j < i ==> rv[j].name != reserved_name(),
        decreases n - 1 - i,
    {
        if is_reserved_name(&raw[i].name) {
            assert(rv[i as int].name == reserved_name());
            return Err(SchemaError::MisplacedReserved);
        }
        i += 1;
    }
    assert(!has_misplaced_reserved(rv));
    let last_is_reserved: bool = is_reserved_name(&raw[n - 1].name);
    if last_is_reserved {
        match raw[n - 1].ty {
            FieldType::Scalar(_) => {
                assert(last_reserved_not_array(rv));
                return Err(SchemaError::ReservedNotArray);
            },
            FieldType::Array(_, _) => {},
        }
    }
    assert(!last_reserved_not_array(rv));
    let primary: IntType = match raw[0].ty {
        FieldType::Array(_, _) => {
            assert(primary_not_scalar(rv));
            return Err(SchemaError::PrimaryTypeNotScalar);
        },
        FieldType::Scalar(t) => t,
    };
    assert(!primary_not_scalar(rv));
    let mut fields: Vec<FieldSpec> = Vec::new();
    let mut j: usize = 0;
    while j < n
        invariant
            n == rv.len(),
            n == raw@.len(),
            rv == raw_views(raw@),
            j <= n,
            fields@.len() == j,
            forall|k: int|
                #![trigger fields@[k]]
                0 <= k < j ==> {
                    &&& fields@[k]@.name == rv[k].name
                    &&& fields@[k]@.kind == rv[k].ty
                    &&& fields@[k]@.is_reserved == (rv[k].name == reserved_name())
                },
        decreases n - j,
    {
        let rsv: bool = is_reserved_name(&raw[j].name);
        fields.push(FieldSpec { name: raw[j].name.clone(), kind: raw[j].ty, is_reserved: rsv });
        j += 1;
    }
    let s = Schema { primary, fields };
    proof {
        assert forall|i2: int| 0 <= i2 < rv.len() implies {
            &&& s@.fields[i2].name == rv[i2].name
            &&& s@.fields[i2].kind == rv[i2].ty
            &&& s@.fields[i2].is_reserved == (rv[i2].name == reserved_name())
        } by {
            assert(s@.fields[i2] == fields@[i2]@);
        }
        assert(schema_wf(s@));
    }
    Ok(s)
}

/// Executable counterpart of [`factor_convertible`]: the generation-time
/// check that the scalar multiply/divide operations are available for this
/// schema.
pub fn scalar_ops_supported(schema: &Schema) -> (r: bool)
    ensures
        r == factor_convertible(schema@),
{
    let pm: u128 = ty_max_value(schema.primary);
    let n: usize = schema.fields.len();
    let mut i: usize = 0;
    while i < n
        invariant
            n == schema@.fields.len(),
            i <= n,
            pm == ty_max(schema@.primary),
            forall|j: int|
                #![trigger schema@.fields[j]]
                0 <= j < i && !schema@.fields[j].is_reserved ==> ty_max(schema@.primary) <= ty_max(
                    elem_ty(schema@.fields[j].kind),
                ),
        decreases n - i,
    {
        if !schema.fields[i].is_reserved {
            let et: IntType = match schema.fields[i].kind {
                FieldType::Scalar(t) => t,
                FieldType::Array(t, _) => t,
            };
            if ty_max_value(et) < pm {
                proof {
                    let ii = i as int;
                    assert(!schema@.fields[ii].is_reserved);
                    assert(elem_ty(schema@.fields[ii].kind) == et);
                    assert(!factor_convertible(schema@));
                }
                return false;
            }
        }
        i += 1;
    }
    true
}

} // verus!
