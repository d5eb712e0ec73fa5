//! The type system: data types, fields and schemas.
//!
//! Data types are a variant over fixed-width primitives, a variable-width
//! string type, and a struct type holding an ordered sequence of fields.
//! Equality is structural throughout, and every type renders to a
//! canonical textual form such as `int32` or `struct<f0: int32, f0: int32>`.

use vstd::prelude::*;
use vstd::string::StringExecFns;

verus! {

/// The fixed-width primitive kinds.
#[allow(non_camel_case_types)]
#[derive(Clone, Copy, PartialEq, Eq, Structural, Debug)]
pub enum Ty {
    INT8,
    INT16,
    INT32,
    INT64,
    UINT8,
    UINT16,
    UINT32,
    UINT64,
    FLOAT,
    DOUBLE,
    BOOL,
}

/// A data type: a primitive kind, the string type, or a struct over an
/// ordered sequence of fields.
///
/// Struct fields may legally share a name; nothing here rejects that.
#[derive(Debug)]
pub enum DataType {
    Primitive(Ty),
    Utf8,
    Struct(Vec<Field>),
}

/// A named, typed, possibly nullable slot.
#[derive(Debug)]
pub struct Field {
    pub name: String,
    pub data_type: DataType,
    pub nullable: bool,
}

/// An ordered sequence of fields.
#[derive(Debug)]
pub struct Schema {
    pub fields: Vec<Field>,
}

/// The mathematical shape of a data type.
pub enum DataTypeV {
    Primitive { kind: Ty },
    Utf8,
    Struct { fields: Seq<FieldV> },
}

/// The mathematical shape of a field.
pub struct FieldV {
    pub name: Seq<char>,
    pub data_type: DataTypeV,
    pub nullable: bool,
}

pub open spec fn dt_view(dt: DataType) -> DataTypeV
    decreases dt,
{
    match dt {
        DataType::Primitive(k) => DataTypeV::Primitive { kind: k },
        DataType::Utf8 => DataTypeV::Utf8,
        DataType::Struct(fields) => DataTypeV::Struct { fields: fields_view(fields@) },
    }
}

pub open spec fn fields_view(s: Seq<Field>) -> Seq<FieldV>
    decreases s,
{
    if s.len() == 0 {
        Seq::empty()
    } else {
        fields_view(s.drop_last()) + seq![field_view(s.last())]
    }
}

pub open spec fn field_view(f: Field) -> FieldV
    decreases f,
{
    FieldV { name: f.name@, data_type: dt_view(f.data_type), nullable: f.nullable }
}

impl View for DataType {
    type V = DataTypeV;

    open spec fn view(&self) -> DataTypeV {
        dt_view(*self)
    }
}

impl View for Field {
    type V = FieldV;

    open spec fn view(&self) -> FieldV {
        field_view(*self)
    }
}

impl View for Schema {
    type V = Seq<FieldV>;

    open spec fn view(&self) -> Seq<FieldV> {
        fields_view(self.fields@)
    }
}

/// `fields_view` maps the sequence pointwise.
pub proof fn lemma_fields_view(s: Seq<Field>)
    ensures
        fields_view(s).len() == s.len(),
        forall|i: int| 0 <= i < s.len() ==> fields_view(s)[i] == field_view(s[i]),
    decreases s.len(),
{
    if s.len() > 0 {
        lemma_fields_view(s.drop_last());
    }
}

/// The fixed byte width of a primitive kind.
pub open spec fn ty_width(k: Ty) -> nat {
    match k {
        Ty::INT8 => 1,
        Ty::INT16 => 2,
        Ty::INT32 => 4,
        Ty::INT64 => 8,
        Ty::UINT8 => 1,
        Ty::UINT16 => 2,
        Ty::UINT32 => 4,
        Ty::UINT64 => 8,
        Ty::FLOAT => 4,
        Ty::DOUBLE => 8,
        Ty::BOOL => 1,
    }
}

/// The fixed byte width of one value of a data type; 0 for the
/// variable-width and struct types.
pub open spec fn spec_value_size(d: DataTypeV) -> nat {
    match d {
        DataTypeV::Primitive { kind } => ty_width(kind),
        DataTypeV::Utf8 => 0,
        DataTypeV::Struct { .. } => 0,
    }
}

/// The canonical name of a primitive kind.
pub open spec fn ty_name(k: Ty) -> Seq<char> {
    match k {
        Ty::INT8 => "int8"@,
        Ty::INT16 => "int16"@,
        Ty::INT32 => "int32"@,
        Ty::INT64 => "int64"@,
        Ty::UINT8 => "uint8"@,
        Ty::UINT16 => "uint16"@,
        Ty::UINT32 => "uint32"@,
        Ty::UINT64 => "uint64"@,
        Ty::FLOAT => "float"@,
        Ty::DOUBLE => "double"@,
        Ty::BOOL => "bool"@,
    }
}

/// The canonical textual form of a data type.
pub open spec fn dt_string(d: DataTypeV) -> Seq<char>
    decreases d,
{
    match d {
        DataTypeV::Primitive { kind } => ty_name(kind),
        DataTypeV::Utf8 => "string"@,
        DataTypeV::Struct { fields } => "struct<"@ + fields_string(fields) + ">"@,
    }
}

/// The short textual form a field takes inside a struct type: name and
/// type, without the nullability marker.
pub open spec fn field_label_string(f: FieldV) -> Seq<char>
    decreases f,
{
    f.name + ": "@ + dt_string(f.data_type)
}

/// The canonical textual form of a field sequence: the fields' short
/// forms joined by a comma and a space.
pub open spec fn fields_string(s: Seq<FieldV>) -> Seq<char>
    decreases s,
{
    if s.len() == 0 {
        Seq::empty()
    } else if s.len() == 1 {
        field_label_string(s[0])
    } else {
        fields_string(s.drop_last()) + ", "@ + field_label_string(s.last())
    }
}

/// The canonical textual form of a field: name, type, and a trailing
/// ` not null` marker when the field is not nullable.
pub open spec fn field_string(f: FieldV) -> Seq<char>
    decreases f,
{
    f.name + ": "@ + dt_string(f.data_type) + (if f.nullable {
        Seq::<char>::empty()
    } else {
        " not null"@
    })
}

/// Constructs a primitive data type.
pub fn new_primitive_type(k: Ty) -> (dt: DataType)
    ensures
        dt@ == (DataTypeV::Primitive { kind: k }),
{
    DataType::Primitive(k)
}

/// Constructs the string data type.
pub fn new_string_type() -> (dt: DataType)
    ensures
        dt@ == DataTypeV::Utf8,
{
    DataType::Utf8
}

/// Constructs a struct data type over the given fields, in order.
pub fn new_struct_type(fields: Vec<Field>) -> (dt: DataType)
    ensures
        dt@ == (DataTypeV::Struct { fields: fields_view(fields@) }),
{
    DataType::Struct(fields)
}

/// Constructs a field.
pub fn new_field(name: &str, data_type: DataType, nullable: bool) -> (f: Field)
    ensures
        f@ == (FieldV { name: name@, data_type: data_type@, nullable }),
{
    Field { name: String::from_str(name), data_type, nullable }
}

/// Constructs a schema over the given fields, in order.
pub fn new_schema(fields: Vec<Field>) -> (s: Schema)
    ensures
        s@ == fields_view(fields@),
{
    Schema { fields }
}

impl DataType {
    /// The fixed byte width of one value, 0 for variable-width types.
    pub fn value_size(&self) -> (n: usize)
        ensures
            n == spec_value_size(self@),
            n <= 8,
    {
        match self {
            DataType::Primitive(k) => match k {
                Ty::INT8 => 1,
                Ty::INT16 => 2,
                Ty::INT32 => 4,
                Ty::INT64 => 8,
                Ty::UINT8 => 1,
                Ty::UINT16 => 2,
                Ty::UINT32 => 4,
                Ty::UINT64 => 8,
                Ty::FLOAT => 4,
                Ty::DOUBLE => 8,
                Ty::BOOL => 1,
            },
            DataType::Utf8 => 0,
            DataType::Struct(_) => 0,
        }
    }

    /// Structural equality of data types.
    pub fn equals(&self, other: &DataType) -> (r: bool)
        ensures
            r == (self@ == other@),
        decreases *self,
    {
        match (self, other) {
            (DataType::Primitive(a), DataType::Primitive(b)) => *a == *b,
            (DataType::Utf8, DataType::Utf8) => true,
            (DataType::Struct(fa), DataType::Struct(fb)) => fields_equal(fa, fb),
            _ => false,
        }
    }

    /// An owned structural copy.
    pub fn duplicate(&self) -> (r: DataType)
        ensures
            r@ == self@,
        decreases *self,
    {
        match self {
            DataType::Primitive(k) => DataType::Primitive(*k),
            DataType::Utf8 => DataType::Utf8,
            DataType::Struct(fields) => DataType::Struct(duplicate_fields(fields)),
        }
    }

    /// The canonical textual form.
    pub fn to_text(&self) -> (s: String)
        ensures
            s@ == dt_string(self@),
        decreases *self,
    {
        match self {
            DataType::Primitive(k) => match k {
                Ty::INT8 => String::from_str("int8"),
                Ty::INT16 => String::from_str("int16"),
                Ty::INT32 => String::from_str("int32"),
                Ty::INT64 => String::from_str("int64"),
                Ty::UINT8 => String::from_str("uint8"),
                Ty::UINT16 => String::from_str("uint16"),
                Ty::UINT32 => String::from_str("uint32"),
                Ty::UINT64 => String::from_str("uint64"),
                Ty::FLOAT => String::from_str("float"),
                Ty::DOUBLE => String::from_str("double"),
                Ty::BOOL => String::from_str("bool"),
            },
            DataType::Utf8 => String::from_str("string"),
            DataType::Struct(fields) => {
                let mut out = String::from_str("struct<");
                let joined = fields_joined_text(fields);
                out.append(joined.as_str());
                out.append(">");
                proof {
                    assert(out@ =~= dt_string(self@));
                }
                out
            },
        }
    }
}

/// Copies a field sequence structurally.
fn duplicate_fields(fields: &Vec<Field>) -> (out: Vec<Field>)
    ensures
        fields_view(out@) == fields_view(fields@),
    decreases *fields,
{
    let mut out: Vec<Field> = Vec::new();
    let mut i: usize = 0;
    proof {
        lemma_fields_view(fields@);
        assert(fields_view(out@) =~= fields_view(fields@).take(0));
    }
    while i < fields.len()
        invariant
            i <= fields@.len(),
            fields_view(out@) == fields_view(fields@).take(i as int),
            out@.len() == i,
            fields_view(fields@).len() == fields@.len(),
            forall|j: int|
                0 <= j < fields@.len() ==> fields_view(fields@)[j] == field_view(fields@[j]),
        decreases fields@.len() - i,
    {
        let f = &fields[i];
        let ghost out0 = out@;
        let copy = Field {
            name: f.name.clone(),
            data_type: f.data_type.duplicate(),
            nullable: f.nullable,
        };
        out.push(copy);
        proof {
            assert(out@.drop_last() =~= out0);
            assert(fields_view(out@) == fields_view(out0) + seq![field_view(out@.last())]);
            assert(field_view(out@.last()) == field_view(fields@[i as int]));
            lemma_fields_view(out0);
            assert(fields_view(out@) =~= fields_view(fields@).take(i + 1));
        }
        i = i + 1;
    }
    proof {
        assert(fields_view(fields@).take(fields@.len() as int) =~= fields_view(fields@));
    }
    out
}

/// Renders a field sequence joined by a comma and a space.
fn fields_joined_text(fields: &Vec<Field>) -> (s: String)
    ensures
        s@ == fields_string(fields_view(fields@)),
    decreases *fields,
{
    let ghost fv = fields_view(fields@);
    let mut out = String::new();
    proof {
        lemma_fields_view(fields@);
        assert(fv.take(0) =~= Seq::<FieldV>::empty());
        assert(out@ =~= Seq::<char>::empty() + fields_string(fv.take(0)));
    }
    let mut i: usize = 0;
    while i < fields.len()
        invariant
            i <= fields@.len(),
            fv == fields_view(fields@),
            fv.len() == fields@.len(),
            out@ == fields_string(fv.take(i as int)),
            forall|j: int| 0 <= j < fields@.len() ==> fv[j] == field_view(fields@[j]),
        decreases fields@.len() - i,
    {
        let ghost out0 = out@;
        if i > 0 {
            out.append(", ");
        }
        let f = &fields[i];
        out.append(f.name.as_str());
        out.append(": ");
        let t = f.data_type.to_text();
        out.append(t.as_str());
        proof {
            assert(fv.take(i + 1).drop_last() =~= fv.take(i as int));
            assert(fv.take(i + 1).last() == fv[i as int]);
            assert(f.name@ == fv[i as int].name);
            assert(t@ == dt_string(fv[i as int].data_type));
            assert(field_label_string(fv[i as int]) =~= f.name@ + ": "@ + t@);
            if i == 0 {
                assert(fields_string(fv.take(1)) == field_label_string(fv[0]));
                assert(out@ =~= out0 + field_label_string(fv[i as int]));
            } else {
                assert(out@ =~= out0 + ", "@ + field_label_string(fv[i as int]));
            }
            assert(out@ =~= fields_string(fv.take(i + 1)));
        }
        i = i + 1;
    }
    proof {
        assert(fv.take(fields@.len() as int) =~= fv);
    }
    out
}

/// Structural equality of two field sequences.
fn fields_equal(a: &Vec<Field>, b: &Vec<Field>) -> (r: bool)
    ensures
        r == (fields_view(a@) == fields_view(b@)),
    decreases *a,
{
    proof {
        lemma_fields_view(a@);
        lemma_fields_view(b@);
    }
    if a.len() != b.len() {
        proof {
            assert(fields_view(a@).len() != fields_view(b@).len());
        }
        return false;
    }
    let mut i: usize = 0;
    while i < a.len()
        invariant
            i <= a@.len(),
            a@.len() == b@.len(),
            fields_view(a@).len() == a@.len(),
            fields_view(b@).len() == b@.len(),
            forall|j: int| 0 <= j < a@.len() ==> fields_view(a@)[j] == field_view(a@[j]),
            forall|j: int| 0 <= j < b@.len() ==> fields_view(b@)[j] == field_view(b@[j]),
            forall|j: int| 0 <= j < i ==> field_view(a@[j]) == field_view(b@[j]),
        decreases a@.len() - i,
    {
        if !a[i].equals(&b[i]) {
            proof {
                assert(fields_view(a@)[i as int] != fields_view(b@)[i as int]);
            }
            return false;
        }
        i = i + 1;
    }
    proof {
        assert(fields_view(a@) =~= fields_view(b@));
    }
    true
}

impl Field {
    /// Structural equality over name, type and nullability.
    pub fn equals(&self, other: &Field) -> (r: bool)
        ensures
            r == (self@ == other@),
        decreases *self,
    {
        if !(self.name == other.name) {
            return false;
        }
        if self.nullable != other.nullable {
            return false;
        }
        self.data_type.equals(&other.data_type)
    }

    /// The canonical textual form, such as `f0: int32 not null`.
    pub fn to_text(&self) -> (s: String)
        ensures
            s@ == field_string(self@),
        decreases *self,
    {
        field_to_text(self)
    }
}

/// The canonical textual form of a field.
fn field_to_text(f: &Field) -> (s: String)
    ensures
        s@ == field_string(f@),
    decreases *f,
{
    let mut out = f.name.clone();
    out.append(": ");
    let t = f.data_type.to_text();
    out.append(t.as_str());
    if !f.nullable {
        out.append(" not null");
    }
    proof {
        assert(out@ =~= field_string(f@));
    }
    out
}

impl Schema {
    /// The number of fields.
    pub fn num_fields(&self) -> (n: usize)
        ensures
            n == self@.len(),
    {
        proof {
            lemma_fields_view(self.fields@);
        }
        self.fields.len()
    }

    /// The field at position `i`.
    pub fn field(&self, i: usize) -> (f: &Field)
        requires
            i < self@.len(),
        ensures
            f@ == self@[i as int],
    {
        proof {
            lemma_fields_view(self.fields@);
        }
        &self.fields[i]
    }

    /// Structural, order-sensitive equality of schemas.
    pub fn equals(&self, other: &Schema) -> (r: bool)
        ensures
            r == (self@ == other@),
    {
        fields_equal(&self.fields, &other.fields)
    }

    /// An owned structural copy.
    pub fn duplicate(&self) -> (s: Schema)
        ensures
            s@ == self@,
    {
        Schema { fields: duplicate_fields(&self.fields) }
    }
}

} // verus!
