use vstd::prelude::*;

verus! {

broadcast use vstd::std_specs::vec::group_vec_axioms;

/// Unit of an Arrow timestamp or time type.
#[derive(PartialEq, Eq, Structural, Clone, Copy, Debug)]
pub enum TimeUnit {
    Second,
    Millisecond,
    Microsecond,
    Nanosecond,
}

/// The Arrow data types this library writes and reads, with one variant for
/// every other type.
#[derive(Debug, PartialEq)]
pub enum ArrowType {
    Boolean,
    Int32,
    Int64,
    Float32,
    Float64,
    Utf8,
    Date32,
    /// Unit and optional time zone.
    Timestamp(TimeUnit, Option<String>),
    Time64(TimeUnit),
    /// Precision and scale.
    Decimal128(u8, i8),
    /// Byte width.
    FixedSizeBinary(i32),
    Binary,
    /// The element field.
    List(Box<ArrowField>),
    Struct(Vec<ArrowField>),
    /// The entries field, and whether the keys are sorted.
    MapOf(Box<ArrowField>, bool),
    /// Any other Arrow type.
    Other,
}

/// An Arrow field: a name, a data type and whether it admits nulls.
#[derive(Debug, PartialEq)]
pub struct ArrowField {
    pub name: String,
    pub data_type: ArrowType,
    pub nullable: bool,
}

/// The mathematical value of an `ArrowType`.
pub enum ArrowTypeModel {
    Boolean,
    Int32,
    Int64,
    Float32,
    Float64,
    Utf8,
    Date32,
    Timestamp(TimeUnit, Option<Seq<char>>),
    Time64(TimeUnit),
    Decimal128(u8, i8),
    FixedSizeBinary(i32),
    Binary,
    List(Box<FieldModel>),
    Struct(Seq<FieldModel>),
    MapOf(Box<FieldModel>, bool),
    Other,
}

/// The mathematical value of an `ArrowField`.
pub struct FieldModel {
    pub name: Seq<char>,
    pub data_type: ArrowTypeModel,
    pub nullable: bool,
}

pub open spec fn arrow_type_model(t: ArrowType) -> ArrowTypeModel
    decreases t,
{
    match t {
        ArrowType::Boolean => ArrowTypeModel::Boolean,
        ArrowType::Int32 => ArrowTypeModel::Int32,
        ArrowType::Int64 => ArrowTypeModel::Int64,
        ArrowType::Float32 => ArrowTypeModel::Float32,
        ArrowType::Float64 => ArrowTypeModel::Float64,
        ArrowType::Utf8 => ArrowTypeModel::Utf8,
        ArrowType::Date32 => ArrowTypeModel::Date32,
        ArrowType::Timestamp(u, tz) => ArrowTypeModel::Timestamp(
            u,
            match tz {
                Some(z) => Some(z@),
                None => None,
            },
        ),
        ArrowType::Time64(u) => ArrowTypeModel::Time64(u),
        ArrowType::Decimal128(p, s) => ArrowTypeModel::Decimal128(p, s),
        ArrowType::FixedSizeBinary(w) => ArrowTypeModel::FixedSizeBinary(w),
        ArrowType::Binary => ArrowTypeModel::Binary,
        ArrowType::List(f) => ArrowTypeModel::List(Box::new(field_model(*f))),
        ArrowType::Struct(fs) => ArrowTypeModel::Struct(fields_model(fs@)),
        ArrowType::MapOf(e, sorted) => ArrowTypeModel::MapOf(Box::new(field_model(*e)), sorted),
        ArrowType::Other => ArrowTypeModel::Other,
    }
}

pub open spec fn field_model(f: ArrowField) -> FieldModel
    decreases f,
{
    FieldModel { name: f.name@, data_type: arrow_type_model(f.data_type), nullable: f.nullable }
}

pub open spec fn fields_model(fs: Seq<ArrowField>) -> Seq<FieldModel>
    decreases fs,
{
    if fs.len() == 0 {
        Seq::empty()
    } else {
        fields_model(fs.drop_last()).push(field_model(fs.last()))
    }
}

impl View for ArrowField {
    type V = FieldModel;

    open spec fn view(&self) -> FieldModel {
        field_model(*self)
    }
}

impl View for ArrowType {
    type V = ArrowTypeModel;

    open spec fn view(&self) -> ArrowTypeModel {
        arrow_type_model(*self)
    }
}

pub proof fn lemma_fields_model(fs: Seq<ArrowField>)
    ensures
        fields_model(fs).len() == fs.len(),
        forall|i: int| 0 <= i < fs.len() ==> #[trigger] fields_model(fs)[i] == field_model(fs[i]),
    decreases fs.len(),
{
    if fs.len() > 0 {
        lemma_fields_model(fs.drop_last());
    }
}

pub proof fn lemma_fields_model_push(fs: Seq<ArrowField>, f: ArrowField)
    ensures
        fields_model(fs.push(f)) == fields_model(fs).push(field_model(f)),
{
    assert(fs.push(f).drop_last() =~= fs);
}

impl ArrowType {
    /// A copy of this type.
    pub fn duplicate(&self) -> (r: ArrowType)
        ensures
            r@ == self@,
        decreases self,
    {
        match self {
            ArrowType::Boolean => ArrowType::Boolean,
            ArrowType::Int32 => ArrowType::Int32,
            ArrowType::Int64 => ArrowType::Int64,
            ArrowType::Float32 => ArrowType::Float32,
            ArrowType::Float64 => ArrowType::Float64,
            ArrowType::Utf8 => ArrowType::Utf8,
            ArrowType::Date32 => ArrowType::Date32,
            ArrowType::Timestamp(u, tz) => ArrowType::Timestamp(
                *u,
                match tz {
                    Some(z) => Some(z.clone()),
                    None => None,
                },
            ),
            ArrowType::Time64(u) => ArrowType::Time64(*u),
            ArrowType::Decimal128(p, s) => ArrowType::Decimal128(*p, *s),
            ArrowType::FixedSizeBinary(w) => ArrowType::FixedSizeBinary(*w),
            ArrowType::Binary => ArrowType::Binary,
            ArrowType::List(f) => ArrowType::List(Box::new(f.duplicate())),
            ArrowType::Struct(fs) => ArrowType::Struct(duplicate_fields(fs)),
            ArrowType::MapOf(e, sorted) => ArrowType::MapOf(Box::new(e.duplicate()), *sorted),
            ArrowType::Other => ArrowType::Other,
        }
    }
}

impl ArrowField {
    /// A copy of this field.
    pub fn duplicate(&self) -> (r: ArrowField)
        ensures
            r@ == self@,
        decreases self,
    {
        ArrowField { name: self.name.clone(), data_type: self.data_type.duplicate(), nullable: self.nullable }
    }
}

/// A copy of a list of fields.
pub fn duplicate_fields(fs: &Vec<ArrowField>) -> (r: Vec<ArrowField>)
    ensures
        fields_model(r@) == fields_model(fs@),
    decreases fs,
{
    let mut r: Vec<ArrowField> = Vec::new();
    let mut i: usize = 0;
    while i < fs.len()
        invariant
            i <= fs.len(),
            fields_model(r@) == fields_model(fs@.subrange(0, i as int)),
        decreases fs.len() - i,
    {
        let f = fs[i].duplicate();
        proof {
            lemma_fields_model_push(r@, f);
            assert(fs@.subrange(0, i + 1).drop_last() =~= fs@.subrange(0, i as int));
        }
        r.push(f);
        i = i + 1;
    }
    assert(fs@.subrange(0, fs.len() as int) =~= fs@);
    r
}

} // verus!
