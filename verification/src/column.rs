use vstd::prelude::*;

use crate::arrow_model::{
    duplicate_fields, field_model, fields_model, lemma_fields_model, lemma_fields_model_push, ArrowField,
    ArrowType, ArrowTypeModel, FieldModel, TimeUnit,
};
use crate::error::ParquetError;
use crate::text::{append_chars, chars_to_string, int_text, int_to_chars};

verus! {

broadcast use vstd::std_specs::vec::group_vec_axioms;

/// The logical type of a column.
#[derive(Debug, PartialEq)]
pub enum ColumnType {
    Boolean,
    Int32,
    Int64,
    Float,
    Double,
    String,
    Date,
    DateTime,
    Time,
    Decimal { precision: u8, scale: i8 },
    Json,
    Enum,
    Uuid,
    Binary,
    List { element: Box<Column> },
    Struct { children: Vec<Column> },
    MapOf { key: Box<Column>, value: Box<Column> },
}

/// A named column of a schema; nullable unless `required`.
#[derive(Debug, PartialEq)]
pub struct Column {
    pub name: String,
    pub col_type: ColumnType,
    pub required: bool,
}

/// The mathematical value of a `ColumnType`.
pub enum TypeModel {
    Boolean,
    Int32,
    Int64,
    Float,
    Double,
    String,
    Date,
    DateTime,
    Time,
    Decimal(u8, i8),
    Json,
    Enum,
    Uuid,
    Binary,
    List(Box<ColumnModel>),
    Struct(Seq<ColumnModel>),
    MapOf(Box<ColumnModel>, Box<ColumnModel>),
}

/// The mathematical value of a `Column`.
pub struct ColumnModel {
    pub name: Seq<char>,
    pub col_type: TypeModel,
    pub required: bool,
}

pub open spec fn type_model(t: ColumnType) -> TypeModel
    decreases t,
{
    match t {
        ColumnType::Boolean => TypeModel::Boolean,
        ColumnType::Int32 => TypeModel::Int32,
        ColumnType::Int64 => TypeModel::Int64,
        ColumnType::Float => TypeModel::Float,
        ColumnType::Double => TypeModel::Double,
        ColumnType::String => TypeModel::String,
        ColumnType::Date => TypeModel::Date,
        ColumnType::DateTime => TypeModel::DateTime,
        ColumnType::Time => TypeModel::Time,
        ColumnType::Decimal { precision, scale } => TypeModel::Decimal(precision, scale),
        ColumnType::Json => TypeModel::Json,
        ColumnType::Enum => TypeModel::Enum,
        ColumnType::Uuid => TypeModel::Uuid,
        ColumnType::Binary => TypeModel::Binary,
        ColumnType::List { element } => TypeModel::List(Box::new(column_model(*element))),
        ColumnType::Struct { children } => TypeModel::Struct(columns_model(children@)),
        ColumnType::MapOf { key, value } => TypeModel::MapOf(
            Box::new(column_model(*key)),
            Box::new(column_model(*value)),
        ),
    }
}

pub open spec fn column_model(c: Column) -> ColumnModel
    decreases c,
{
    ColumnModel { name: c.name@, col_type: type_model(c.col_type), required: c.required }
}

pub open spec fn columns_model(cs: Seq<Column>) -> Seq<ColumnModel>
    decreases cs,
{
    if cs.len() == 0 {
        Seq::empty()
    } else {
        columns_model(cs.drop_last()).push(column_model(cs.last()))
    }
}

impl View for Column {
    type V = ColumnModel;

    open spec fn view(&self) -> ColumnModel {
        column_model(*self)
    }
}

pub proof fn lemma_columns_model(cs: Seq<Column>)
    ensures
        columns_model(cs).len() == cs.len(),
        forall|i: int| 0 <= i < cs.len() ==> #[trigger] columns_model(cs)[i] == column_model(cs[i]),
    decreases cs.len(),
{
    if cs.len() > 0 {
        lemma_columns_model(cs.drop_last());
    }
}


pub proof fn lemma_columns_model_push(cs: Seq<Column>, c: Column)
    ensures
        columns_model(cs.push(c)) == columns_model(cs).push(column_model(c)),
{
    assert(cs.push(c).drop_last() =~= cs);
}

impl ColumnType {
    /// A copy of this type.
    pub fn duplicate(&self) -> (r: ColumnType)
        ensures
            type_model(r) == type_model(*self),
        decreases self,
    {
        match self {
            ColumnType::Boolean => ColumnType::Boolean,
            ColumnType::Int32 => ColumnType::Int32,
            ColumnType::Int64 => ColumnType::Int64,
            ColumnType::Float => ColumnType::Float,
            ColumnType::Double => ColumnType::Double,
            ColumnType::String => ColumnType::String,
            ColumnType::Date => ColumnType::Date,
            ColumnType::DateTime => ColumnType::DateTime,
            ColumnType::Time => ColumnType::Time,
            ColumnType::Decimal { precision, scale } => ColumnType::Decimal { precision: *precision, scale: *scale },
            ColumnType::Json => ColumnType::Json,
            ColumnType::Enum => ColumnType::Enum,
            ColumnType::Uuid => ColumnType::Uuid,
            ColumnType::Binary => ColumnType::Binary,
            ColumnType::List { element } => ColumnType::List { element: Box::new(element.duplicate()) },
            ColumnType::Struct { children } => ColumnType::Struct { children: duplicate_columns(children) },
            ColumnType::MapOf { key, value } => ColumnType::MapOf {
                key: Box::new(key.duplicate()),
                value: Box::new(value.duplicate()),
            },
        }
    }
}

impl Column {
    /// A copy of this column.
    pub fn duplicate(&self) -> (r: Column)
        ensures
            r@ == self@,
        decreases self,
    {
        Column { name: self.name.clone(), col_type: self.col_type.duplicate(), required: self.required }
    }
}

/// A copy of a list of columns.
pub fn duplicate_columns(cs: &Vec<Column>) -> (r: Vec<Column>)
    ensures
        columns_model(r@) == columns_model(cs@),
    decreases cs,
{
    let mut r: Vec<Column> = Vec::new();
    let mut i: usize = 0;
    while i < cs.len()
        invariant
            i <= cs.len(),
            columns_model(r@) == columns_model(cs@.subrange(0, i as int)),
        decreases cs.len() - i,
    {
        let c = cs[i].duplicate();
        proof {
            lemma_columns_model_push(r@, c);
            assert(cs@.subrange(0, i + 1).drop_last() =~= cs@.subrange(0, i as int));
        }
        r.push(c);
        i = i + 1;
    }
    assert(cs@.subrange(0, cs.len() as int) =~= cs@);
    r
}

/// The model of a new nullable column.
pub open spec fn new_column(name: Seq<char>, t: TypeModel) -> ColumnModel {
    ColumnModel { name, col_type: t, required: false }
}

impl Column {
    fn new(name: String, col_type: ColumnType) -> (c: Column)
        ensures
            c@ == new_column(name@, type_model(col_type)),
    {
        Column { name, col_type, required: false }
    }

    /// A nullable boolean column.
    pub fn php_boolean(name: String) -> (c: Column)
        ensures
            c@ == new_column(name@, TypeModel::Boolean),
    {
        Column::new(name, ColumnType::Boolean)
    }

    /// A nullable 32-bit integer column.
    pub fn int32(name: String) -> (c: Column)
        ensures
            c@ == new_column(name@, TypeModel::Int32),
    {
        Column::new(name, ColumnType::Int32)
    }

    /// A nullable 64-bit integer column.
    pub fn int64(name: String) -> (c: Column)
        ensures
            c@ == new_column(name@, TypeModel::Int64),
    {
        Column::new(name, ColumnType::Int64)
    }

    /// A nullable 32-bit float column.
    pub fn php_float(name: String) -> (c: Column)
        ensures
            c@ == new_column(name@, TypeModel::Float),
    {
        Column::new(name, ColumnType::Float)
    }

    /// A nullable 64-bit float column.
    pub fn double(name: String) -> (c: Column)
        ensures
            c@ == new_column(name@, TypeModel::Double),
    {
        Column::new(name, ColumnType::Double)
    }

    /// A nullable UTF-8 string column.
    pub fn php_string(name: String) -> (c: Column)
        ensures
            c@ == new_column(name@, TypeModel::String),
    {
        Column::new(name, ColumnType::String)
    }

    /// A nullable date column (`Y-m-d` texts).
    pub fn date(name: String) -> (c: Column)
        ensures
            c@ == new_column(name@, TypeModel::Date),
    {
        Column::new(name, ColumnType::Date)
    }

    /// A nullable UTC date-time column (ISO 8601 texts).
    pub fn date_time(name: String) -> (c: Column)
        ensures
            c@ == new_column(name@, TypeModel::DateTime),
    {
        Column::new(name, ColumnType::DateTime)
    }

    /// A nullable time-of-day column (`H:i:s.u` texts).
    pub fn time(name: String) -> (c: Column)
        ensures
            c@ == new_column(name@, TypeModel::Time),
    {
        Column::new(name, ColumnType::Time)
    }

    /// A nullable decimal column; refused when the precision does not fit in
    /// a `u8` or, failing that, when the scale does not fit in an `i8`.
    pub fn decimal(name: String, precision: i64, scale: i64) -> (r: Result<Column, ParquetError>)
        ensures
            !(0 <= precision <= 255) ==> r == Err::<Column, ParquetError>(ParquetError::InvalidPrecision(precision)),
            0 <= precision <= 255 && !(-128 <= scale <= 127) ==> r == Err::<Column, ParquetError>(
                ParquetError::InvalidScale(scale),
            ),
            0 <= precision <= 255 && -128 <= scale <= 127 ==> (r matches Ok(c) && c@ == new_column(
                name@,
                TypeModel::Decimal(precision as u8, scale as i8),
            )),
    {
        if precision < 0 || precision > 255 {
            return Err(ParquetError::InvalidPrecision(precision));
        }
        if scale < -128 || scale > 127 {
            return Err(ParquetError::InvalidScale(scale));
        }
        Ok(Column::new(name, ColumnType::Decimal { precision: precision as u8, scale: scale as i8 }))
    }

    /// A nullable JSON column (stored as text).
    pub fn json(name: String) -> (c: Column)
        ensures
            c@ == new_column(name@, TypeModel::Json),
    {
        Column::new(name, ColumnType::Json)
    }

    /// A nullable enumeration column (stored as text).
    pub fn php_enum(name: String) -> (c: Column)
        ensures
            c@ == new_column(name@, TypeModel::Enum),
    {
        Column::new(name, ColumnType::Enum)
    }

    /// A nullable UUID column (16 bytes).
    pub fn uuid(name: String) -> (c: Column)
        ensures
            c@ == new_column(name@, TypeModel::Uuid),
    {
        Column::new(name, ColumnType::Uuid)
    }

    /// A nullable binary column.
    pub fn binary(name: String) -> (c: Column)
        ensures
            c@ == new_column(name@, TypeModel::Binary),
    {
        Column::new(name, ColumnType::Binary)
    }

    /// A nullable list column of a copy of `element`.
    pub fn list(name: String, element: &Column) -> (c: Column)
        ensures
            c@ == new_column(name@, TypeModel::List(Box::new(element@))),
    {
        Column::new(name, ColumnType::List { element: Box::new(element.duplicate()) })
    }

    /// A nullable struct column of the given children.
    pub fn php_struct(name: String, children: Vec<Column>) -> (c: Column)
        ensures
            c@ == new_column(name@, TypeModel::Struct(columns_model(children@))),
    {
        Column::new(name, ColumnType::Struct { children })
    }

    /// A nullable map column of copies of `key` and `value`.
    pub fn map(name: String, key: &Column, value: &Column) -> (c: Column)
        ensures
            c@ == new_column(name@, TypeModel::MapOf(Box::new(key@), Box::new(value@))),
    {
        Column::new(name, ColumnType::MapOf { key: Box::new(key.duplicate()), value: Box::new(value.duplicate()) })
    }

    /// A copy of this column that does not admit nulls.
    pub fn required(&self) -> (c: Column)
        ensures
            c@ == (ColumnModel { required: true, ..self@ }),
    {
        Column { name: self.name.clone(), col_type: self.col_type.duplicate(), required: true }
    }

    /// The column's name.
    pub fn name(&self) -> (s: String)
        ensures
            s@ == self@.name,
    {
        self.name.clone()
    }

    /// The display name of the column's type.
    pub fn php_type(&self) -> (s: String)
        ensures
            s@ == display_text(self@.col_type),
    {
        self.col_type.display_name()
    }

    /// Whether the column does not admit nulls.
    pub fn is_required(&self) -> (b: bool)
        ensures
            b == self@.required,
    {
        self.required
    }
}

/// The display name of a column type, e.g. `list<int32>` or
/// `struct<a:string,b:decimal(10,2)>`.
pub open spec fn display_text(t: TypeModel) -> Seq<char>
    decreases t,
{
    match t {
        TypeModel::Boolean => "boolean"@,
        TypeModel::Int32 => "int32"@,
        TypeModel::Int64 => "int64"@,
        TypeModel::Float => "float"@,
        TypeModel::Double => "double"@,
        TypeModel::String => "string"@,
        TypeModel::Date => "date"@,
        TypeModel::DateTime => "dateTime"@,
        TypeModel::Time => "time"@,
        TypeModel::Decimal(p, s) => "decimal("@ + int_text(p as int) + ","@ + int_text(s as int) + ")"@,
        TypeModel::Json => "json"@,
        TypeModel::Enum => "enum"@,
        TypeModel::Uuid => "uuid"@,
        TypeModel::Binary => "binary"@,
        TypeModel::List(e) => "list<"@ + display_text(e.col_type) + ">"@,
        TypeModel::Struct(cs) => "struct<"@ + members_text(cs) + ">"@,
        TypeModel::MapOf(k, v) => "map<"@ + display_text(k.col_type) + ","@ + display_text(v.col_type) + ">"@,
    }
}

/// `name:type` of each member, joined by `,`.
pub open spec fn members_text(cs: Seq<ColumnModel>) -> Seq<char>
    decreases cs,
{
    if cs.len() == 0 {
        Seq::empty()
    } else if cs.len() == 1 {
        cs[0].name + ":"@ + display_text(cs[0].col_type)
    } else {
        members_text(cs.drop_last()) + ","@ + cs.last().name + ":"@ + display_text(cs.last().col_type)
    }
}

impl ColumnType {
    /// The display name of this type.
    pub fn display_name(&self) -> (s: String)
        ensures
            s@ == display_text(type_model(*self)),
        decreases self,
    {
        match self {
            ColumnType::Boolean => String::from_str("boolean"),
            ColumnType::Int32 => String::from_str("int32"),
            ColumnType::Int64 => String::from_str("int64"),
            ColumnType::Float => String::from_str("float"),
            ColumnType::Double => String::from_str("double"),
            ColumnType::String => String::from_str("string"),
            ColumnType::Date => String::from_str("date"),
            ColumnType::DateTime => String::from_str("dateTime"),
            ColumnType::Time => String::from_str("time"),
            ColumnType::Decimal { precision, scale } => {
                let mut s = String::from_str("decimal(");
                let p = chars_to_string(&int_to_chars(*precision as i128));
                s.append(p.as_str());
                s.append(",");
                let q = chars_to_string(&int_to_chars(*scale as i128));
                s.append(q.as_str());
                s.append(")");
                s
            },
            ColumnType::Json => String::from_str("json"),
            ColumnType::Enum => String::from_str("enum"),
            ColumnType::Uuid => String::from_str("uuid"),
            ColumnType::Binary => String::from_str("binary"),
            ColumnType::List { element } => {
                let mut s = String::from_str("list<");
                let inner = element.col_type.display_name();
                s.append(inner.as_str());
                s.append(">");
                s
            },
            ColumnType::Struct { children } => {
                let mut s = String::from_str("struct<");
                let inner = members_display(children);
                s.append(inner.as_str());
                s.append(">");
                s
            },
            ColumnType::MapOf { key, value } => {
                let mut s = String::from_str("map<");
                let k = key.col_type.display_name();
                s.append(k.as_str());
                s.append(",");
                let v = value.col_type.display_name();
                s.append(v.as_str());
                s.append(">");
                s
            },
        }
    }
}

/// `members_text` of a list of columns.
fn members_display(cs: &Vec<Column>) -> (s: String)
    ensures
        s@ == members_text(columns_model(cs@)),
    decreases cs,
{
    let mut s = String::new();
    let mut i: usize = 0;
    proof {
        lemma_columns_model(cs@);
    }
    while i < cs.len()
        invariant
            i <= cs.len(),
            columns_model(cs@).len() == cs.len(),
            forall|j: int| 0 <= j < cs.len() ==> #[trigger] columns_model(cs@)[j] == column_model(cs@[j]),
            s@ == members_text(columns_model(cs@).subrange(0, i as int)),
        decreases cs.len() - i,
    {
        let ghost ms = columns_model(cs@);
        let ghost prev = ms.subrange(0, i as int);
        let ghost next = ms.subrange(0, i + 1);
        assert(next.drop_last() =~= prev);
        assert(next.last() == column_model(cs@[i as int]));
        if i > 0 {
            s.append(",");
        }
        s.append(cs[i].name.as_str());
        s.append(":");
        let t = cs[i].col_type.display_name();
        s.append(t.as_str());
        proof {
            if i == 0 {
                assert(next.len() == 1);
                assert(s@ =~= members_text(next));
            } else {
                assert(s@ =~= members_text(next));
            }
        }
        i = i + 1;
    }
    assert(columns_model(cs@).subrange(0, cs.len() as int) =~= columns_model(cs@));
    s
}


/// The Arrow type a column type is stored as.
pub open spec fn arrow_type_of(t: TypeModel) -> ArrowTypeModel
    decreases t,
{
    match t {
        TypeModel::Boolean => ArrowTypeModel::Boolean,
        TypeModel::Int32 => ArrowTypeModel::Int32,
        TypeModel::Int64 => ArrowTypeModel::Int64,
        TypeModel::Float => ArrowTypeModel::Float32,
        TypeModel::Double => ArrowTypeModel::Float64,
        TypeModel::String => ArrowTypeModel::Utf8,
        TypeModel::Json => ArrowTypeModel::Utf8,
        TypeModel::Enum => ArrowTypeModel::Utf8,
        TypeModel::Date => ArrowTypeModel::Date32,
        TypeModel::DateTime => ArrowTypeModel::Timestamp(TimeUnit::Microsecond, Some("UTC"@)),
        TypeModel::Time => ArrowTypeModel::Time64(TimeUnit::Microsecond),
        TypeModel::Decimal(p, s) => ArrowTypeModel::Decimal128(p, s),
        TypeModel::Uuid => ArrowTypeModel::FixedSizeBinary(16),
        TypeModel::Binary => ArrowTypeModel::Binary,
        TypeModel::List(e) => ArrowTypeModel::List(Box::new(arrow_field_named(*e, e.name))),
        TypeModel::Struct(cs) => ArrowTypeModel::Struct(arrow_fields_of(cs)),
        TypeModel::MapOf(k, v) => ArrowTypeModel::MapOf(
            Box::new(
                FieldModel {
                    name: "entries"@,
                    data_type: ArrowTypeModel::Struct(
                        seq![
                            FieldModel { name: "key"@, data_type: arrow_type_of(k.col_type), nullable: false },
                            arrow_field_named(*v, "value"@),
                        ],
                    ),
                    nullable: false,
                },
            ),
            false,
        ),
    }
}

/// The Arrow field of a column under the given name: nullable unless the
/// column is required.
pub open spec fn arrow_field_named(c: ColumnModel, name: Seq<char>) -> FieldModel
    decreases c,
{
    FieldModel { name, data_type: arrow_type_of(c.col_type), nullable: !c.required }
}

/// The Arrow field of a column under its own name.
pub open spec fn arrow_field_of(c: ColumnModel) -> FieldModel {
    arrow_field_named(c, c.name)
}

/// The Arrow fields of a list of columns.
pub open spec fn arrow_fields_of(cs: Seq<ColumnModel>) -> Seq<FieldModel>
    decreases cs,
{
    if cs.len() == 0 {
        Seq::empty()
    } else {
        arrow_fields_of(cs.drop_last()).push(arrow_field_named(cs.last(), cs.last().name))
    }
}

impl ColumnType {
    /// The Arrow type this column type is stored as.
    pub fn to_arrow_data_type(&self) -> (r: ArrowType)
        ensures
            r@ == arrow_type_of(type_model(*self)),
        decreases self,
    {
        match self {
            ColumnType::Boolean => ArrowType::Boolean,
            ColumnType::Int32 => ArrowType::Int32,
            ColumnType::Int64 => ArrowType::Int64,
            ColumnType::Float => ArrowType::Float32,
            ColumnType::Double => ArrowType::Float64,
            ColumnType::String | ColumnType::Json | ColumnType::Enum => ArrowType::Utf8,
            ColumnType::Date => ArrowType::Date32,
            ColumnType::DateTime => ArrowType::Timestamp(TimeUnit::Microsecond, Some(String::from_str("UTC"))),
            ColumnType::Time => ArrowType::Time64(TimeUnit::Microsecond),
            ColumnType::Decimal { precision, scale } => ArrowType::Decimal128(*precision, *scale),
            ColumnType::Uuid => ArrowType::FixedSizeBinary(16),
            ColumnType::Binary => ArrowType::Binary,
            ColumnType::List { element } => ArrowType::List(Box::new(element.to_arrow_field())),
            ColumnType::Struct { children } => ArrowType::Struct(columns_to_arrow_fields(children)),
            ColumnType::MapOf { key, value } => {
                let key_field = ArrowField {
                    name: String::from_str("key"),
                    data_type: key.col_type.to_arrow_data_type(),
                    nullable: false,
                };
                let value_field = value.to_arrow_field_with_name("value");
                let mut entries: Vec<ArrowField> = Vec::new();
                entries.push(key_field);
                entries.push(value_field);
                proof {
                    lemma_fields_model_push(Seq::empty(), key_field);
                    lemma_fields_model_push(seq![key_field], value_field);
                    assert(entries@ =~= seq![key_field, value_field]);
                    assert(seq![key_field].push(value_field) =~= seq![key_field, value_field]);
                    assert(Seq::<ArrowField>::empty().push(key_field) =~= seq![key_field]);
                    assert(Seq::<FieldModel>::empty().push(field_model(key_field)).push(field_model(value_field))
                        =~= seq![field_model(key_field), field_model(value_field)]);
                }
                let entries_field = ArrowField {
                    name: String::from_str("entries"),
                    data_type: ArrowType::Struct(entries),
                    nullable: false,
                };
                let r = ArrowType::MapOf(Box::new(entries_field), false);
                proof {
                    assert(fields_model(entries@) == seq![field_model(key_field), field_model(value_field)]);
                    assert(field_model(key_field) == FieldModel {
                        name: "key"@,
                        data_type: arrow_type_of(key@.col_type),
                        nullable: false,
                    });
                    assert(field_model(entries_field).data_type == ArrowTypeModel::Struct(
                        fields_model(entries@),
                    ));
                }
                r
            },
        }
    }
}

impl Column {
    /// The Arrow field of this column.
    pub fn to_arrow_field(&self) -> (f: ArrowField)
        ensures
            f@ == arrow_field_of(self@),
        decreases self,
    {
        ArrowField { name: self.name.clone(), data_type: self.col_type.to_arrow_data_type(), nullable: !self.required }
    }

    /// The Arrow field of this column under another name.
    pub fn to_arrow_field_with_name(&self, name: &str) -> (f: ArrowField)
        ensures
            f@ == arrow_field_named(self@, name@),
        decreases self,
    {
        ArrowField {
            name: String::from_str(name),
            data_type: self.col_type.to_arrow_data_type(),
            nullable: !self.required,
        }
    }
}

/// The Arrow fields of a list of columns.
pub fn columns_to_arrow_fields(cs: &Vec<Column>) -> (r: Vec<ArrowField>)
    ensures
        fields_model(r@) == arrow_fields_of(columns_model(cs@)),
    decreases cs,
{
    let mut r: Vec<ArrowField> = Vec::new();
    let mut i: usize = 0;
    while i < cs.len()
        invariant
            i <= cs.len(),
            fields_model(r@) == arrow_fields_of(columns_model(cs@.subrange(0, i as int))),
        decreases cs.len() - i,
    {
        let f = cs[i].to_arrow_field();
        proof {
            lemma_fields_model_push(r@, f);
            let sub = cs@.subrange(0, i + 1);
            assert(sub.drop_last() =~= cs@.subrange(0, i as int));
            assert(sub.last() == cs@[i as int]);
            let ms = columns_model(sub);
            assert(ms == columns_model(sub.drop_last()).push(column_model(sub.last())));
            assert(ms.drop_last() =~= columns_model(sub.drop_last()));
            assert(ms.last() == column_model(cs@[i as int]));
            assert(arrow_fields_of(ms) == arrow_fields_of(ms.drop_last()).push(
                arrow_field_named(ms.last(), ms.last().name),
            ));
        }
        r.push(f);
        i = i + 1;
    }
    assert(cs@.subrange(0, cs.len() as int) =~= cs@);
    r
}

/// Whether reading a column from this Arrow type indexes only fields that
/// exist: the entries of every map met on the way are a struct of at least
/// two fields, or not a struct at all.
pub open spec fn readable_type(t: ArrowTypeModel) -> bool
    decreases t,
{
    match t {
        ArrowTypeModel::List(f) => readable_type(f.data_type),
        ArrowTypeModel::Struct(fs) => readable_fields(fs),
        ArrowTypeModel::MapOf(e, _) => match e.data_type {
            ArrowTypeModel::Struct(fs) => fs.len() >= 2 && readable_type(fs[0].data_type) && readable_type(
                fs[1].data_type,
            ),
            _ => true,
        },
        _ => true,
    }
}

pub open spec fn readable_fields(fs: Seq<FieldModel>) -> bool
    decreases fs,
{
    fs.len() > 0 ==> readable_fields(fs.drop_last()) && readable_type(fs.last().data_type)
}

/// Whether reading a column from this Arrow type indexes only fields that
/// exist (`readable_type`).
pub fn is_readable_type(t: &ArrowType) -> (b: bool)
    ensures
        b == readable_type(t@),
    decreases t,
{
    match t {
        ArrowType::List(f) => is_readable_type(&f.data_type),
        ArrowType::Struct(fs) => are_readable_fields(fs),
        ArrowType::MapOf(e, _) => match &e.data_type {
            ArrowType::Struct(fs) => {
                proof {
                    lemma_fields_model(fs@);
                    assert(e@.data_type == ArrowTypeModel::Struct(fields_model(fs@)));
                }
                fs.len() >= 2 && is_readable_type(&fs[0].data_type) && is_readable_type(&fs[1].data_type)
            },
            _ => true,
        },
        _ => true,
    }
}

/// Whether every field of a list has a readable type (`readable_fields`).
pub fn are_readable_fields(fs: &Vec<ArrowField>) -> (b: bool)
    ensures
        b == readable_fields(fields_model(fs@)),
    decreases fs,
{
    let ghost fsm = fields_model(fs@);
    proof {
        lemma_fields_model(fs@);
        assert(fsm.subrange(0, 0) =~= Seq::<FieldModel>::empty());
    }
    let mut k: usize = 0;
    while k < fs.len()
        invariant
            k <= fs.len(),
            fsm == fields_model(fs@),
            fsm.len() == fs.len(),
            forall|j: int| 0 <= j < fs.len() ==> #[trigger] fsm[j] == fs@[j]@,
            readable_fields(fsm.subrange(0, k as int)),
        decreases fs.len() - k,
    {
        let ok = is_readable_type(&fs[k].data_type);
        proof {
            let p = fsm.subrange(0, k + 1);
            assert(p.drop_last() =~= fsm.subrange(0, k as int));
            assert(p.last() == fsm[k as int]);
        }
        if !ok {
            proof {
                lemma_readable_prefix(fsm, k + 1, fs.len() as int);
                assert(fsm.subrange(0, fs.len() as int) =~= fsm);
            }
            return false;
        }
        k = k + 1;
    }
    proof {
        assert(fsm.subrange(0, fs.len() as int) =~= fsm);
    }
    true
}

/// A list whose first `k` fields are not all readable is not readable.
proof fn lemma_readable_prefix(fs: Seq<FieldModel>, k: int, m: int)
    requires
        0 <= k <= m <= fs.len(),
        !readable_fields(fs.subrange(0, k)),
    ensures
        !readable_fields(fs.subrange(0, m)),
    decreases m - k,
{
    if m > k {
        lemma_readable_prefix(fs, k, m - 1);
        let p = fs.subrange(0, m);
        assert(p.drop_last() =~= fs.subrange(0, m - 1));
    }
}

/// The column type read back from an Arrow type; types it does not know
/// read as binary.
pub open spec fn type_of_arrow(t: ArrowTypeModel) -> TypeModel
    decreases t,
{
    match t {
        ArrowTypeModel::Boolean => TypeModel::Boolean,
        ArrowTypeModel::Int32 => TypeModel::Int32,
        ArrowTypeModel::Int64 => TypeModel::Int64,
        ArrowTypeModel::Float32 => TypeModel::Float,
        ArrowTypeModel::Float64 => TypeModel::Double,
        ArrowTypeModel::Utf8 => TypeModel::String,
        ArrowTypeModel::Date32 => TypeModel::Date,
        ArrowTypeModel::Timestamp(_, _) => TypeModel::DateTime,
        ArrowTypeModel::Time64(_) => TypeModel::Time,
        ArrowTypeModel::Decimal128(p, s) => TypeModel::Decimal(p, s),
        ArrowTypeModel::FixedSizeBinary(w) => if w == 16 {
            TypeModel::Uuid
        } else {
            TypeModel::Binary
        },
        ArrowTypeModel::List(f) => TypeModel::List(Box::new(column_of_field(*f))),
        ArrowTypeModel::Struct(fs) => TypeModel::Struct(columns_of_fields(fs)),
        ArrowTypeModel::MapOf(e, _) => match e.data_type {
            ArrowTypeModel::Struct(fs) => if fs.len() >= 2 {
                TypeModel::MapOf(Box::new(column_of_field(fs[0])), Box::new(column_of_field(fs[1])))
            } else {
                TypeModel::Binary
            },
            _ => TypeModel::Binary,
        },
        _ => TypeModel::Binary,
    }
}

/// The column read back from an Arrow field: same name, required unless
/// nullable.
pub open spec fn column_of_field(f: FieldModel) -> ColumnModel
    decreases f,
{
    ColumnModel { name: f.name, col_type: type_of_arrow(f.data_type), required: !f.nullable }
}

pub open spec fn columns_of_fields(fs: Seq<FieldModel>) -> Seq<ColumnModel>
    decreases fs,
{
    if fs.len() == 0 {
        Seq::empty()
    } else {
        columns_of_fields(fs.drop_last()).push(column_of_field(fs.last()))
    }
}

proof fn lemma_readable_fields(fs: Seq<FieldModel>, i: int)
    requires
        readable_fields(fs),
        0 <= i < fs.len(),
    ensures
        readable_type(fs[i].data_type),
    decreases fs.len(),
{
    if i < fs.len() - 1 {
        lemma_readable_fields(fs.drop_last(), i);
    }
}

impl Column {
    /// The column described by an Arrow field.
    pub fn from_arrow_field(field: &ArrowField) -> (c: Column)
        requires
            readable_type(field@.data_type),
        ensures
            c@ == column_of_field(field@),
        decreases field,
    {
        let col_type = match &field.data_type {
            ArrowType::Boolean => ColumnType::Boolean,
            ArrowType::Int32 => ColumnType::Int32,
            ArrowType::Int64 => ColumnType::Int64,
            ArrowType::Float32 => ColumnType::Float,
            ArrowType::Float64 => ColumnType::Double,
            ArrowType::Utf8 => ColumnType::String,
            ArrowType::Date32 => ColumnType::Date,
            ArrowType::Timestamp(_, _) => ColumnType::DateTime,
            ArrowType::Time64(_) => ColumnType::Time,
            ArrowType::Decimal128(p, s) => ColumnType::Decimal { precision: *p, scale: *s },
            ArrowType::FixedSizeBinary(w) => if *w == 16 {
                ColumnType::Uuid
            } else {
                ColumnType::Binary
            },
            ArrowType::List(element_field) => ColumnType::List {
                element: Box::new(Column::from_arrow_field(element_field)),
            },
            ArrowType::Struct(fields) => ColumnType::Struct { children: columns_from_arrow_fields(fields) },
            ArrowType::MapOf(entries_field, _) => {
                match &entries_field.data_type {
                    ArrowType::Struct(fields) => {
                        proof {
                            lemma_fields_model(fields@);
                            let em = field_model(**entries_field);
                            assert(em.data_type == ArrowTypeModel::Struct(fields_model(fields@)));
                            assert(readable_type(field@.data_type));
                            assert(fields_model(fields@).len() >= 2);
                        }
                        ColumnType::MapOf {
                            key: Box::new(Column::from_arrow_field(&fields[0])),
                            value: Box::new(Column::from_arrow_field(&fields[1])),
                        }
                    },
                    _ => ColumnType::Binary,
                }
            },
            ArrowType::Binary | ArrowType::Other => ColumnType::Binary,
        };
        Column { name: field.name.clone(), col_type, required: !field.nullable }
    }
}

/// The columns described by a list of Arrow fields.
pub fn columns_from_arrow_fields(fs: &Vec<ArrowField>) -> (r: Vec<Column>)
    requires
        readable_fields(fields_model(fs@)),
    ensures
        columns_model(r@) == columns_of_fields(fields_model(fs@)),
    decreases fs,
{
    let mut r: Vec<Column> = Vec::new();
    let mut i: usize = 0;
    proof {
        lemma_fields_model(fs@);
    }
    while i < fs.len()
        invariant
            i <= fs.len(),
            readable_fields(fields_model(fs@)),
            fields_model(fs@).len() == fs.len(),
            forall|j: int| 0 <= j < fs.len() ==> #[trigger] fields_model(fs@)[j] == field_model(fs@[j]),
            columns_model(r@) == columns_of_fields(fields_model(fs@).subrange(0, i as int)),
        decreases fs.len() - i,
    {
        proof {
            lemma_readable_fields(fields_model(fs@), i as int);
        }
        let c = Column::from_arrow_field(&fs[i]);
        proof {
            lemma_columns_model_push(r@, c);
            let sub = fields_model(fs@).subrange(0, i + 1);
            assert(sub.drop_last() =~= fields_model(fs@).subrange(0, i as int));
            assert(sub.last() == field_model(fs@[i as int]));
        }
        r.push(c);
        i = i + 1;
    }
    assert(fields_model(fs@).subrange(0, fs.len() as int) =~= fields_model(fs@));
    r
}


/// The column type a column type reads back as after a trip through Arrow:
/// JSON and enumeration columns come back as strings, and map keys come back
/// required, named `key`, with the value named `value`.
pub open spec fn stored_type(t: TypeModel) -> TypeModel
    decreases t,
{
    match t {
        TypeModel::Json => TypeModel::String,
        TypeModel::Enum => TypeModel::String,
        TypeModel::List(e) => TypeModel::List(Box::new(stored_column(*e))),
        TypeModel::Struct(cs) => TypeModel::Struct(stored_columns(cs)),
        TypeModel::MapOf(k, v) => TypeModel::MapOf(
            Box::new(ColumnModel { name: "key"@, col_type: stored_type(k.col_type), required: true }),
            Box::new(ColumnModel { name: "value"@, col_type: stored_type(v.col_type), required: v.required }),
        ),
        _ => t,
    }
}

pub open spec fn stored_column(c: ColumnModel) -> ColumnModel
    decreases c,
{
    ColumnModel { name: c.name, col_type: stored_type(c.col_type), required: c.required }
}

pub open spec fn stored_columns(cs: Seq<ColumnModel>) -> Seq<ColumnModel>
    decreases cs,
{
    if cs.len() == 0 {
        Seq::empty()
    } else {
        stored_columns(cs.drop_last()).push(stored_column(cs.last()))
    }
}

proof fn lemma_type_roundtrip(t: TypeModel)
    ensures
        readable_type(arrow_type_of(t)),
        type_of_arrow(arrow_type_of(t)) == stored_type(t),
    decreases t,
{
    match t {
        TypeModel::List(e) => {
            lemma_type_roundtrip(e.col_type);
            let f = arrow_field_named(*e, e.name);
            assert(arrow_type_of(t) == ArrowTypeModel::List(Box::new(f)));
            assert(column_of_field(f) == stored_column(*e));
        },
        TypeModel::Struct(cs) => {
            law_schema_roundtrip(cs);
        },
        TypeModel::MapOf(k, v) => {
            lemma_type_roundtrip(k.col_type);
            lemma_type_roundtrip(v.col_type);
            let kf = FieldModel { name: "key"@, data_type: arrow_type_of(k.col_type), nullable: false };
            let vf = arrow_field_named(*v, "value"@);
            let fs = seq![kf, vf];
            assert(fs[0] == kf);
            assert(fs[1] == vf);
            assert(column_of_field(kf) == ColumnModel {
                name: "key"@,
                col_type: stored_type(k.col_type),
                required: true,
            });
            assert(column_of_field(vf) == ColumnModel {
                name: "value"@,
                col_type: stored_type(v.col_type),
                required: v.required,
            });
        },
        _ => {},
    }
}

/// Writing a schema's Arrow fields and reading the columns back from them
/// gives every column as stored (`stored_column`), in order; the fields can
/// always be read back.
pub proof fn law_schema_roundtrip(cs: Seq<ColumnModel>)
    ensures
        readable_fields(arrow_fields_of(cs)),
        columns_of_fields(arrow_fields_of(cs)) == stored_columns(cs),
    decreases cs,
{
    if cs.len() > 0 {
        law_schema_roundtrip(cs.drop_last());
        lemma_type_roundtrip(cs.last().col_type);
        let fs = arrow_fields_of(cs);
        let last = arrow_field_named(cs.last(), cs.last().name);
        assert(fs == arrow_fields_of(cs.drop_last()).push(last));
        assert(fs.drop_last() =~= arrow_fields_of(cs.drop_last()));
        assert(fs.last() == last);
        assert(column_of_field(last) == stored_column(cs.last()));
        assert(columns_of_fields(fs) == columns_of_fields(fs.drop_last()).push(column_of_field(fs.last())));
    }
}

/// Writing a column's Arrow field and reading a column back from it gives the
/// column as stored: same name and nullability, JSON and enumeration types
/// read as strings, map keys required and named `key`, map values named
/// `value`. The field is always one that can be read back.
pub proof fn law_arrow_field_roundtrip(c: ColumnModel)
    ensures
        readable_type(arrow_field_of(c).data_type),
        column_of_field(arrow_field_of(c)) == stored_column(c),
{
    lemma_type_roundtrip(c.col_type);
}

/// The display name a column type has once stored: as `display_text`, with
/// JSON and enum columns, at any depth, shown as `string`.
pub open spec fn stored_display_text(t: TypeModel) -> Seq<char>
    decreases t,
{
    match t {
        TypeModel::Json | TypeModel::Enum => "string"@,
        TypeModel::List(e) => "list<"@ + stored_display_text(e.col_type) + ">"@,
        TypeModel::Struct(cs) => "struct<"@ + stored_members_text(cs) + ">"@,
        TypeModel::MapOf(k, v) => "map<"@ + stored_display_text(k.col_type) + ","@ + stored_display_text(v.col_type)
            + ">"@,
        _ => display_text(t),
    }
}

/// `members_text` with the members' types shown as `stored_display_text`.
pub open spec fn stored_members_text(cs: Seq<ColumnModel>) -> Seq<char>
    decreases cs,
{
    if cs.len() == 0 {
        Seq::empty()
    } else if cs.len() == 1 {
        cs[0].name + ":"@ + stored_display_text(cs[0].col_type)
    } else {
        stored_members_text(cs.drop_last()) + ","@ + cs.last().name + ":"@ + stored_display_text(cs.last().col_type)
    }
}

proof fn lemma_stored_display(t: TypeModel)
    ensures
        display_text(stored_type(t)) == stored_display_text(t),
    decreases t,
{
    match t {
        TypeModel::List(e) => {
            lemma_stored_display(e.col_type);
            let se = stored_column(*e);
            assert(se.col_type == stored_type(e.col_type));
            assert(stored_type(t) == TypeModel::List(Box::new(se)));
            assert(display_text(stored_type(t)) == "list<"@ + display_text(se.col_type) + ">"@);
        },
        TypeModel::Struct(cs) => {
            lemma_stored_members(cs);
        },
        TypeModel::MapOf(k, v) => {
            lemma_stored_display(k.col_type);
            lemma_stored_display(v.col_type);
        },
        _ => {},
    }
}

proof fn lemma_stored_members(cs: Seq<ColumnModel>)
    ensures
        members_text(stored_columns(cs)) == stored_members_text(cs),
    decreases cs,
{
    if cs.len() > 0 {
        let sc = stored_columns(cs);
        assert(sc.len() == cs.len()) by {
            lemma_stored_columns_len(cs);
        }
        assert(decreases_to!(cs => cs.last()));
        assert(decreases_to!(cs.last() => cs.last().col_type));
        lemma_stored_display(cs.last().col_type);
        if cs.len() == 1 {
            assert(cs.drop_last().len() == 0);
            assert(sc[0] == stored_column(cs[0]));
        } else {
            lemma_stored_members(cs.drop_last());
            assert(sc.drop_last() == stored_columns(cs.drop_last()));
            assert(sc.last() == stored_column(cs.last()));
        }
    }
}

proof fn lemma_stored_columns_len(cs: Seq<ColumnModel>)
    ensures
        stored_columns(cs).len() == cs.len(),
    decreases cs.len(),
{
    if cs.len() > 0 {
        lemma_stored_columns_len(cs.drop_last());
    }
}

/// A column read back from its own Arrow field has the column's name and
/// nullability, and the column's display name with JSON and enum types
/// shown as `string`.
pub proof fn law_column_read_back_names(c: ColumnModel)
    ensures
        column_of_field(arrow_field_of(c)).name == c.name,
        column_of_field(arrow_field_of(c)).required == c.required,
        display_text(column_of_field(arrow_field_of(c)).col_type) == stored_display_text(c.col_type),
{
    law_arrow_field_roundtrip(c);
    lemma_stored_display(c.col_type);
}

/// A file's field of any timestamp type, whatever its unit and zone, reads
/// as a nullable-as-given date-time column of the field's name, shown as
/// `dateTime`, which is written back as a microsecond UTC timestamp; a field
/// of any time-of-day type reads likewise as a time column.
pub proof fn law_timestamps_read_as_datetime(f: FieldModel)
    ensures
        f.data_type is Timestamp ==> column_of_field(f) == (ColumnModel {
            name: f.name,
            col_type: TypeModel::DateTime,
            required: !f.nullable,
        }) && display_text(column_of_field(f).col_type) == "dateTime"@ && arrow_type_of(column_of_field(f).col_type)
            == ArrowTypeModel::Timestamp(TimeUnit::Microsecond, Some("UTC"@)),
        f.data_type is Time64 ==> column_of_field(f) == (ColumnModel {
            name: f.name,
            col_type: TypeModel::Time,
            required: !f.nullable,
        }) && display_text(column_of_field(f).col_type) == "time"@ && arrow_type_of(column_of_field(f).col_type)
            == ArrowTypeModel::Time64(TimeUnit::Microsecond),
{
}

} // verus!
