use vstd::prelude::*;

use crate::arrow_model::{ArrowTypeModel, FieldModel, TimeUnit};

verus! {

broadcast use vstd::std_specs::vec::group_vec_axioms;

/// The values of one Arrow column, slot by slot; a null slot holds a value
/// too (the default one where this library appended the null).
#[derive(Debug, PartialEq)]
pub enum ColumnValues {
    /// `Boolean`.
    Booleans(Vec<bool>),
    /// `Int32` and `Date32` (days since 1970-01-01).
    Int32s(Vec<i32>),
    /// `Int64`, and microsecond `Timestamp` and `Time64`.
    Int64s(Vec<i64>),
    /// `Float32` and `Float64`, each value held as the bits of the `f64` it
    /// is (a `Float32` value is narrowed where the column is handed to Arrow,
    /// and widened where it is taken from Arrow).
    Floats(Vec<u64>),
    /// `Utf8`.
    Texts(Vec<String>),
    /// `Decimal128`, unscaled.
    Decimals(Vec<i128>),
    /// `FixedSizeBinary(16)`.
    Uuids(Vec<[u8; 16]>),
    /// `Binary`.
    Binaries(Vec<Vec<u8>>),
    /// `List`: where each slot's elements end in the child column (they start
    /// where the previous slot's end), and the child column.
    Lists(Vec<usize>, Box<ColumnData>),
    /// `Struct`: one child column per field.
    Structs(Vec<ColumnData>),
    /// `Map`: where each slot's entries end, the key column and the value
    /// column.
    Maps(Vec<usize>, Box<ColumnData>, Box<ColumnData>),
    /// A column of a type whose values this library does not read.
    Unread,
}

/// One Arrow column: which slots hold a value (not a null), and the values.
#[derive(Debug, PartialEq)]
pub struct ColumnData {
    pub valid: Vec<bool>,
    pub values: ColumnValues,
}

/// The mathematical value of `ColumnValues`.
pub enum ValuesModel {
    Booleans(Seq<bool>),
    Int32s(Seq<i32>),
    Int64s(Seq<i64>),
    Floats(Seq<u64>),
    Texts(Seq<Seq<char>>),
    Decimals(Seq<i128>),
    Uuids(Seq<[u8; 16]>),
    Binaries(Seq<Seq<u8>>),
    Lists(Seq<usize>, Box<DataModel>),
    Structs(Seq<DataModel>),
    Maps(Seq<usize>, Box<DataModel>, Box<DataModel>),
    Unread,
}

/// The mathematical value of a `ColumnData`.
pub struct DataModel {
    pub valid: Seq<bool>,
    pub values: ValuesModel,
}

pub open spec fn data_model(d: ColumnData) -> DataModel
    decreases d,
{
    DataModel { valid: d.valid@, values: values_model(d.values) }
}

pub open spec fn values_model(v: ColumnValues) -> ValuesModel
    decreases v,
{
    match v {
        ColumnValues::Booleans(x) => ValuesModel::Booleans(x@),
        ColumnValues::Int32s(x) => ValuesModel::Int32s(x@),
        ColumnValues::Int64s(x) => ValuesModel::Int64s(x@),
        ColumnValues::Floats(x) => ValuesModel::Floats(x@),
        ColumnValues::Texts(x) => ValuesModel::Texts(x@.map_values(|s: String| s@)),
        ColumnValues::Decimals(x) => ValuesModel::Decimals(x@),
        ColumnValues::Uuids(x) => ValuesModel::Uuids(x@),
        ColumnValues::Binaries(x) => ValuesModel::Binaries(x@.map_values(|b: Vec<u8>| b@)),
        ColumnValues::Lists(ends, c) => ValuesModel::Lists(ends@, Box::new(data_model(*c))),
        ColumnValues::Structs(cs) => ValuesModel::Structs(datas_model(cs@)),
        ColumnValues::Maps(ends, k, v) => ValuesModel::Maps(
            ends@,
            Box::new(data_model(*k)),
            Box::new(data_model(*v)),
        ),
        ColumnValues::Unread => ValuesModel::Unread,
    }
}

pub open spec fn datas_model(cs: Seq<ColumnData>) -> Seq<DataModel>
    decreases cs,
{
    if cs.len() == 0 {
        Seq::empty()
    } else {
        datas_model(cs.drop_last()).push(data_model(cs.last()))
    }
}

impl View for ColumnData {
    type V = DataModel;

    open spec fn view(&self) -> DataModel {
        data_model(*self)
    }
}

pub proof fn lemma_datas_model(cs: Seq<ColumnData>)
    ensures
        datas_model(cs).len() == cs.len(),
        forall|i: int| 0 <= i < cs.len() ==> #[trigger] datas_model(cs)[i] == data_model(cs[i]),
    decreases cs.len(),
{
    if cs.len() > 0 {
        lemma_datas_model(cs.drop_last());
    }
}

pub proof fn lemma_datas_model_ext(a: Seq<ColumnData>, b: Seq<DataModel>)
    requires
        a.len() == b.len(),
        forall|i: int| 0 <= i < a.len() ==> #[trigger] data_model(a[i]) == b[i],
    ensures
        datas_model(a) == b,
{
    lemma_datas_model(a);
    assert(datas_model(a) =~= b);
}

/// Number of slots of a column.
pub open spec fn slots(d: DataModel) -> int {
    d.valid.len() as int
}

/// Where slot `i` of a list or map column starts in its child columns.
pub open spec fn slot_start(ends: Seq<usize>, i: int) -> int {
    if i == 0 {
        0
    } else {
        ends[i - 1] as int
    }
}

/// End offsets that never decrease and stay within `limit`.
pub open spec fn ends_fit(ends: Seq<usize>, limit: int) -> bool {
    &&& forall|i: int, j: int| 0 <= i <= j < ends.len() ==> ends[i] <= ends[j]
    &&& forall|i: int| 0 <= i < ends.len() ==> ends[i] <= limit
}

/// Whether the data of a column has the shape its Arrow type asks for, as
/// Arrow's own arrays of that type do: one value per slot of the variant the
/// type is held in, list and map offsets within their children, one child per
/// struct field with as many slots as the struct.
pub open spec fn fits(d: DataModel, t: ArrowTypeModel) -> bool
    decreases d, 0int,
{
    let n = d.valid.len();
    match t {
        ArrowTypeModel::Boolean => d.values matches ValuesModel::Booleans(x) && x.len() == n,
        ArrowTypeModel::Int32 | ArrowTypeModel::Date32 => d.values matches ValuesModel::Int32s(x) && x.len() == n,
        ArrowTypeModel::Int64 => d.values matches ValuesModel::Int64s(x) && x.len() == n,
        ArrowTypeModel::Timestamp(u, _) => u == TimeUnit::Microsecond ==> (d.values matches ValuesModel::Int64s(x)
            && x.len() == n),
        ArrowTypeModel::Time64(u) => u == TimeUnit::Microsecond ==> (d.values matches ValuesModel::Int64s(x) && x.len()
            == n),
        ArrowTypeModel::Float32 | ArrowTypeModel::Float64 => d.values matches ValuesModel::Floats(x) && x.len() == n,
        ArrowTypeModel::Utf8 => d.values matches ValuesModel::Texts(x) && x.len() == n,
        ArrowTypeModel::Decimal128(_, _) => d.values matches ValuesModel::Decimals(x) && x.len() == n,
        ArrowTypeModel::FixedSizeBinary(w) => w == 16 ==> (d.values matches ValuesModel::Uuids(x) && x.len() == n),
        ArrowTypeModel::Binary => d.values matches ValuesModel::Binaries(x) && x.len() == n,
        ArrowTypeModel::List(f) => match d.values {
            ValuesModel::Lists(ends, c) => ends.len() == n && ends_fit(ends, slots(*c)) && fits(*c, f.data_type),
            _ => false,
        },
        ArrowTypeModel::Struct(fs) => match d.values {
            ValuesModel::Structs(cs) => cs.len() == fs.len() && fits_all(cs, fs, n as int, cs.len() as int),
            _ => false,
        },
        ArrowTypeModel::MapOf(e, _) => match d.values {
            ValuesModel::Maps(ends, k, v) => ends.len() == n && match e.data_type {
                ArrowTypeModel::Struct(fs) => fs.len() >= 2 && ends_fit(ends, slots(*k)) && ends_fit(ends, slots(*v))
                    && fits(*k, fs[0].data_type) && fits(*v, fs[1].data_type),
                _ => true,
            },
            _ => false,
        },
        ArrowTypeModel::Other => true,
    }
}

/// The first `k` children of a struct column fit their fields and have as
/// many slots as the struct.
pub open spec fn fits_all(cs: Seq<DataModel>, fs: Seq<FieldModel>, n: int, k: int) -> bool
    decreases cs, k,
{
    if k <= 0 || k > cs.len() || k > fs.len() {
        k <= 0
    } else {
        fits_all(cs, fs, n, k - 1) && slots(cs[k - 1]) == n && fits(cs[k - 1], fs[k - 1].data_type)
    }
}

pub proof fn lemma_fits_all(cs: Seq<DataModel>, fs: Seq<FieldModel>, n: int, k: int, i: int)
    requires
        k <= cs.len(),
        k <= fs.len(),
        fits_all(cs, fs, n, k),
        0 <= i < k,
    ensures
        slots(cs[i]) == n,
        fits(cs[i], fs[i].data_type),
    decreases k,
{
    if i < k - 1 {
        lemma_fits_all(cs, fs, n, k - 1, i);
    }
}

} // verus!
