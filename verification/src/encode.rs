use vstd::prelude::*;

use crate::arrow_model::{ArrowField, ArrowType, ArrowTypeModel, FieldModel, TimeUnit, fields_model, lemma_fields_model};
use crate::decimal::{decimal_value, parse_decimal_to_i128};
use crate::error::{ErrorModel, ParquetError};
use crate::php::{array_get, lemma_entries_model, entries_model, key_of_text, lookup, KeyModel, PhpKey, PhpValue, ValueModel};
use crate::text::{append_chars, chars_of, chars_to_string, int_text, int_to_chars, parse_int};
use crate::temporal::{
    parse_i64_text, date_days, datetime_micros, parse_date_to_days, parse_datetime_to_micros, parse_time_to_micros, time_micros,
};
use crate::uuid_text::{parse_uuid, uuid_parse};
use vstd::string::StrSliceExecFns;
use vstd::utf8::encode_utf8;
use crate::nullability::{arrow_accepts, column_accepted};
use crate::column::{arrow_field_named, arrow_fields_of, arrow_type_of, ColumnModel, TypeModel};
use crate::column_data::{
    data_model, datas_model, lemma_datas_model, lemma_datas_model_ext, slots, values_model, ColumnData,
    ColumnValues, DataModel, ValuesModel,
};

verus! {

broadcast use vstd::std_specs::vec::group_vec_axioms;

/// Whether Arrow's `make_builder` makes a builder for this type (it panics on
/// the others): every type but `Other`, `Time64` only in micro- or
/// nanoseconds, a non-negative byte width, and maps whose entries are a
/// struct of at least two fields, all the way down.
pub open spec fn buildable(t: ArrowTypeModel) -> bool
    decreases t, 0int,
{
    match t {
        ArrowTypeModel::Other => false,
        ArrowTypeModel::Time64(u) => u == TimeUnit::Microsecond || u == TimeUnit::Nanosecond,
        ArrowTypeModel::FixedSizeBinary(w) => w >= 0,
        ArrowTypeModel::List(f) => buildable(f.data_type),
        ArrowTypeModel::Struct(fs) => all_buildable(fs, fs.len() as int),
        ArrowTypeModel::MapOf(e, _) => match e.data_type {
            ArrowTypeModel::Struct(fs) => fs.len() >= 2 && buildable(fs[0].data_type) && buildable(fs[1].data_type),
            _ => false,
        },
        _ => true,
    }
}

/// The first `k` fields have buildable types.
pub open spec fn all_buildable(fs: Seq<FieldModel>, k: int) -> bool
    decreases fs, k,
{
    if k <= 0 || k > fs.len() {
        k <= 0
    } else {
        all_buildable(fs, k - 1) && buildable(fs[k - 1].data_type)
    }
}

pub proof fn lemma_all_buildable(fs: Seq<FieldModel>, k: int, i: int)
    requires
        k <= fs.len(),
        all_buildable(fs, k),
        0 <= i < k,
    ensures
        buildable(fs[i].data_type),
    decreases k,
{
    if i < k - 1 {
        lemma_all_buildable(fs, k - 1, i);
    }
}

/// The empty column Arrow's `make_builder` starts from for a type.
pub open spec fn empty_data(t: ArrowTypeModel) -> DataModel
    decreases t, 0int,
{
    DataModel {
        valid: Seq::empty(),
        values: match t {
            ArrowTypeModel::Boolean => ValuesModel::Booleans(Seq::empty()),
            ArrowTypeModel::Int32 | ArrowTypeModel::Date32 => ValuesModel::Int32s(Seq::empty()),
            ArrowTypeModel::Int64 | ArrowTypeModel::Timestamp(_, _) | ArrowTypeModel::Time64(_) => ValuesModel::Int64s(
                Seq::empty(),
            ),
            ArrowTypeModel::Float32 | ArrowTypeModel::Float64 => ValuesModel::Floats(Seq::empty()),
            ArrowTypeModel::Utf8 => ValuesModel::Texts(Seq::empty()),
            ArrowTypeModel::Decimal128(_, _) => ValuesModel::Decimals(Seq::empty()),
            ArrowTypeModel::FixedSizeBinary(_) => ValuesModel::Uuids(Seq::empty()),
            ArrowTypeModel::Binary => ValuesModel::Binaries(Seq::empty()),
            ArrowTypeModel::List(f) => ValuesModel::Lists(Seq::empty(), Box::new(empty_data(f.data_type))),
            ArrowTypeModel::Struct(fs) => ValuesModel::Structs(empty_all(fs, fs.len() as int)),
            ArrowTypeModel::MapOf(e, _) => match e.data_type {
                ArrowTypeModel::Struct(fs) => if fs.len() >= 2 {
                    ValuesModel::Maps(
                        Seq::empty(),
                        Box::new(empty_data(fs[0].data_type)),
                        Box::new(empty_data(fs[1].data_type)),
                    )
                } else {
                    ValuesModel::Unread
                },
                _ => ValuesModel::Unread,
            },
            ArrowTypeModel::Other => ValuesModel::Unread,
        },
    }
}

/// The empty columns of the first `k` fields.
pub open spec fn empty_all(fs: Seq<FieldModel>, k: int) -> Seq<DataModel>
    decreases fs, k,
{
    if k <= 0 || k > fs.len() {
        Seq::empty()
    } else {
        empty_all(fs, k - 1).push(empty_data(fs[k - 1].data_type))
    }
}

pub proof fn lemma_empty_all(fs: Seq<FieldModel>, k: int)
    requires
        0 <= k <= fs.len(),
    ensures
        empty_all(fs, k).len() == k,
        forall|i: int| 0 <= i < k ==> #[trigger] empty_all(fs, k)[i] == empty_data(fs[i].data_type),
    decreases k,
{
    if k > 0 {
        lemma_empty_all(fs, k - 1);
    }
}

/// A new, empty column for a type (Arrow's `make_builder`).
pub fn new_builder(t: &ArrowType) -> (d: ColumnData)
    requires
        buildable(t@),
    ensures
        d@ == empty_data(t@),
    decreases t@,
{
    let values = match t {
        ArrowType::Boolean => ColumnValues::Booleans(Vec::new()),
        ArrowType::Int32 | ArrowType::Date32 => ColumnValues::Int32s(Vec::new()),
        ArrowType::Int64 | ArrowType::Timestamp(_, _) | ArrowType::Time64(_) => ColumnValues::Int64s(Vec::new()),
        ArrowType::Float32 | ArrowType::Float64 => ColumnValues::Floats(Vec::new()),
        ArrowType::Utf8 => ColumnValues::Texts(Vec::new()),
        ArrowType::Decimal128(_, _) => ColumnValues::Decimals(Vec::new()),
        ArrowType::FixedSizeBinary(_) => ColumnValues::Uuids(Vec::new()),
        ArrowType::Binary => ColumnValues::Binaries(Vec::new()),
        ArrowType::List(f) => ColumnValues::Lists(Vec::new(), Box::new(new_builder(&f.data_type))),
        ArrowType::Struct(fs) => {
            proof {
                lemma_fields_model(fs@);
            }
            ColumnValues::Structs(new_builders(fs))
        },
        ArrowType::MapOf(e, _) => match &e.data_type {
            ArrowType::Struct(fs) => {
                proof {
                    lemma_fields_model(fs@);
                    assert(e@.data_type == ArrowTypeModel::Struct(fields_model(fs@)));
                    assert(fields_model(fs@).len() >= 2);
                }
                ColumnValues::Maps(
                    Vec::new(),
                    Box::new(new_builder(&fs[0].data_type)),
                    Box::new(new_builder(&fs[1].data_type)),
                )
            },
            _ => ColumnValues::Unread,
        },
        ArrowType::Other => ColumnValues::Unread,
    };
    let d = ColumnData { valid: Vec::new(), values };
    proof {
        assert(d@.valid =~= Seq::<bool>::empty());
        match &d.values {
            ColumnValues::Texts(x) => {
                assert(x@.map_values(|s: String| s@) =~= Seq::<Seq<char>>::empty());
            },
            ColumnValues::Binaries(x) => {
                assert(x@.map_values(|b: Vec<u8>| b@) =~= Seq::<Seq<u8>>::empty());
            },
            _ => {},
        }
    }
    d
}

/// New, empty columns for a list of fields.
pub fn new_builders(fs: &Vec<ArrowField>) -> (r: Vec<ColumnData>)
    requires
        all_buildable(fields_model(fs@), fs.len() as int),
    ensures
        datas_model(r@) == empty_all(fields_model(fs@), fs.len() as int),
    decreases fields_model(fs@), 1int,
{
    let ghost fsm = fields_model(fs@);
    proof {
        lemma_fields_model(fs@);
        lemma_empty_all(fsm, fs.len() as int);
    }
    let mut r: Vec<ColumnData> = Vec::new();
    let mut k: usize = 0;
    while k < fs.len()
        invariant
            k <= fs.len(),
            fsm == fields_model(fs@),
            fsm.len() == fs.len(),
            forall|j: int| 0 <= j < fs.len() ==> #[trigger] fsm[j] == fs@[j]@,
            all_buildable(fsm, fs.len() as int),
            r.len() == k,
            forall|j: int| 0 <= j < k ==> #[trigger] data_model(r@[j]) == empty_data(fsm[j].data_type),
        decreases fs.len() - k,
    {
        proof {
            lemma_all_buildable(fsm, fs.len() as int, k as int);
            assert(decreases_to!(fsm => fsm[k as int]));
        }
        let d = new_builder(&fs[k].data_type);
        r.push(d);
        k = k + 1;
    }
    proof {
        lemma_datas_model_ext(r@, empty_all(fsm, fs.len() as int));
    }
    r
}

/// One value appended to a primitive, string or binary column.
pub enum Slot {
    Bool(bool),
    Int32(i32),
    Int64(i64),
    Float(u64),
    Text(String),
    Decimal(i128),
    Uuid([u8; 16]),
    Bytes(Vec<u8>),
}

/// The mathematical value of a `Slot`.
pub enum SlotModel {
    Bool(bool),
    Int32(i32),
    Int64(i64),
    Float(u64),
    Text(Seq<char>),
    Decimal(i128),
    Uuid([u8; 16]),
    Bytes(Seq<u8>),
}

impl View for Slot {
    type V = SlotModel;

    open spec fn view(&self) -> SlotModel {
        match *self {
            Slot::Bool(b) => SlotModel::Bool(b),
            Slot::Int32(n) => SlotModel::Int32(n),
            Slot::Int64(n) => SlotModel::Int64(n),
            Slot::Float(b) => SlotModel::Float(b),
            Slot::Text(s) => SlotModel::Text(s@),
            Slot::Decimal(n) => SlotModel::Decimal(n),
            Slot::Uuid(b) => SlotModel::Uuid(b),
            Slot::Bytes(b) => SlotModel::Bytes(b@),
        }
    }
}

/// `d` with one more slot holding `s` (when the column holds values of that
/// kind; otherwise `d` as it is).
pub open spec fn slot_pushed(d: DataModel, s: SlotModel) -> DataModel {
    let valid = d.valid.push(true);
    match (d.values, s) {
        (ValuesModel::Booleans(x), SlotModel::Bool(b)) => DataModel { valid, values: ValuesModel::Booleans(x.push(b)) },
        (ValuesModel::Int32s(x), SlotModel::Int32(n)) => DataModel { valid, values: ValuesModel::Int32s(x.push(n)) },
        (ValuesModel::Int64s(x), SlotModel::Int64(n)) => DataModel { valid, values: ValuesModel::Int64s(x.push(n)) },
        (ValuesModel::Floats(x), SlotModel::Float(b)) => DataModel { valid, values: ValuesModel::Floats(x.push(b)) },
        (ValuesModel::Texts(x), SlotModel::Text(t)) => DataModel { valid, values: ValuesModel::Texts(x.push(t)) },
        (ValuesModel::Decimals(x), SlotModel::Decimal(n)) => DataModel {
            valid,
            values: ValuesModel::Decimals(x.push(n)),
        },
        (ValuesModel::Uuids(x), SlotModel::Uuid(b)) => DataModel { valid, values: ValuesModel::Uuids(x.push(b)) },
        (ValuesModel::Binaries(x), SlotModel::Bytes(b)) => DataModel {
            valid,
            values: ValuesModel::Binaries(x.push(b)),
        },
        _ => d,
    }
}

/// `d` with one more null slot holding the default value of its kind (what
/// Arrow's `append_null` does to a primitive, string or binary builder);
/// other columns as they are.
pub open spec fn default_pushed(d: DataModel) -> DataModel {
    let valid = d.valid.push(false);
    match d.values {
        ValuesModel::Booleans(x) => DataModel { valid, values: ValuesModel::Booleans(x.push(false)) },
        ValuesModel::Int32s(x) => DataModel { valid, values: ValuesModel::Int32s(x.push(0)) },
        ValuesModel::Int64s(x) => DataModel { valid, values: ValuesModel::Int64s(x.push(0)) },
        ValuesModel::Floats(x) => DataModel { valid, values: ValuesModel::Floats(x.push(0)) },
        ValuesModel::Texts(x) => DataModel { valid, values: ValuesModel::Texts(x.push(Seq::empty())) },
        ValuesModel::Decimals(x) => DataModel { valid, values: ValuesModel::Decimals(x.push(0)) },
        ValuesModel::Uuids(x) => DataModel { valid, values: ValuesModel::Uuids(x.push(zero_uuid())) },
        ValuesModel::Binaries(x) => DataModel { valid, values: ValuesModel::Binaries(x.push(Seq::empty())) },
        _ => d,
    }
}

pub open spec fn zero_uuid() -> [u8; 16] {
    [0u8, 0u8, 0u8, 0u8, 0u8, 0u8, 0u8, 0u8, 0u8, 0u8, 0u8, 0u8, 0u8, 0u8, 0u8, 0u8]
}

/// A null appended to a column of type `t` (the nested builders' way): a
/// default-valued null slot for primitive, string, binary and UUID types
/// (only microsecond times and timestamps, only 16-byte fixed binary), an empty null slot for a list, a null
/// in every child and then in the struct for a struct, an empty null slot for
/// a map whose keys and values are as many (nothing otherwise, the error
/// being dropped); nothing for other types.
pub open spec fn null_appended(d: DataModel, t: ArrowTypeModel) -> DataModel
    decreases t, 0int,
{
    match t {
        ArrowTypeModel::Boolean | ArrowTypeModel::Int32 | ArrowTypeModel::Int64 | ArrowTypeModel::Float32
        | ArrowTypeModel::Float64 | ArrowTypeModel::Utf8 | ArrowTypeModel::Date32 | ArrowTypeModel::Decimal128(_, _)
        | ArrowTypeModel::Binary => default_pushed(d),
        ArrowTypeModel::Timestamp(u, _) => if u == TimeUnit::Microsecond {
            default_pushed(d)
        } else {
            d
        },
        ArrowTypeModel::Time64(u) => if u == TimeUnit::Microsecond {
            default_pushed(d)
        } else {
            d
        },
        ArrowTypeModel::FixedSizeBinary(w) => if w == 16 {
            default_pushed(d)
        } else {
            d
        },
        ArrowTypeModel::List(_) => match d.values {
            ValuesModel::Lists(ends, c) => DataModel {
                valid: d.valid.push(false),
                values: ValuesModel::Lists(ends.push(slots(*c) as usize), c),
            },
            _ => d,
        },
        ArrowTypeModel::Struct(fs) => match d.values {
            ValuesModel::Structs(cs) => DataModel {
                valid: d.valid.push(false),
                values: ValuesModel::Structs(nulls_appended(cs, fs, min_len(cs.len(), fs.len()))),
            },
            _ => d,
        },
        ArrowTypeModel::MapOf(_, _) => match d.values {
            ValuesModel::Maps(ends, k, v) => if slots(*k) == slots(*v) {
                DataModel { valid: d.valid.push(false), values: ValuesModel::Maps(ends.push(slots(*k) as usize), k, v) }
            } else {
                d
            },
            _ => d,
        },
        _ => d,
    }
}

pub open spec fn min_len(a: nat, b: nat) -> int {
    if a < b {
        a as int
    } else {
        b as int
    }
}

/// A null appended to each of the first `k` children of a struct.
pub open spec fn nulls_appended(cs: Seq<DataModel>, fs: Seq<FieldModel>, k: int) -> Seq<DataModel>
    decreases fs, k,
{
    if k <= 0 || k > cs.len() || k > fs.len() {
        cs
    } else {
        let cs1 = nulls_appended(cs, fs, k - 1);
        cs1.update(k - 1, null_appended(cs1[k - 1], fs[k - 1].data_type))
    }
}

pub proof fn lemma_nulls_appended_len(cs: Seq<DataModel>, fs: Seq<FieldModel>, k: int)
    ensures
        nulls_appended(cs, fs, k).len() == cs.len(),
    decreases k,
{
    if !(k <= 0 || k > cs.len() || k > fs.len()) {
        lemma_nulls_appended_len(cs, fs, k - 1);
    }
}

/// Appends a slot to a column of the matching kind.
fn push_slot(b: &mut ColumnData, s: Slot)
    ensures
        final(b)@ == slot_pushed(old(b)@, s@),
{
    let ghost d = old(b)@;
    let ghost sm = s@;
    match (&mut b.values, s) {
        (ColumnValues::Booleans(x), Slot::Bool(v)) => x.push(v),
        (ColumnValues::Int32s(x), Slot::Int32(v)) => x.push(v),
        (ColumnValues::Int64s(x), Slot::Int64(v)) => x.push(v),
        (ColumnValues::Floats(x), Slot::Float(v)) => x.push(v),
        (ColumnValues::Texts(x), Slot::Text(v)) => {
            let ghost before = x@;
            let ghost t = v@;
            x.push(v);
            proof {
                assert(x@.map_values(|s: String| s@) =~= before.map_values(|s: String| s@).push(t));
            }
        },
        (ColumnValues::Decimals(x), Slot::Decimal(v)) => x.push(v),
        (ColumnValues::Uuids(x), Slot::Uuid(v)) => x.push(v),
        (ColumnValues::Binaries(x), Slot::Bytes(v)) => {
            let ghost before = x@;
            let ghost t = v@;
            x.push(v);
            proof {
                assert(x@.map_values(|b: Vec<u8>| b@) =~= before.map_values(|b: Vec<u8>| b@).push(t));
            }
        },
        _ => {
            return;
        },
    }
    b.valid.push(true);
}

/// The model of a column given by its validity and values.
pub open spec fn parts_model(valid: Seq<bool>, values: ColumnValues) -> DataModel {
    DataModel { valid, values: values_model(values) }
}

/// Appends a default-valued null slot to a primitive, string or binary
/// column held as its validity and values.
fn push_default(valid: &mut Vec<bool>, values: &mut ColumnValues)
    ensures
        default_pushed(parts_model(old(valid)@, *old(values))) == parts_model(final(valid)@, *final(values)),
{
    match values {
        ColumnValues::Booleans(x) => x.push(false),
        ColumnValues::Int32s(x) => x.push(0),
        ColumnValues::Int64s(x) => x.push(0),
        ColumnValues::Floats(x) => x.push(0),
        ColumnValues::Texts(x) => {
            let ghost before = x@;
            x.push(String::new());
            proof {
                assert(x@.map_values(|s: String| s@) =~= before.map_values(|s: String| s@).push(Seq::empty()));
            }
        },
        ColumnValues::Decimals(x) => x.push(0),
        ColumnValues::Uuids(x) => x.push([0u8, 0u8, 0u8, 0u8, 0u8, 0u8, 0u8, 0u8, 0u8, 0u8, 0u8, 0u8, 0u8, 0u8, 0u8, 0u8]),
        ColumnValues::Binaries(x) => {
            let ghost before = x@;
            x.push(Vec::new());
            proof {
                assert(x@.map_values(|b: Vec<u8>| b@) =~= before.map_values(|b: Vec<u8>| b@).push(Seq::empty()));
            }
        },
        _ => {
            return;
        },
    }
    valid.push(false);
}

/// Appends a null to a column of type `t` as nested builders do
/// (`null_appended`).
fn append_null_to_builder(b: &mut ColumnData, t: &ArrowType)
    ensures
        final(b)@ == null_appended(old(b)@, t@),
    decreases t@, 0int,
{
    match t {
        ArrowType::Boolean | ArrowType::Int32 | ArrowType::Int64 | ArrowType::Float32 | ArrowType::Float64
        | ArrowType::Utf8 | ArrowType::Date32 | ArrowType::Decimal128(_, _) | ArrowType::Binary => {
            push_default(&mut b.valid, &mut b.values);
            assert(b@ == null_appended(old(b)@, t@));
        },
        ArrowType::Timestamp(u, _) => {
            if *u == TimeUnit::Microsecond {
                push_default(&mut b.valid, &mut b.values);
            }
            assert(b@ == null_appended(old(b)@, t@));
        },
        ArrowType::Time64(u) => {
            if *u == TimeUnit::Microsecond {
                push_default(&mut b.valid, &mut b.values);
            }
            assert(b@ == null_appended(old(b)@, t@));
        },
        ArrowType::FixedSizeBinary(w) => {
            if *w == 16 {
                push_default(&mut b.valid, &mut b.values);
            }
            assert(b@ == null_appended(old(b)@, t@));
        },
        ArrowType::List(_) => {
            let mut values = ColumnValues::Unread;
            std::mem::swap(&mut values, &mut b.values);
            assert(values_model(values) == old(b)@.values);
            assert(b.valid@ == old(b)@.valid);
            match values {
                ColumnValues::Lists(mut ends, c) => {
                    let ghost e0 = ends@;
                    ends.push(c.valid.len());
                    assert(ends@ == e0.push(slots(c@) as usize));
                    b.values = ColumnValues::Lists(ends, c);
                    assert(values_model(b.values) == ValuesModel::Lists(e0.push(slots(c@) as usize), Box::new(c@)));
                    b.valid.push(false);
                    assert(b@.valid == old(b)@.valid.push(false));
                },
                other => {
                    b.values = other;
                    assert(b@ == old(b)@);
                },
            }
            assert(b@ == null_appended(old(b)@, t@));
        },
        ArrowType::Struct(fs) => {
            let mut values = ColumnValues::Unread;
            std::mem::swap(&mut values, &mut b.values);
            match values {
                ColumnValues::Structs(mut cs) => {
                    proof {
                        lemma_datas_model(cs@);
                        lemma_fields_model(fs@);
                    }
                    append_nulls(&mut cs, fs);
                    b.values = ColumnValues::Structs(cs);
                    b.valid.push(false);
                },
                other => {
                    b.values = other;
                },
            }
            assert(b@ == null_appended(old(b)@, t@));
        },
        ArrowType::MapOf(_, _) => {
            let mut values = ColumnValues::Unread;
            std::mem::swap(&mut values, &mut b.values);
            match values {
                ColumnValues::Maps(mut ends, k, v) => {
                    if k.valid.len() == v.valid.len() {
                        ends.push(k.valid.len());
                        b.values = ColumnValues::Maps(ends, k, v);
                        b.valid.push(false);
                    } else {
                        b.values = ColumnValues::Maps(ends, k, v);
                    }
                },
                other => {
                    b.values = other;
                },
            }
            assert(b@ == null_appended(old(b)@, t@));
        },
        _ => {
            assert(b@ == null_appended(old(b)@, t@));
        },
    }
}

/// Appends a null to each child of a struct.
fn append_nulls(cs: &mut Vec<ColumnData>, fs: &Vec<ArrowField>)
    ensures
        datas_model(final(cs)@) == nulls_appended(
            datas_model(old(cs)@),
            fields_model(fs@),
            min_len(old(cs)@.len(), fs@.len()),
        ),
    decreases fields_model(fs@), 1int,
{
    let ghost fsm = fields_model(fs@);
    let ghost start = datas_model(cs@);
    proof {
        lemma_fields_model(fs@);
        lemma_datas_model(cs@);
    }
    let n: usize = if cs.len() < fs.len() { cs.len() } else { fs.len() };
    let mut k: usize = 0;
    while k < n
        invariant
            k <= n,
            n == min_len(start.len(), fsm.len()),
            fsm == fields_model(fs@),
            fsm.len() == fs.len(),
            start.len() == cs.len(),
            forall|j: int| 0 <= j < fs.len() ==> #[trigger] fsm[j] == fs@[j]@,
            datas_model(cs@) == nulls_appended(start, fsm, k as int),
        decreases n - k,
    {
        proof {
            lemma_datas_model(cs@);
            lemma_nulls_appended_len(start, fsm, k as int);
            assert(decreases_to!(fsm => fsm[k as int].data_type));
            assert(fsm[k as int].data_type == fs@[k as int].data_type@);
        }
        let ghost before = cs@;
        append_null_to_builder(&mut cs[k], &fs[k].data_type);
        proof {
            lemma_datas_model(before);
            lemma_datas_model_ext(cs@, datas_model(before).update(k as int, cs@[k as int]@));
        }
        k = k + 1;
    }
}

/// A `TypeMismatch` error: the column, what was expected, the row.
pub open spec fn mismatch(col: Seq<char>, expected: Seq<char>, row: usize) -> ErrorModel {
    ErrorModel::TypeMismatch { column: col, expected, row }
}

/// The slot a non-null PHP value makes in a nested column of a primitive,
/// string or binary type (the nested builders' conversions and errors).
pub open spec fn nested_slot(v: ValueModel, t: ArrowTypeModel, col: Seq<char>, row: usize) -> Result<
    SlotModel,
    ErrorModel,
> {
    match t {
        ArrowTypeModel::Boolean => match v {
            ValueModel::Bool(b) => Ok(SlotModel::Bool(b)),
            _ => Err(mismatch(col, "boolean"@, row)),
        },
        ArrowTypeModel::Int32 => match v {
            ValueModel::Long(n) => if i32::MIN <= n <= i32::MAX {
                Ok(SlotModel::Int32(n as i32))
            } else {
                Err(mismatch(col, "int32"@, row))
            },
            _ => Err(mismatch(col, "int32"@, row)),
        },
        ArrowTypeModel::Int64 => match v {
            ValueModel::Long(n) => Ok(SlotModel::Int64(n)),
            _ => Err(mismatch(col, "int64"@, row)),
        },
        ArrowTypeModel::Float32 => match v {
            ValueModel::Double(b) => Ok(SlotModel::Float(b)),
            _ => Err(mismatch(col, "float"@, row)),
        },
        ArrowTypeModel::Float64 => match v {
            ValueModel::Double(b) => Ok(SlotModel::Float(b)),
            _ => Err(mismatch(col, "double"@, row)),
        },
        ArrowTypeModel::Utf8 => match v {
            ValueModel::Str(s) => Ok(SlotModel::Text(s)),
            _ => Err(mismatch(col, "string"@, row)),
        },
        ArrowTypeModel::Date32 => match v {
            ValueModel::Str(s) => match date_days(s) {
                Some(n) => Ok(SlotModel::Int32(n as i32)),
                None => Err(mismatch(col, "date (Y-m-d)"@, row)),
            },
            _ => Err(mismatch(col, "date"@, row)),
        },
        ArrowTypeModel::Timestamp(u, _) => if u == TimeUnit::Microsecond {
            match v {
                ValueModel::Str(s) => match datetime_micros(s) {
                    Some(m) => Ok(SlotModel::Int64(m)),
                    None => Err(mismatch(col, "dateTime (ISO 8601)"@, row)),
                },
                _ => Err(mismatch(col, "dateTime"@, row)),
            }
        } else {
            Err(ErrorModel::UnsupportedNestedType { column: col, data_type: t })
        },
        ArrowTypeModel::Time64(u) => if u == TimeUnit::Microsecond {
            match v {
                ValueModel::Str(s) => match time_micros(s) {
                    Some(m) => Ok(SlotModel::Int64(m as i64)),
                    None => Err(mismatch(col, "time (H:i:s)"@, row)),
                },
                _ => Err(mismatch(col, "time"@, row)),
            }
        } else {
            Err(ErrorModel::UnsupportedNestedType { column: col, data_type: t })
        },
        ArrowTypeModel::Decimal128(_, scale) => match v {
            ValueModel::Str(s) => match decimal_value(s, scale as int) {
                Some(x) => Ok(SlotModel::Decimal(x as i128)),
                None => Err(mismatch(col, "decimal"@, row)),
            },
            _ => Err(mismatch(col, "decimal"@, row)),
        },
        ArrowTypeModel::FixedSizeBinary(w) => if w == 16 {
            match v {
                ValueModel::Str(s) => match uuid_parse(s) {
                    Some(b) => Ok(SlotModel::Uuid(b)),
                    None => Err(mismatch(col, "uuid"@, row)),
                },
                _ => Err(mismatch(col, "uuid"@, row)),
            }
        } else {
            Err(ErrorModel::UnsupportedNestedType { column: col, data_type: t })
        },
        ArrowTypeModel::Binary => match v {
            ValueModel::Str(s) => Ok(SlotModel::Bytes(encode_utf8(s))),
            _ => Err(mismatch(col, "binary"@, row)),
        },
        _ => Err(ErrorModel::UnsupportedNestedType { column: col, data_type: t }),
    }
}

/// `Column '{col}' expected {expected} in row {row}`.
fn type_error(col: &str, expected: &str, row: usize) -> (e: ParquetError)
    ensures
        e@ == mismatch(col@, expected@, row),
{
    ParquetError::TypeMismatch { column: col.to_owned(), expected: expected.to_owned(), row }
}

/// The slot a non-null PHP value makes in a nested column of a primitive,
/// string or binary type.
fn nested_slot_of(v: &PhpValue, t: &ArrowType, col: &str, row: usize) -> (r: Result<Slot, ParquetError>)
    ensures
        match nested_slot(v@, t@, col@, row) {
            Ok(s) => r matches Ok(x) && x@ == s,
            Err(e) => r matches Err(x) && x@ == e,
        },
{
    match t {
        ArrowType::Boolean => match v {
            PhpValue::Bool(b) => Ok(Slot::Bool(*b)),
            _ => Err(type_error(col, "boolean", row)),
        },
        ArrowType::Int32 => match v {
            PhpValue::Long(n) => {
                if i32::MIN as i64 <= *n && *n <= i32::MAX as i64 {
                    Ok(Slot::Int32(*n as i32))
                } else {
                    Err(type_error(col, "int32", row))
                }
            },
            _ => Err(type_error(col, "int32", row)),
        },
        ArrowType::Int64 => match v {
            PhpValue::Long(n) => Ok(Slot::Int64(*n)),
            _ => Err(type_error(col, "int64", row)),
        },
        ArrowType::Float32 => match v {
            PhpValue::Double(b) => Ok(Slot::Float(*b)),
            _ => Err(type_error(col, "float", row)),
        },
        ArrowType::Float64 => match v {
            PhpValue::Double(b) => Ok(Slot::Float(*b)),
            _ => Err(type_error(col, "double", row)),
        },
        ArrowType::Utf8 => match v {
            PhpValue::Str(s) => Ok(Slot::Text(s.clone())),
            _ => Err(type_error(col, "string", row)),
        },
        ArrowType::Date32 => match v {
            PhpValue::Str(s) => match parse_date_to_days(s.as_str()) {
                Some(n) => Ok(Slot::Int32(n)),
                None => Err(type_error(col, "date (Y-m-d)", row)),
            },
            _ => Err(type_error(col, "date", row)),
        },
        ArrowType::Timestamp(u, _) => {
            if *u == TimeUnit::Microsecond {
                match v {
                    PhpValue::Str(s) => match parse_datetime_to_micros(s.as_str()) {
                        Some(m) => Ok(Slot::Int64(m)),
                        None => Err(type_error(col, "dateTime (ISO 8601)", row)),
                    },
                    _ => Err(type_error(col, "dateTime", row)),
                }
            } else {
                Err(ParquetError::UnsupportedNestedType { column: col.to_owned(), data_type: t.duplicate() })
            }
        },
        ArrowType::Time64(u) => {
            if *u == TimeUnit::Microsecond {
                match v {
                    PhpValue::Str(s) => match parse_time_to_micros(s.as_str()) {
                        Some(m) => Ok(Slot::Int64(m)),
                        None => Err(type_error(col, "time (H:i:s)", row)),
                    },
                    _ => Err(type_error(col, "time", row)),
                }
            } else {
                Err(ParquetError::UnsupportedNestedType { column: col.to_owned(), data_type: t.duplicate() })
            }
        },
        ArrowType::Decimal128(_, scale) => match v {
            PhpValue::Str(s) => match parse_decimal_to_i128(s.as_str(), *scale) {
                Some(x) => Ok(Slot::Decimal(x)),
                None => Err(type_error(col, "decimal", row)),
            },
            _ => Err(type_error(col, "decimal", row)),
        },
        ArrowType::FixedSizeBinary(w) => {
            if *w == 16 {
                match v {
                    PhpValue::Str(s) => match parse_uuid(s.as_str()) {
                        Some(b) => Ok(Slot::Uuid(b)),
                        None => Err(type_error(col, "uuid", row)),
                    },
                    _ => Err(type_error(col, "uuid", row)),
                }
            } else {
                Err(ParquetError::UnsupportedNestedType { column: col.to_owned(), data_type: t.duplicate() })
            }
        },
        ArrowType::Binary => match v {
            PhpValue::Str(s) => Ok(Slot::Bytes(s.as_str().as_bytes_vec())),
            _ => Err(type_error(col, "binary", row)),
        },
        _ => Err(ParquetError::UnsupportedNestedType { column: col.to_owned(), data_type: t.duplicate() }),
    }
}

/// The value a struct field takes from a row's array: the value under the
/// field's name, null where there is none.
pub open spec fn field_input(es: Seq<(KeyModel, ValueModel)>, name: Seq<char>) -> ValueModel {
    match lookup(es, key_of_text(name)) {
        Some(v) => v,
        None => ValueModel::Null,
    }
}

/// The value a map key is written as: the key's text, read as an integer for
/// integer key types (null where it is not one).
pub open spec fn map_key(k: KeyModel, kt: ArrowTypeModel) -> ValueModel {
    let text = match k {
        KeyModel::Long(n) => int_text(n as int),
        KeyModel::Str(s) => s,
    };
    match kt {
        ArrowTypeModel::Int32 | ArrowTypeModel::Int64 => match parse_i64_text(text) {
            Some(n) => ValueModel::Long(n as i64),
            None => ValueModel::Null,
        },
        _ => ValueModel::Str(text),
    }
}

/// Whether some entry of an array holds null.
pub open spec fn has_null_value(es: Seq<(KeyModel, ValueModel)>) -> bool {
    exists|j: int| 0 <= j < es.len() && #[trigger] es[j].1 == ValueModel::Null
}

/// Whether some entry of an array holds null (`has_null_value`).
fn any_null_value(es: &Vec<(PhpKey, PhpValue)>) -> (b: bool)
    ensures
        b == has_null_value(entries_model(es@)),
{
    proof {
        lemma_entries_model(es@);
    }
    let ghost esm = entries_model(es@);
    let mut j: usize = 0;
    while j < es.len()
        invariant
            j <= es.len(),
            esm == entries_model(es@),
            esm.len() == es.len(),
            forall|i: int| 0 <= i < es.len() ==> #[trigger] esm[i] == (es@[i].0@, es@[i].1@),
            forall|i: int| 0 <= i < j ==> esm[i].1 != ValueModel::Null,
        decreases es.len() - j,
    {
        if matches!(es[j].1, PhpValue::Null) {
            assert(esm[j as int].1 == ValueModel::Null);
            return true;
        }
        assert(esm[j as int].1 != ValueModel::Null);
        j = j + 1;
    }
    false
}

/// A PHP value appended to a nested column of type `t` (the nested
/// builders' way): a null as `null_appended` says; a list's elements one by
/// one into its child, then a valid slot; a struct's fields by name (null
/// where missing) into its children, then a valid slot; a map's entries, key
/// then value, then a valid slot if keys and values are as many; other types
/// as `nested_slot` says.
pub open spec fn value_appended(d: DataModel, v: ValueModel, t: ArrowTypeModel, col: Seq<char>, row: usize) -> Result<
    DataModel,
    ErrorModel,
>
    decreases t, 0int,
{
    if v == ValueModel::Null {
        Ok(null_appended(d, t))
    } else {
        match t {
            ArrowTypeModel::List(ef) => match d.values {
                ValuesModel::Lists(ends, c) => match v {
                    ValueModel::Array(es) => if !ef.nullable && has_null_value(es) {
                        Err(ErrorModel::MissingRequired { column: col + seq!['.'] + ef.name, row })
                    } else {
                        match elements_appended(*c, es, ef.data_type, col, row, es.len() as int) {
                            Ok(c2) => Ok(
                                DataModel {
                                    valid: d.valid.push(true),
                                    values: ValuesModel::Lists(ends.push(slots(c2) as usize), Box::new(c2)),
                                },
                            ),
                            Err(e) => Err(e),
                        }
                    },
                    _ => Err(mismatch(col, "array (for list)"@, row)),
                },
                _ => Ok(d),
            },
            ArrowTypeModel::Struct(fs) => match d.values {
                ValuesModel::Structs(cs) => match v {
                    ValueModel::Array(es) => match fields_appended(cs, fs, es, col, false, row, min_len(cs.len(), fs.len())) {
                        Ok(cs2) => Ok(DataModel { valid: d.valid.push(true), values: ValuesModel::Structs(cs2) }),
                        Err(e) => Err(e),
                    },
                    _ => Err(mismatch(col, "array (for struct)"@, row)),
                },
                _ => Ok(d),
            },
            ArrowTypeModel::MapOf(e, _) => match e.data_type {
                ArrowTypeModel::Struct(sfs) => if sfs.len() < 2 {
                    Ok(d)
                } else {
                    match d.values {
                        ValuesModel::Maps(ends, k, vv) => match v {
                            ValueModel::Array(es) => if !sfs[1].nullable && has_null_value(es) {
                                Err(ErrorModel::MissingRequired { column: col + seq!['.'] + sfs[1].name, row })
                            } else {
                                match entries_appended(*k, *vv, es, sfs, col, col, row, es.len() as int) {
                                Ok(kv) => if slots(kv.0) == slots(kv.1) {
                                    Ok(
                                        DataModel {
                                            valid: d.valid.push(true),
                                            values: ValuesModel::Maps(
                                                ends.push(slots(kv.0) as usize),
                                                Box::new(kv.0),
                                                Box::new(kv.1),
                                            ),
                                        },
                                    )
                                } else {
                                    Err(
                                        ErrorModel::MapLengthMismatch {
                                            column: col,
                                            row,
                                            keys: slots(kv.0) as usize,
                                            values: slots(kv.1) as usize,
                                            valid: true,
                                            nested: true,
                                        },
                                    )
                                },
                                Err(e) => Err(e),
                            }
                            },
                            _ => Err(mismatch(col, "array (for map)"@, row)),
                        },
                        _ => Ok(d),
                    }
                },
                _ => Err(ErrorModel::MapEntriesNotStruct { column: col, nested: true }),
            },
            _ => match nested_slot(v, t, col, row) {
                Ok(s) => Ok(slot_pushed(d, s)),
                Err(e) => Err(e),
            },
        }
    }
}

/// The first `k` elements of a list appended to its child column.
pub open spec fn elements_appended(
    c: DataModel,
    es: Seq<(KeyModel, ValueModel)>,
    et: ArrowTypeModel,
    col: Seq<char>,
    row: usize,
    k: int,
) -> Result<DataModel, ErrorModel>
    decreases et, k,
{
    if k <= 0 || k > es.len() {
        Ok(c)
    } else {
        match elements_appended(c, es, et, col, row, k - 1) {
            Ok(c1) => value_appended(c1, es[k - 1].1, et, col, row),
            Err(e) => Err(e),
        }
    }
}

/// The column name a struct field's errors carry: the struct's own name for
/// a nested struct, `struct.field` for a top-level one.
pub open spec fn child_col(col: Seq<char>, name: Seq<char>, top: bool) -> Seq<char> {
    if top {
        col + seq!['.'] + name
    } else {
        col
    }
}

/// The first `k` fields of a struct value appended to its children; a
/// required field that the value lacks or holds as null is refused, named
/// `struct.field`.
pub open spec fn fields_appended(
    cs: Seq<DataModel>,
    fs: Seq<FieldModel>,
    es: Seq<(KeyModel, ValueModel)>,
    col: Seq<char>,
    top: bool,
    row: usize,
    k: int,
) -> Result<Seq<DataModel>, ErrorModel>
    decreases fs, k,
{
    if k <= 0 || k > cs.len() || k > fs.len() {
        Ok(cs)
    } else {
        match fields_appended(cs, fs, es, col, top, row, k - 1) {
            Ok(cs1) => if field_input(es, fs[k - 1].name) == ValueModel::Null && !fs[k - 1].nullable {
                Err(ErrorModel::MissingRequired { column: col + seq!['.'] + fs[k - 1].name, row })
            } else {
                match value_appended(
                    cs1[k - 1],
                    field_input(es, fs[k - 1].name),
                    fs[k - 1].data_type,
                    child_col(col, fs[k - 1].name, top),
                    row,
                ) {
                    Ok(c2) => Ok(cs1.update(k - 1, c2)),
                    Err(e) => Err(e),
                }
            },
            Err(e) => Err(e),
        }
    }
}

/// The first `k` entries of a map value appended to its key and value
/// columns, key first.
pub open spec fn entries_appended(
    kd: DataModel,
    vd: DataModel,
    es: Seq<(KeyModel, ValueModel)>,
    sfs: Seq<FieldModel>,
    kcol: Seq<char>,
    vcol: Seq<char>,
    row: usize,
    k: int,
) -> Result<(DataModel, DataModel), ErrorModel>
    decreases sfs, k,
{
    if k <= 0 || k > es.len() || sfs.len() < 2 {
        Ok((kd, vd))
    } else {
        match entries_appended(kd, vd, es, sfs, kcol, vcol, row, k - 1) {
            Err(e) => Err(e),
            Ok(kv) => match value_appended(kv.0, map_key(es[k - 1].0, sfs[0].data_type), sfs[0].data_type, kcol, row) {
                Err(e) => Err(e),
                Ok(k2) => match value_appended(kv.1, es[k - 1].1, sfs[1].data_type, vcol, row) {
                    Err(e) => Err(e),
                    Ok(v2) => Ok((k2, v2)),
                },
            },
        }
    }
}

proof fn lemma_elements_err(
    c: DataModel,
    es: Seq<(KeyModel, ValueModel)>,
    et: ArrowTypeModel,
    col: Seq<char>,
    row: usize,
    j: int,
    k: int,
)
    requires
        0 <= j <= k <= es.len(),
        elements_appended(c, es, et, col, row, j) is Err,
    ensures
        elements_appended(c, es, et, col, row, k) == elements_appended(c, es, et, col, row, j),
    decreases k - j,
{
    if k > j {
        lemma_elements_err(c, es, et, col, row, j, k - 1);
    }
}

proof fn lemma_fields_err(
    cs: Seq<DataModel>,
    fs: Seq<FieldModel>,
    es: Seq<(KeyModel, ValueModel)>,
    col: Seq<char>,
    top: bool,
    row: usize,
    j: int,
    k: int,
)
    requires
        0 <= j <= k <= cs.len(),
        k <= fs.len(),
        fields_appended(cs, fs, es, col, top, row, j) is Err,
    ensures
        fields_appended(cs, fs, es, col, top, row, k) == fields_appended(cs, fs, es, col, top, row, j),
    decreases k - j,
{
    if k > j {
        lemma_fields_err(cs, fs, es, col, top, row, j, k - 1);
    }
}

proof fn lemma_fields_len(
    cs: Seq<DataModel>,
    fs: Seq<FieldModel>,
    es: Seq<(KeyModel, ValueModel)>,
    col: Seq<char>,
    top: bool,
    row: usize,
    k: int,
)
    ensures
        fields_appended(cs, fs, es, col, top, row, k) matches Ok(cs2) ==> cs2.len() == cs.len(),
    decreases k,
{
    if !(k <= 0 || k > cs.len() || k > fs.len()) {
        lemma_fields_len(cs, fs, es, col, top, row, k - 1);
    }
}

proof fn lemma_entries_err(
    kd: DataModel,
    vd: DataModel,
    es: Seq<(KeyModel, ValueModel)>,
    sfs: Seq<FieldModel>,
    kcol: Seq<char>,
    vcol: Seq<char>,
    row: usize,
    j: int,
    k: int,
)
    requires
        0 <= j <= k <= es.len(),
        sfs.len() >= 2,
        entries_appended(kd, vd, es, sfs, kcol, vcol, row, j) is Err,
    ensures
        entries_appended(kd, vd, es, sfs, kcol, vcol, row, k) == entries_appended(kd, vd, es, sfs, kcol, vcol, row, j),
    decreases k - j,
{
    if k > j {
        lemma_entries_err(kd, vd, es, sfs, kcol, vcol, row, j, k - 1);
    }
}

/// The value a map key is written as (`map_key`).
fn map_key_value(k: &PhpKey, kt: &ArrowType) -> (v: PhpValue)
    ensures
        v@ == map_key(k@, kt@),
{
    let text = match k {
        PhpKey::Long(n) => chars_to_string(&int_to_chars(*n as i128)),
        PhpKey::Str(s) => s.clone(),
    };
    match kt {
        ArrowType::Int32 | ArrowType::Int64 => {
            let cs = chars_of(text.as_str());
            assert(cs@.subrange(0, cs@.len() as int) =~= text@);
            match parse_int(&cs, 0, cs.len(), true, -0x8000_0000_0000_0000i128, 0x7fff_ffff_ffff_ffffi128) {
                Some(n) => PhpValue::Long(n as i64),
                None => PhpValue::Null,
            }
        },
        _ => PhpValue::Str(text),
    }
}

/// Appends a PHP value to a nested column of type `t`
/// (`value_appended`); on an error the column is left in no particular
/// state.
fn append_to_dyn_builder(b: &mut ColumnData, val: &PhpValue, t: &ArrowType, col: &str, row: usize) -> (r: Result<
    (),
    ParquetError,
>)
    ensures
        match value_appended(old(b)@, val@, t@, col@, row) {
            Ok(d) => r is Ok && final(b)@ == d,
            Err(e) => r matches Err(x) && x@ == e,
        },
    decreases t@, 0int,
{
    if let PhpValue::Null = val {
        append_null_to_builder(b, t);
        return Ok(());
    }
    match t {
        ArrowType::List(ef) => {
            let mut values = ColumnValues::Unread;
            std::mem::swap(&mut values, &mut b.values);
            assert(values_model(values) == old(b)@.values);
            match values {
                ColumnValues::Lists(mut ends, c) => {
                    let mut child = *c;
                    match val {
                        PhpValue::Array(es) => {
                            proof {
                                lemma_entries_model(es@);
                            }
                            if !ef.nullable && any_null_value(es) {
                                return Err(ParquetError::MissingRequired { column: dotted(col, ef.name.as_str()), row });
                            }
                            match append_elements(&mut child, es, &ef.data_type, col, row) {
                                Ok(()) => {
                                    ends.push(child.valid.len());
                                    b.values = ColumnValues::Lists(ends, Box::new(child));
                                    b.valid.push(true);
                                    Ok(())
                                },
                                Err(e) => Err(e),
                            }
                        },
                        _ => Err(type_error(col, "array (for list)", row)),
                    }
                },
                other => {
                    b.values = other;
                    assert(b@ == old(b)@);
                    Ok(())
                },
            }
        },
        ArrowType::Struct(fs) => {
            let mut values = ColumnValues::Unread;
            std::mem::swap(&mut values, &mut b.values);
            assert(values_model(values) == old(b)@.values);
            match values {
                ColumnValues::Structs(mut cs) => {
                    match val {
                        PhpValue::Array(es) => {
                            proof {
                                lemma_datas_model(cs@);
                                lemma_fields_model(fs@);
                            }
                            match append_fields(&mut cs, fs, es, col, false, row) {
                                Ok(()) => {
                                    b.values = ColumnValues::Structs(cs);
                                    b.valid.push(true);
                                    Ok(())
                                },
                                Err(e) => Err(e),
                            }
                        },
                        _ => Err(type_error(col, "array (for struct)", row)),
                    }
                },
                other => {
                    b.values = other;
                    assert(b@ == old(b)@);
                    Ok(())
                },
            }
        },
        ArrowType::MapOf(ef, _) => match &ef.data_type {
            ArrowType::Struct(sfs) => {
                proof {
                    lemma_fields_model(sfs@);
                    assert(ef@.data_type == ArrowTypeModel::Struct(fields_model(sfs@)));
                    assert(decreases_to!(t@ => fields_model(sfs@)));
                }
                if sfs.len() < 2 {
                    assert(b@ == old(b)@);
                    return Ok(());
                }
                let mut values = ColumnValues::Unread;
                std::mem::swap(&mut values, &mut b.values);
                assert(values_model(values) == old(b)@.values);
                match values {
                    ColumnValues::Maps(mut ends, k, v) => {
                        let mut kd = *k;
                        let mut vd = *v;
                        match val {
                            PhpValue::Array(es) => {
                                proof {
                                    lemma_entries_model(es@);
                                }
                                if !sfs[1].nullable && any_null_value(es) {
                                    return Err(
                                        ParquetError::MissingRequired { column: dotted(col, sfs[1].name.as_str()), row },
                                    );
                                }
                                match append_entries(&mut kd, &mut vd, es, sfs, col, col, row) {
                                    Ok(()) => {
                                        let nk = kd.valid.len();
                                        let nv = vd.valid.len();
                                        if nk == nv {
                                            ends.push(nk);
                                            b.values = ColumnValues::Maps(ends, Box::new(kd), Box::new(vd));
                                            b.valid.push(true);
                                            Ok(())
                                        } else {
                                            Err(
                                                ParquetError::MapLengthMismatch {
                                                    column: col.to_owned(),
                                                    row,
                                                    keys: nk,
                                                    values: nv,
                                                    valid: true,
                                                    nested: true,
                                                },
                                            )
                                        }
                                    },
                                    Err(e) => Err(e),
                                }
                            },
                            _ => Err(type_error(col, "array (for map)", row)),
                        }
                    },
                    other => {
                        b.values = other;
                        assert(b@ == old(b)@);
                        Ok(())
                    },
                }
            },
            _ => Err(ParquetError::MapEntriesNotStruct { column: col.to_owned(), nested: true }),
        },
        _ => match nested_slot_of(val, t, col, row) {
            Ok(s) => {
                push_slot(b, s);
                Ok(())
            },
            Err(e) => Err(e),
        },
    }
}

/// Appends the elements of a list value to the list's child column.
fn append_elements(c: &mut ColumnData, es: &Vec<(PhpKey, PhpValue)>, et: &ArrowType, col: &str, row: usize) -> (r:
    Result<(), ParquetError>)
    ensures
        match elements_appended(old(c)@, entries_model(es@), et@, col@, row, es.len() as int) {
            Ok(d) => r is Ok && final(c)@ == d,
            Err(e) => r matches Err(x) && x@ == e,
        },
    decreases et@, 1int,
{
    let ghost esm = entries_model(es@);
    let ghost c0 = c@;
    proof {
        lemma_entries_model(es@);
    }
    let mut j: usize = 0;
    while j < es.len()
        invariant
            j <= es.len(),
            esm == entries_model(es@),
            esm.len() == es.len(),
            forall|i: int| 0 <= i < es.len() ==> #[trigger] esm[i] == (es@[i].0@, es@[i].1@),
            c0 == old(c)@,
            elements_appended(c0, esm, et@, col@, row, j as int) == Ok::<DataModel, ErrorModel>(c@),
        decreases es.len() - j,
    {
        let ghost before = c@;
        match append_to_dyn_builder(c, &es[j].1, et, col, row) {
            Ok(()) => {},
            Err(e) => {
                proof {
                    assert(value_appended(before, esm[j as int].1, et@, col@, row) == Err::<DataModel, ErrorModel>(e@));
                    assert(elements_appended(c0, esm, et@, col@, row, j + 1) == value_appended(
                        before,
                        esm[j as int].1,
                        et@,
                        col@,
                        row,
                    ));
                    lemma_elements_err(c0, esm, et@, col@, row, j + 1, es.len() as int);
                }
                return Err(e);
            },
        }
        j = j + 1;
    }
    Ok(())
}

/// `{a}.{b}`.
fn dotted(a: &str, b: &str) -> (s: String)
    ensures
        s@ == a@ + seq!['.'] + b@,
{
    let mut v = chars_of(a);
    v.push('.');
    let w = chars_of(b);
    append_chars(&mut v, &w);
    let s = chars_to_string(&v);
    assert(s@ =~= a@ + seq!['.'] + b@);
    s
}

/// Appends the fields of a struct value, looked up by name, to the struct's
/// children.
fn append_fields(
    cs: &mut Vec<ColumnData>,
    fs: &Vec<ArrowField>,
    es: &Vec<(PhpKey, PhpValue)>,
    col: &str,
    top: bool,
    row: usize,
) -> (r: Result<(), ParquetError>)
    ensures
        match fields_appended(
            datas_model(old(cs)@),
            fields_model(fs@),
            entries_model(es@),
            col@,
            top,
            row,
            min_len(old(cs)@.len(), fs@.len()),
        ) {
            Ok(d) => r is Ok && datas_model(final(cs)@) == d,
            Err(e) => r matches Err(x) && x@ == e,
        },
    decreases fields_model(fs@), 1int,
{
    let ghost fsm = fields_model(fs@);
    let ghost esm = entries_model(es@);
    let ghost start = datas_model(cs@);
    proof {
        lemma_fields_model(fs@);
        lemma_datas_model(cs@);
    }
    let null = PhpValue::Null;
    let n: usize = if cs.len() < fs.len() { cs.len() } else { fs.len() };
    let mut k: usize = 0;
    while k < n
        invariant
            k <= n,
            n == min_len(start.len(), fsm.len()),
            fsm == fields_model(fs@),
            esm == entries_model(es@),
            fsm.len() == fs.len(),
            start.len() == cs.len(),
            forall|j: int| 0 <= j < fs.len() ==> #[trigger] fsm[j] == fs@[j]@,
            null@ == ValueModel::Null,
            start == datas_model(old(cs)@),
            old(cs)@.len() == cs@.len(),
            fields_appended(start, fsm, esm, col@, top, row, k as int) == Ok::<Seq<DataModel>, ErrorModel>(
                datas_model(cs@),
            ),
        decreases n - k,
    {
        proof {
            lemma_datas_model(cs@);
            assert(decreases_to!(fsm => fsm[k as int].data_type));
            assert(fsm[k as int].data_type == fs@[k as int].data_type@);
        }
        let input = match array_get(es, fs[k].name.as_str()) {
            Some(v) => v,
            None => &null,
        };
        let ghost before = cs@;
        proof {
            lemma_fields_len(start, fsm, esm, col@, top, row, k as int);
            assert(datas_model(before)[k as int] == before[k as int]@);
        }
        if matches!(input, PhpValue::Null) && !fs[k].nullable {
            let e = ParquetError::MissingRequired { column: dotted(col, fs[k].name.as_str()), row };
            proof {
                assert(fields_appended(start, fsm, esm, col@, top, row, k + 1) == Err::<Seq<DataModel>, ErrorModel>(
                    e@,
                ));
                lemma_fields_err(start, fsm, esm, col@, top, row, k + 1, n as int);
            }
            return Err(e);
        }
        let child_name = if top {
            dotted(col, fs[k].name.as_str())
        } else {
            col.to_owned()
        };
        match append_to_dyn_builder(&mut cs[k], input, &fs[k].data_type, child_name.as_str(), row) {
            Ok(()) => {},
            Err(e) => {
                proof {
                    assert(fields_appended(start, fsm, esm, col@, top, row, k + 1) == Err::<Seq<DataModel>, ErrorModel>(
                        e@,
                    ));
                    lemma_fields_err(start, fsm, esm, col@, top, row, k + 1, n as int);
                }
                return Err(e);
            },
        }
        proof {
            lemma_datas_model(before);
            lemma_datas_model_ext(cs@, datas_model(before).update(k as int, cs@[k as int]@));
        }
        k = k + 1;
    }
    Ok(())
}

/// Appends the entries of a map value to the map's key and value columns,
/// key first.
fn append_entries(
    kd: &mut ColumnData,
    vd: &mut ColumnData,
    es: &Vec<(PhpKey, PhpValue)>,
    sfs: &Vec<ArrowField>,
    kcol: &str,
    vcol: &str,
    row: usize,
) -> (r: Result<(), ParquetError>)
    requires
        sfs.len() >= 2,
    ensures
        match entries_appended(
            old(kd)@,
            old(vd)@,
            entries_model(es@),
            fields_model(sfs@),
            kcol@,
            vcol@,
            row,
            es.len() as int,
        ) {
            Ok(kv) => r is Ok && final(kd)@ == kv.0 && final(vd)@ == kv.1,
            Err(e) => r matches Err(x) && x@ == e,
        },
    decreases fields_model(sfs@), 1int,
{
    let ghost fsm = fields_model(sfs@);
    let ghost esm = entries_model(es@);
    let ghost k0 = kd@;
    let ghost v0 = vd@;
    proof {
        lemma_fields_model(sfs@);
        lemma_entries_model(es@);
        assert(decreases_to!(fsm => fsm[0].data_type));
        assert(decreases_to!(fsm => fsm[1].data_type));
    }
    let kt = &sfs[0].data_type;
    let vt = &sfs[1].data_type;
    let mut j: usize = 0;
    while j < es.len()
        invariant
            j <= es.len(),
            fsm == fields_model(sfs@),
            esm == entries_model(es@),
            fsm.len() == sfs.len(),
            sfs.len() >= 2,
            kt@ == fsm[0].data_type,
            vt@ == fsm[1].data_type,
            esm.len() == es.len(),
            forall|i: int| 0 <= i < es.len() ==> #[trigger] esm[i] == (es@[i].0@, es@[i].1@),
            k0 == old(kd)@,
            v0 == old(vd)@,
            entries_appended(k0, v0, esm, fsm, kcol@, vcol@, row, j as int) == Ok::<(DataModel, DataModel), ErrorModel>(
                (kd@, vd@),
            ),
        decreases es.len() - j,
    {
        let key = map_key_value(&es[j].0, kt);
        let ghost kb = kd@;
        let ghost vb = vd@;
        match append_to_dyn_builder(kd, &key, kt, kcol, row) {
            Ok(()) => {},
            Err(e) => {
                proof {
                    assert(entries_appended(k0, v0, esm, fsm, kcol@, vcol@, row, j + 1) == Err::<(DataModel, DataModel), ErrorModel>(
                        e@,
                    ));
                    lemma_entries_err(k0, v0, esm, fsm, kcol@, vcol@, row, j + 1, es.len() as int);
                }
                return Err(e);
            },
        }
        match append_to_dyn_builder(vd, &es[j].1, vt, vcol, row) {
            Ok(()) => {},
            Err(e) => {
                proof {
                    assert(entries_appended(k0, v0, esm, fsm, kcol@, vcol@, row, j + 1) == Err::<(DataModel, DataModel), ErrorModel>(
                        e@,
                    ));
                    lemma_entries_err(k0, v0, esm, fsm, kcol@, vcol@, row, j + 1, es.len() as int);
                }
                return Err(e);
            },
        }
        j = j + 1;
    }
    Ok(())
}

/// Whether Arrow accepts a decimal precision and scale for a 128-bit
/// decimal: a precision from 1 to 38, a scale of at most 38 and, when
/// positive, at most the precision.
pub open spec fn decimal_config_ok(p: u8, s: i8) -> bool {
    1 <= p <= 38 && s <= 38 && !(s > 0 && s > p)
}

/// The message of the error Arrow gives for a decimal precision and scale it
/// refuses: the first of its four checks that fails, behind Arrow's prefix
/// for an invalid argument.
pub open spec fn decimal_config_message(p: u8, s: i8) -> Seq<char> {
    "Invalid argument error: "@ + if p == 0 {
        "precision cannot be 0, has to be between [1, 38]"@
    } else if p > 38 {
        "precision "@ + int_text(p as int) + " is greater than max 38"@
    } else if s > 38 {
        "scale "@ + int_text(s as int) + " is greater than max 38"@
    } else {
        "scale "@ + int_text(s as int) + " is greater than precision "@ + int_text(p as int)
    }
}

/// Calls arrow's `Decimal128Builder::with_precision_and_scale` on an empty
/// builder. The contract claims what arrow's `validate_decimal_precision_and_scale`
/// checks, and the `Display` text of the `InvalidArgumentError` it gives.
#[verifier::external_body]
fn check_decimal_config(p: u8, s: i8) -> (r: Result<(), String>)
    ensures
        r is Ok <==> decimal_config_ok(p, s),
        r matches Err(m) ==> m@ == decimal_config_message(p, s),
{
    match arrow::array::Decimal128Builder::with_capacity(0).with_precision_and_scale(p, s) {
        Ok(_) => Ok(()),
        Err(e) => Err(e.to_string()),
    }
}

/// The value of column `name` in a row: `None` for a missing or null value
/// of a nullable column; a row that is not an array, and a missing or null
/// value of a required column, are refused.
pub open spec fn field_value(row: ValueModel, name: Seq<char>, i: usize, nullable: bool) -> Result<
    Option<ValueModel>,
    ErrorModel,
> {
    match row {
        ValueModel::Array(es) => match lookup(es, key_of_text(name)) {
            Some(v) => if v != ValueModel::Null {
                Ok(Some(v))
            } else if nullable {
                Ok(None)
            } else {
                Err(ErrorModel::MissingRequired { column: name, row: i })
            },
            None => if nullable {
                Ok(None)
            } else {
                Err(ErrorModel::MissingRequired { column: name, row: i })
            },
        },
        _ => Err(ErrorModel::RowNotArray(i)),
    }
}

/// The value of column `col` in row `row_index` (`field_value`).
fn get_field_value<'a>(row: &'a PhpValue, col: &str, row_index: usize, nullable: bool) -> (r: Result<
    Option<&'a PhpValue>,
    ParquetError,
>)
    ensures
        match field_value(row@, col@, row_index, nullable) {
            Ok(Some(v)) => r matches Ok(Some(x)) && x@ == v,
            Ok(None) => r matches Ok(None),
            Err(e) => r matches Err(x) && x@ == e,
        },
{
    match row {
        PhpValue::Array(es) => match array_get(es, col) {
            Some(v) => {
                if let PhpValue::Null = v {
                    if nullable {
                        Ok(None)
                    } else {
                        Err(ParquetError::MissingRequired { column: col.to_owned(), row: row_index })
                    }
                } else {
                    Ok(Some(v))
                }
            },
            None => {
                if nullable {
                    Ok(None)
                } else {
                    Err(ParquetError::MissingRequired { column: col.to_owned(), row: row_index })
                }
            },
        },
        _ => Err(ParquetError::RowNotArray(row_index)),
    }
}

/// The slot a non-null PHP value makes in a top-level column of a
/// primitive, string or binary type (the top-level conversions and errors).
pub open spec fn top_slot(v: ValueModel, t: ArrowTypeModel, col: Seq<char>, row: usize) -> Result<
    SlotModel,
    ErrorModel,
> {
    match t {
        ArrowTypeModel::Date32 => match v {
            ValueModel::Str(s) => match date_days(s) {
                Some(n) => Ok(SlotModel::Int32(n as i32)),
                None => Err(ErrorModel::InvalidDate { column: col, value: s }),
            },
            _ => Err(mismatch(col, "date (Y-m-d string)"@, row)),
        },
        ArrowTypeModel::Timestamp(_, _) => match v {
            ValueModel::Str(s) => match datetime_micros(s) {
                Some(m) => Ok(SlotModel::Int64(m)),
                None => Err(ErrorModel::InvalidDateTime { column: col, value: s }),
            },
            _ => Err(mismatch(col, "dateTime (ISO 8601 string)"@, row)),
        },
        ArrowTypeModel::Time64(_) => match v {
            ValueModel::Str(s) => match time_micros(s) {
                Some(m) => Ok(SlotModel::Int64(m as i64)),
                None => Err(ErrorModel::InvalidTime { column: col, value: s }),
            },
            _ => Err(mismatch(col, "time (H:i:s string)"@, row)),
        },
        ArrowTypeModel::Decimal128(_, scale) => match v {
            ValueModel::Str(s) => match decimal_value(s, scale as int) {
                Some(x) => Ok(SlotModel::Decimal(x as i128)),
                None => Err(ErrorModel::InvalidDecimal { column: col, value: s }),
            },
            _ => Err(mismatch(col, "decimal (numeric string)"@, row)),
        },
        ArrowTypeModel::FixedSizeBinary(_) => match v {
            ValueModel::Str(s) => match uuid_parse(s) {
                Some(b) => Ok(SlotModel::Uuid(b)),
                None => Err(ErrorModel::InvalidUuid { column: col, value: s }),
            },
            _ => Err(mismatch(col, "uuid (string)"@, row)),
        },
        ArrowTypeModel::Binary => match v {
            ValueModel::Str(s) => Ok(SlotModel::Bytes(encode_utf8(s))),
            _ => Err(mismatch(col, "binary (string)"@, row)),
        },
        _ => nested_slot(v, t, col, row),
    }
}

/// The slot a non-null PHP value makes in a top-level column (`top_slot`).
fn top_slot_of(v: &PhpValue, t: &ArrowType, col: &str, row: usize) -> (r: Result<Slot, ParquetError>)
    ensures
        match top_slot(v@, t@, col@, row) {
            Ok(s) => r matches Ok(x) && x@ == s,
            Err(e) => r matches Err(x) && x@ == e,
        },
{
    match t {
        ArrowType::Date32 => match v {
            PhpValue::Str(s) => match parse_date_to_days(s.as_str()) {
                Some(n) => Ok(Slot::Int32(n)),
                None => Err(ParquetError::InvalidDate { column: col.to_owned(), value: s.clone() }),
            },
            _ => Err(type_error(col, "date (Y-m-d string)", row)),
        },
        ArrowType::Timestamp(_, _) => match v {
            PhpValue::Str(s) => match parse_datetime_to_micros(s.as_str()) {
                Some(m) => Ok(Slot::Int64(m)),
                None => Err(ParquetError::InvalidDateTime { column: col.to_owned(), value: s.clone() }),
            },
            _ => Err(type_error(col, "dateTime (ISO 8601 string)", row)),
        },
        ArrowType::Time64(_) => match v {
            PhpValue::Str(s) => match parse_time_to_micros(s.as_str()) {
                Some(m) => Ok(Slot::Int64(m)),
                None => Err(ParquetError::InvalidTime { column: col.to_owned(), value: s.clone() }),
            },
            _ => Err(type_error(col, "time (H:i:s string)", row)),
        },
        ArrowType::Decimal128(_, scale) => match v {
            PhpValue::Str(s) => match parse_decimal_to_i128(s.as_str(), *scale) {
                Some(x) => Ok(Slot::Decimal(x)),
                None => Err(ParquetError::InvalidDecimal { column: col.to_owned(), value: s.clone() }),
            },
            _ => Err(type_error(col, "decimal (numeric string)", row)),
        },
        ArrowType::FixedSizeBinary(_) => match v {
            PhpValue::Str(s) => match parse_uuid(s.as_str()) {
                Some(b) => Ok(Slot::Uuid(b)),
                None => Err(ParquetError::InvalidUuid { column: col.to_owned(), value: s.clone() }),
            },
            _ => Err(type_error(col, "uuid (string)", row)),
        },
        ArrowType::Binary => match v {
            PhpValue::Str(s) => Ok(Slot::Bytes(s.as_str().as_bytes_vec())),
            _ => Err(type_error(col, "binary (string)", row)),
        },
        _ => nested_slot_of(v, t, col, row),
    }
}

/// The models of a list of PHP values.
pub open spec fn values_of(rows: Seq<PhpValue>) -> Seq<ValueModel> {
    rows.map_values(|v: PhpValue| v@)
}

/// The first `k` rows appended to a top-level primitive, string or binary
/// column: a missing or null value of a nullable column as a
/// default-valued null, any other as `top_slot` says.
pub open spec fn primitive_rows(rows: Seq<ValueModel>, f: FieldModel, k: int) -> Result<DataModel, ErrorModel>
    decreases k,
{
    if k <= 0 {
        Ok(empty_data(f.data_type))
    } else {
        match primitive_rows(rows, f, k - 1) {
            Err(e) => Err(e),
            Ok(d) => match field_value(rows[k - 1], f.name, (k - 1) as usize, f.nullable) {
                Err(e) => Err(e),
                Ok(None) => Ok(default_pushed(d)),
                Ok(Some(v)) => match top_slot(v, f.data_type, f.name, (k - 1) as usize) {
                    Ok(s) => Ok(slot_pushed(d, s)),
                    Err(e) => Err(e),
                },
            },
        }
    }
}

/// The first `k` rows appended to a top-level list column: a missing or
/// null value of a nullable column as an empty null slot, any other as
/// `value_appended` says.
pub open spec fn list_rows(rows: Seq<ValueModel>, f: FieldModel, k: int) -> Result<DataModel, ErrorModel>
    decreases k,
{
    if k <= 0 {
        Ok(empty_data(f.data_type))
    } else {
        match list_rows(rows, f, k - 1) {
            Err(e) => Err(e),
            Ok(d) => match field_value(rows[k - 1], f.name, (k - 1) as usize, f.nullable) {
                Err(e) => Err(e),
                Ok(None) => Ok(null_appended(d, f.data_type)),
                Ok(Some(v)) => value_appended(d, v, f.data_type, f.name, (k - 1) as usize),
            },
        }
    }
}

/// The first `k` rows appended to a top-level struct column: a missing or
/// null value of a nullable column as a null in every child and in the
/// struct; an array's fields by name into the children (their errors name
/// the column `struct.field`), then a valid slot.
pub open spec fn struct_rows(rows: Seq<ValueModel>, f: FieldModel, fs: Seq<FieldModel>, k: int) -> Result<
    DataModel,
    ErrorModel,
>
    decreases k,
{
    if k <= 0 {
        Ok(empty_data(f.data_type))
    } else {
        match struct_rows(rows, f, fs, k - 1) {
            Err(e) => Err(e),
            Ok(d) => match field_value(rows[k - 1], f.name, (k - 1) as usize, f.nullable) {
                Err(e) => Err(e),
                Ok(None) => Ok(null_appended(d, f.data_type)),
                Ok(Some(v)) => match d.values {
                    ValuesModel::Structs(cs) => match v {
                        ValueModel::Array(es) => match fields_appended(
                            cs,
                            fs,
                            es,
                            f.name,
                            true,
                            (k - 1) as usize,
                            min_len(cs.len(), fs.len()),
                        ) {
                            Ok(cs2) => Ok(DataModel { valid: d.valid.push(true), values: ValuesModel::Structs(cs2) }),
                            Err(e) => Err(e),
                        },
                        _ => Err(mismatch(f.name, "array (for struct)"@, (k - 1) as usize)),
                    },
                    _ => Ok(d),
                },
            },
        }
    }
}

/// The first `k` rows appended to a top-level map column: a missing or null
/// value of a nullable column as an empty null slot, an array's entries into
/// the key and value columns (their errors name the column `map.key` and
/// `map.value`), then a valid slot; a slot is refused while the keys and
/// values are not as many.
pub open spec fn map_rows(rows: Seq<ValueModel>, f: FieldModel, sfs: Seq<FieldModel>, k: int) -> Result<
    DataModel,
    ErrorModel,
>
    decreases k,
{
    if k <= 0 {
        Ok(empty_data(f.data_type))
    } else {
        match map_rows(rows, f, sfs, k - 1) {
            Err(e) => Err(e),
            Ok(d) => match d.values {
                ValuesModel::Maps(ends, kd, vd) => match field_value(rows[k - 1], f.name, (k - 1) as usize, f.nullable) {
                    Err(e) => Err(e),
                    Ok(None) => if slots(*kd) == slots(*vd) {
                        Ok(
                            DataModel {
                                valid: d.valid.push(false),
                                values: ValuesModel::Maps(ends.push(slots(*kd) as usize), kd, vd),
                            },
                        )
                    } else {
                        Err(
                            ErrorModel::MapLengthMismatch {
                                column: f.name,
                                row: (k - 1) as usize,
                                keys: slots(*kd) as usize,
                                values: slots(*vd) as usize,
                                valid: false,
                                nested: false,
                            },
                        )
                    },
                    Ok(Some(v)) => match v {
                        ValueModel::Array(es) => if !sfs[1].nullable && has_null_value(es) {
                            Err(ErrorModel::MissingRequired { column: f.name + seq!['.'] + sfs[1].name, row: (k - 1) as usize })
                        } else {
                            match entries_appended(
                                *kd,
                                *vd,
                                es,
                                sfs,
                                f.name + seq!['.'] + "key"@,
                                f.name + seq!['.'] + "value"@,
                                (k - 1) as usize,
                                es.len() as int,
                            ) {
                                Ok(kv) => if slots(kv.0) == slots(kv.1) {
                                    Ok(
                                        DataModel {
                                            valid: d.valid.push(true),
                                            values: ValuesModel::Maps(
                                                ends.push(slots(kv.0) as usize),
                                                Box::new(kv.0),
                                                Box::new(kv.1),
                                            ),
                                        },
                                    )
                                } else {
                                    Err(
                                        ErrorModel::MapLengthMismatch {
                                            column: f.name,
                                            row: (k - 1) as usize,
                                            keys: slots(kv.0) as usize,
                                            values: slots(kv.1) as usize,
                                            valid: true,
                                            nested: false,
                                        },
                                    )
                                },
                                Err(e) => Err(e),
                            }
                        },
                        _ => Err(mismatch(f.name, "array (for map)"@, (k - 1) as usize)),
                    },
                },
                _ => Ok(d),
            },
        }
    }
}

/// The rows appended to a column for a field: primitive, string and binary
/// types (only microsecond times and timestamps, only 16-byte fixed binary)
/// as `primitive_rows` says, a decimal only for a precision and scale Arrow
/// accepts; lists, structs and maps as `list_rows`, `struct_rows` and
/// `map_rows` say (a map only with struct entries); other types refused.
pub open spec fn column_appended(rows: Seq<ValueModel>, f: FieldModel) -> Result<DataModel, ErrorModel> {
    let n = rows.len() as int;
    let unsupported = ErrorModel::UnsupportedType { column: f.name, data_type: f.data_type };
    match f.data_type {
        ArrowTypeModel::Boolean | ArrowTypeModel::Int32 | ArrowTypeModel::Int64 | ArrowTypeModel::Float32
        | ArrowTypeModel::Float64 | ArrowTypeModel::Utf8 | ArrowTypeModel::Date32 | ArrowTypeModel::Binary =>
            primitive_rows(rows, f, n),
        ArrowTypeModel::Timestamp(u, _) => if u == TimeUnit::Microsecond {
            primitive_rows(rows, f, n)
        } else {
            Err(unsupported)
        },
        ArrowTypeModel::Time64(u) => if u == TimeUnit::Microsecond {
            primitive_rows(rows, f, n)
        } else {
            Err(unsupported)
        },
        ArrowTypeModel::FixedSizeBinary(w) => if w == 16 {
            primitive_rows(rows, f, n)
        } else {
            Err(unsupported)
        },
        ArrowTypeModel::Decimal128(p, s) => if decimal_config_ok(p, s) {
            primitive_rows(rows, f, n)
        } else {
            Err(ErrorModel::InvalidDecimalConfig(decimal_config_message(p, s)))
        },
        ArrowTypeModel::List(_) => list_rows(rows, f, n),
        ArrowTypeModel::Struct(fs) => struct_rows(rows, f, fs, n),
        ArrowTypeModel::MapOf(e, _) => match e.data_type {
            ArrowTypeModel::Struct(sfs) => map_rows(rows, f, sfs, n),
            _ => Err(ErrorModel::MapEntriesNotStruct { column: f.name, nested: false }),
        },
        ArrowTypeModel::Other => Err(unsupported),
    }
}

/// The column built from the rows for a field: the rows appended
/// (`column_appended`), then refused where Arrow, finishing it, finds a null
/// it does not admit (`arrow_accepts`).
pub open spec fn column_built(rows: Seq<ValueModel>, f: FieldModel) -> Result<DataModel, ErrorModel> {
    match column_appended(rows, f) {
        Ok(d) => if arrow_accepts(d, f.data_type) {
            Ok(d)
        } else {
            Err(ErrorModel::NullInRequiredField { column: f.name })
        },
        Err(e) => Err(e),
    }
}

/// The columns built from the rows for the first `k` fields, field by
/// field; the first failure in that order is the result.
pub open spec fn columns_built(rows: Seq<ValueModel>, fs: Seq<FieldModel>, k: int) -> Result<
    Seq<DataModel>,
    ErrorModel,
>
    decreases k,
{
    if k <= 0 {
        Ok(Seq::empty())
    } else {
        match columns_built(rows, fs, k - 1) {
            Err(e) => Err(e),
            Ok(cs) => match column_built(rows, fs[k - 1]) {
                Ok(d) => Ok(cs.push(d)),
                Err(e) => Err(e),
            },
        }
    }
}

/// Whether building a top-level column of this type reaches no panic in
/// Arrow: the element type of a list, the field types of a struct and the
/// key and value types of a map are `buildable`, and a map's struct entries
/// have at least two fields.
pub open spec fn writable(t: ArrowTypeModel) -> bool {
    match t {
        ArrowTypeModel::List(f) => buildable(f.data_type),
        ArrowTypeModel::Struct(fs) => all_buildable(fs, fs.len() as int),
        ArrowTypeModel::MapOf(e, _) => match e.data_type {
            ArrowTypeModel::Struct(fs) => fs.len() >= 2 && buildable(fs[0].data_type) && buildable(fs[1].data_type),
            _ => true,
        },
        _ => true,
    }
}

/// Every field has a `writable` type.
pub open spec fn all_writable(fs: Seq<FieldModel>) -> bool {
    forall|i: int| 0 <= i < fs.len() ==> writable(#[trigger] fs[i].data_type)
}

proof fn lemma_primitive_rows_err(rows: Seq<ValueModel>, f: FieldModel, j: int, k: int)
    requires
        0 <= j <= k,
        primitive_rows(rows, f, j) is Err,
    ensures
        primitive_rows(rows, f, k) == primitive_rows(rows, f, j),
    decreases k - j,
{
    if k > j {
        lemma_primitive_rows_err(rows, f, j, k - 1);
    }
}

proof fn lemma_list_rows_err(rows: Seq<ValueModel>, f: FieldModel, j: int, k: int)
    requires
        0 <= j <= k,
        list_rows(rows, f, j) is Err,
    ensures
        list_rows(rows, f, k) == list_rows(rows, f, j),
    decreases k - j,
{
    if k > j {
        lemma_list_rows_err(rows, f, j, k - 1);
    }
}

proof fn lemma_struct_rows_err(rows: Seq<ValueModel>, f: FieldModel, fs: Seq<FieldModel>, j: int, k: int)
    requires
        0 <= j <= k,
        struct_rows(rows, f, fs, j) is Err,
    ensures
        struct_rows(rows, f, fs, k) == struct_rows(rows, f, fs, j),
    decreases k - j,
{
    if k > j {
        lemma_struct_rows_err(rows, f, fs, j, k - 1);
    }
}

proof fn lemma_map_rows_err(rows: Seq<ValueModel>, f: FieldModel, sfs: Seq<FieldModel>, j: int, k: int)
    requires
        0 <= j <= k,
        map_rows(rows, f, sfs, j) is Err,
    ensures
        map_rows(rows, f, sfs, k) == map_rows(rows, f, sfs, j),
    decreases k - j,
{
    if k > j {
        lemma_map_rows_err(rows, f, sfs, j, k - 1);
    }
}

proof fn lemma_columns_built_err(rows: Seq<ValueModel>, fs: Seq<FieldModel>, j: int, k: int)
    requires
        0 <= j <= k,
        columns_built(rows, fs, j) is Err,
    ensures
        columns_built(rows, fs, k) == columns_built(rows, fs, j),
    decreases k - j,
{
    if k > j {
        lemma_columns_built_err(rows, fs, j, k - 1);
    }
}

/// A top-level primitive, string or binary column built from the rows
/// (`primitive_rows`).
fn build_primitive(rows: &Vec<PhpValue>, field: &ArrowField) -> (r: Result<ColumnData, ParquetError>)
    requires
        buildable(field@.data_type),
    ensures
        match primitive_rows(values_of(rows@), field@, rows.len() as int) {
            Ok(d) => r matches Ok(x) && x@ == d,
            Err(e) => r matches Err(x) && x@ == e,
        },
{
    let ghost rm = values_of(rows@);
    let ghost f = field@;
    let mut d = new_builder(&field.data_type);
    let mut i: usize = 0;
    while i < rows.len()
        invariant
            i <= rows.len(),
            rm == values_of(rows@),
            f == field@,
            primitive_rows(rm, f, i as int) == Ok::<DataModel, ErrorModel>(d@),
        decreases rows.len() - i,
    {
        match get_field_value(&rows[i], field.name.as_str(), i, field.nullable) {
            Err(e) => {
                proof {
                    lemma_primitive_rows_err(rm, f, i + 1, rows.len() as int);
                }
                return Err(e);
            },
            Ok(None) => {
                push_default(&mut d.valid, &mut d.values);
            },
            Ok(Some(v)) => match top_slot_of(v, &field.data_type, field.name.as_str(), i) {
                Ok(s) => {
                    push_slot(&mut d, s);
                },
                Err(e) => {
                    proof {
                        lemma_primitive_rows_err(rm, f, i + 1, rows.len() as int);
                    }
                    return Err(e);
                },
            },
        }
        i = i + 1;
    }
    Ok(d)
}

/// A top-level list column built from the rows (`list_rows`).
fn build_list_array(rows: &Vec<PhpValue>, field: &ArrowField) -> (r: Result<ColumnData, ParquetError>)
    requires
        buildable(field@.data_type),
    ensures
        match list_rows(values_of(rows@), field@, rows.len() as int) {
            Ok(d) => r matches Ok(x) && x@ == d,
            Err(e) => r matches Err(x) && x@ == e,
        },
{
    let ghost rm = values_of(rows@);
    let ghost f = field@;
    let t = &field.data_type;
    let mut d = new_builder(t);
    let mut i: usize = 0;
    while i < rows.len()
        invariant
            i <= rows.len(),
            rm == values_of(rows@),
            f == field@,
            t@ == f.data_type,
            list_rows(rm, f, i as int) == Ok::<DataModel, ErrorModel>(d@),
        decreases rows.len() - i,
    {
        match get_field_value(&rows[i], field.name.as_str(), i, field.nullable) {
            Err(e) => {
                proof {
                    lemma_list_rows_err(rm, f, i + 1, rows.len() as int);
                }
                return Err(e);
            },
            Ok(None) => {
                append_null_to_builder(&mut d, t);
            },
            Ok(Some(v)) => match append_to_dyn_builder(&mut d, v, t, field.name.as_str(), i) {
                Ok(()) => {},
                Err(e) => {
                    proof {
                        lemma_list_rows_err(rm, f, i + 1, rows.len() as int);
                    }
                    return Err(e);
                },
            },
        }
        i = i + 1;
    }
    Ok(d)
}

/// A top-level struct column built from the rows (`struct_rows`).
fn build_struct_array(rows: &Vec<PhpValue>, field: &ArrowField, fs: &Vec<ArrowField>) -> (r: Result<
    ColumnData,
    ParquetError,
>)
    requires
        field@.data_type == ArrowTypeModel::Struct(fields_model(fs@)),
        buildable(field@.data_type),
    ensures
        match struct_rows(values_of(rows@), field@, fields_model(fs@), rows.len() as int) {
            Ok(d) => r matches Ok(x) && x@ == d,
            Err(e) => r matches Err(x) && x@ == e,
        },
{
    let ghost rm = values_of(rows@);
    let ghost f = field@;
    let ghost fsm = fields_model(fs@);
    let t = &field.data_type;
    let mut d = new_builder(t);
    let mut i: usize = 0;
    while i < rows.len()
        invariant
            i <= rows.len(),
            rm == values_of(rows@),
            f == field@,
            fsm == fields_model(fs@),
            t@ == f.data_type,
            f.data_type == ArrowTypeModel::Struct(fsm),
            struct_rows(rm, f, fsm, i as int) == Ok::<DataModel, ErrorModel>(d@),
        decreases rows.len() - i,
    {
        match get_field_value(&rows[i], field.name.as_str(), i, field.nullable) {
            Err(e) => {
                proof {
                    lemma_struct_rows_err(rm, f, fsm, i + 1, rows.len() as int);
                }
                return Err(e);
            },
            Ok(None) => {
                append_null_to_builder(&mut d, t);
            },
            Ok(Some(v)) => {
                let mut values = ColumnValues::Unread;
                std::mem::swap(&mut values, &mut d.values);
                match values {
                    ColumnValues::Structs(mut cs) => match v {
                        PhpValue::Array(es) => {
                            proof {
                                lemma_datas_model(cs@);
                                lemma_fields_model(fs@);
                            }
                            match append_fields(&mut cs, fs, es, field.name.as_str(), true, i) {
                                Ok(()) => {
                                    d.values = ColumnValues::Structs(cs);
                                    d.valid.push(true);
                                },
                                Err(e) => {
                                    proof {
                                        lemma_struct_rows_err(rm, f, fsm, i + 1, rows.len() as int);
                                    }
                                    return Err(e);
                                },
                            }
                        },
                        _ => {
                            proof {
                                lemma_struct_rows_err(rm, f, fsm, i + 1, rows.len() as int);
                            }
                            return Err(type_error(field.name.as_str(), "array (for struct)", i));
                        },
                    },
                    other => {
                        d.values = other;
                    },
                }
            },
        }
        i = i + 1;
    }
    Ok(d)
}

/// A top-level map column built from the rows (`map_rows`).
fn build_map_array(rows: &Vec<PhpValue>, field: &ArrowField, sfs: &Vec<ArrowField>) -> (r: Result<
    ColumnData,
    ParquetError,
>)
    requires
        field@.data_type matches ArrowTypeModel::MapOf(e, _) && e.data_type == ArrowTypeModel::Struct(
            fields_model(sfs@),
        ),
        buildable(field@.data_type),
    ensures
        match map_rows(values_of(rows@), field@, fields_model(sfs@), rows.len() as int) {
            Ok(d) => r matches Ok(x) && x@ == d,
            Err(e) => r matches Err(x) && x@ == e,
        },
{
    let ghost rm = values_of(rows@);
    let ghost f = field@;
    let ghost fsm = fields_model(sfs@);
    proof {
        lemma_fields_model(sfs@);
    }
    let kcol = dotted(field.name.as_str(), "key");
    let vcol = dotted(field.name.as_str(), "value");
    let d = new_builder(&field.data_type);
    let ColumnData { mut valid, values } = d;
    let (mut ends, mut kd, mut vd) = match values {
        ColumnValues::Maps(ends, k, v) => (ends, *k, *v),
        _ => {
            proof {
                assert(false);
            }
            return Ok(ColumnData { valid, values });
        },
    };
    let mut i: usize = 0;
    while i < rows.len()
        invariant
            i <= rows.len(),
            rm == values_of(rows@),
            f == field@,
            fsm == fields_model(sfs@),
            fsm.len() == sfs.len(),
            forall|m: int| 0 <= m < sfs.len() ==> #[trigger] fsm[m] == sfs@[m]@,
            sfs.len() >= 2,
            kcol@ == f.name + seq!['.'] + "key"@,
            vcol@ == f.name + seq!['.'] + "value"@,
            map_rows(rm, f, fsm, i as int) == Ok::<DataModel, ErrorModel>(
                DataModel { valid: valid@, values: ValuesModel::Maps(ends@, Box::new(kd@), Box::new(vd@)) },
            ),
        decreases rows.len() - i,
    {
        match get_field_value(&rows[i], field.name.as_str(), i, field.nullable) {
            Err(e) => {
                proof {
                    lemma_map_rows_err(rm, f, fsm, i + 1, rows.len() as int);
                }
                return Err(e);
            },
            Ok(None) => {
                let nk = kd.valid.len();
                let nv = vd.valid.len();
                if nk == nv {
                    ends.push(nk);
                    valid.push(false);
                } else {
                    proof {
                        lemma_map_rows_err(rm, f, fsm, i + 1, rows.len() as int);
                    }
                    return Err(
                        ParquetError::MapLengthMismatch {
                            column: field.name.clone(),
                            row: i,
                            keys: nk,
                            values: nv,
                            valid: false,
                            nested: false,
                        },
                    );
                }
            },
            Ok(Some(v)) => match v {
                PhpValue::Array(es) => {
                    let ghost kb = kd@;
                    let ghost vb = vd@;
                    proof {
                        lemma_entries_model(es@);
                    }
                    if !sfs[1].nullable && any_null_value(es) {
                        let e = ParquetError::MissingRequired { column: dotted(field.name.as_str(), sfs[1].name.as_str()), row: i };
                        proof {
                            assert(rm[i as int] == rows@[i as int]@);
                            assert(fsm[1] == sfs@[1]@);
                            assert(map_rows(rm, f, fsm, i + 1) == Err::<DataModel, ErrorModel>(e@));
                            lemma_map_rows_err(rm, f, fsm, i + 1, rows.len() as int);
                        }
                        return Err(e);
                    }
                    match append_entries(&mut kd, &mut vd, es, sfs, kcol.as_str(), vcol.as_str(), i) {
                        Ok(()) => {},
                        Err(e) => {
                            proof {
                                assert(entries_appended(kb, vb, entries_model(es@), fsm, kcol@, vcol@, i, es.len() as int)
                                    == Err::<(DataModel, DataModel), ErrorModel>(e@));
                                assert(rm[i as int] == rows@[i as int]@);
                                lemma_map_rows_err(rm, f, fsm, i + 1, rows.len() as int);
                            }
                            return Err(e);
                        },
                    }
                    let nk = kd.valid.len();
                    let nv = vd.valid.len();
                    if nk == nv {
                        ends.push(nk);
                        valid.push(true);
                    } else {
                        proof {
                            lemma_map_rows_err(rm, f, fsm, i + 1, rows.len() as int);
                        }
                        return Err(
                            ParquetError::MapLengthMismatch {
                                column: field.name.clone(),
                                row: i,
                                keys: nk,
                                values: nv,
                                valid: true,
                                nested: false,
                            },
                        );
                    }
                },
                _ => {
                    proof {
                        lemma_map_rows_err(rm, f, fsm, i + 1, rows.len() as int);
                    }
                    return Err(type_error(field.name.as_str(), "array (for map)", i));
                },
            },
        }
        i = i + 1;
    }
    Ok(ColumnData { valid, values: ColumnValues::Maps(ends, Box::new(kd), Box::new(vd)) })
}

/// `Unsupported data type for column '{name}': {type}`.
fn unsupported_type(field: &ArrowField) -> (e: ParquetError)
    ensures
        e@ == (ErrorModel::UnsupportedType { column: field@.name, data_type: field@.data_type }),
{
    ParquetError::UnsupportedType { column: field.name.clone(), data_type: field.data_type.duplicate() }
}

/// The rows appended to a column of one field (`column_appended`).
fn append_column(rows: &Vec<PhpValue>, field: &ArrowField) -> (r: Result<ColumnData, ParquetError>)
    requires
        writable(field@.data_type),
    ensures
        match column_appended(values_of(rows@), field@) {
            Ok(d) => r matches Ok(x) && x@ == d,
            Err(e) => r matches Err(x) && x@ == e,
        },
{
    match &field.data_type {
        ArrowType::Boolean | ArrowType::Int32 | ArrowType::Int64 | ArrowType::Float32 | ArrowType::Float64
        | ArrowType::Utf8 | ArrowType::Date32 | ArrowType::Binary => build_primitive(rows, field),
        ArrowType::Timestamp(u, _) => {
            if *u == TimeUnit::Microsecond {
                build_primitive(rows, field)
            } else {
                Err(unsupported_type(field))
            }
        },
        ArrowType::Time64(u) => {
            if *u == TimeUnit::Microsecond {
                build_primitive(rows, field)
            } else {
                Err(unsupported_type(field))
            }
        },
        ArrowType::FixedSizeBinary(w) => {
            if *w == 16 {
                build_primitive(rows, field)
            } else {
                Err(unsupported_type(field))
            }
        },
        ArrowType::Decimal128(p, s) => match check_decimal_config(*p, *s) {
            Ok(()) => build_primitive(rows, field),
            Err(m) => Err(ParquetError::InvalidDecimalConfig(m)),
        },
        ArrowType::List(_) => build_list_array(rows, field),
        ArrowType::Struct(fs) => {
            proof {
                lemma_fields_model(fs@);
            }
            build_struct_array(rows, field, fs)
        },
        ArrowType::MapOf(e, _) => match &e.data_type {
            ArrowType::Struct(sfs) => {
                proof {
                    lemma_fields_model(sfs@);
                    assert(e@.data_type == ArrowTypeModel::Struct(fields_model(sfs@)));
                }
                build_map_array(rows, field, sfs)
            },
            _ => Err(ParquetError::MapEntriesNotStruct { column: field.name.clone(), nested: false }),
        },
        ArrowType::Other => Err(unsupported_type(field)),
    }
}

/// The column of one field built from the rows (`column_built`).
pub fn build_arrow_array(rows: &Vec<PhpValue>, field: &ArrowField) -> (r: Result<ColumnData, ParquetError>)
    requires
        writable(field@.data_type),
    ensures
        match column_built(values_of(rows@), field@) {
            Ok(d) => r matches Ok(x) && x@ == d,
            Err(e) => r matches Err(x) && x@ == e,
        },
{
    let column = append_column(rows, field)?;
    if column_accepted(&column, &field.data_type) {
        Ok(column)
    } else {
        Err(ParquetError::NullInRequiredField { column: field.name.clone() })
    }
}

/// The columns of a record batch built from PHP rows, one per field in
/// order (`columns_built`); the first refusal is the result.
pub fn rows_to_record_batch(rows: &Vec<PhpValue>, fields: &Vec<ArrowField>) -> (r: Result<
    Vec<ColumnData>,
    ParquetError,
>)
    requires
        all_writable(fields_model(fields@)),
    ensures
        match columns_built(values_of(rows@), fields_model(fields@), fields.len() as int) {
            Ok(cs) => r matches Ok(x) && datas_model(x@) == cs,
            Err(e) => r matches Err(x) && x@ == e,
        },
{
    let ghost rm = values_of(rows@);
    let ghost fsm = fields_model(fields@);
    proof {
        lemma_fields_model(fields@);
    }
    let mut columns: Vec<ColumnData> = Vec::new();
    let mut k: usize = 0;
    while k < fields.len()
        invariant
            k <= fields.len(),
            rm == values_of(rows@),
            fsm == fields_model(fields@),
            fsm.len() == fields.len(),
            forall|j: int| 0 <= j < fields.len() ==> #[trigger] fsm[j] == fields@[j]@,
            all_writable(fsm),
            columns_built(rm, fsm, k as int) == Ok::<Seq<DataModel>, ErrorModel>(datas_model(columns@)),
        decreases fields.len() - k,
    {
        assert(writable(fsm[k as int].data_type));
        let column = match build_arrow_array(rows, &fields[k]) {
            Ok(c) => c,
            Err(e) => {
                proof {
                    lemma_columns_built_err(rm, fsm, k + 1, fields.len() as int);
                }
                return Err(e);
            },
        };
        let ghost before = columns@;
        columns.push(column);
        proof {
            assert(columns@.drop_last() =~= before);
        }
        k = k + 1;
    }
    Ok(columns)
}

proof fn lemma_arrow_fields_of(cs: Seq<ColumnModel>)
    ensures
        arrow_fields_of(cs).len() == cs.len(),
        forall|i: int| 0 <= i < cs.len() ==> #[trigger] arrow_fields_of(cs)[i] == arrow_field_named(cs[i], cs[i].name),
    decreases cs.len(),
{
    if cs.len() > 0 {
        lemma_arrow_fields_of(cs.drop_last());
    }
}

proof fn lemma_all_buildable_intro(fs: Seq<FieldModel>, k: int)
    requires
        0 <= k <= fs.len(),
        forall|i: int| 0 <= i < k ==> buildable(#[trigger] fs[i].data_type),
    ensures
        all_buildable(fs, k),
    decreases k,
{
    if k > 0 {
        lemma_all_buildable_intro(fs, k - 1);
    }
}

/// The Arrow type of every column type can be built, and written as a
/// top-level column.
pub proof fn lemma_type_buildable(t: TypeModel)
    ensures
        buildable(arrow_type_of(t)),
        writable(arrow_type_of(t)),
    decreases t,
{
    match t {
        TypeModel::List(e) => {
            lemma_type_buildable(e.col_type);
            assert(arrow_field_named(*e, e.name).data_type == arrow_type_of(e.col_type));
            assert(buildable(arrow_type_of(t)));
        },
        TypeModel::Struct(cs) => {
            lemma_arrow_fields_of(cs);
            let fs = arrow_fields_of(cs);
            assert forall|i: int| 0 <= i < fs.len() implies buildable(#[trigger] fs[i].data_type) by {
                lemma_type_buildable(cs[i].col_type);
            }
            lemma_all_buildable_intro(fs, fs.len() as int);
            assert(buildable(arrow_type_of(t)));
        },
        TypeModel::MapOf(k, v) => {
            lemma_type_buildable(k.col_type);
            lemma_type_buildable(v.col_type);
            let kf = FieldModel { name: "key"@, data_type: arrow_type_of(k.col_type), nullable: false };
            let vf = arrow_field_named(*v, "value"@);
            let fs = seq![kf, vf];
            assert(fs[0] == kf);
            assert(fs[1] == vf);
            assert(buildable(arrow_type_of(t)));
        },
        _ => {},
    }
}

/// The Arrow fields of a list of columns can all be written.
pub proof fn lemma_columns_writable(cs: Seq<ColumnModel>)
    ensures
        all_writable(arrow_fields_of(cs)),
{
    lemma_arrow_fields_of(cs);
    assert forall|i: int| 0 <= i < arrow_fields_of(cs).len() implies writable(
        #[trigger] arrow_fields_of(cs)[i].data_type,
    ) by {
        lemma_type_buildable(cs[i].col_type);
    }
}

} // verus!
