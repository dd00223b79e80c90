use vstd::prelude::*;
use vstd::utf8::{decode_utf8, valid_utf8};

use crate::arrow_model::{ArrowField, ArrowType, ArrowTypeModel, FieldModel, TimeUnit, fields_model, lemma_fields_model};
use crate::column_data::{
    ends_fit, values_model, datas_model, fits, fits_all, lemma_datas_model, lemma_fits_all, slot_start, slots, ColumnData, ColumnValues,
    DataModel, ValuesModel,
};
use crate::decimal::{decimal_text, format_decimal};
use crate::error::ParquetError;
use crate::php::{
    entry_model, array_insert, entries_model, insert, key_of, key_of_text, KeyModel, PhpKey, PhpValue, ValueModel,
};
use crate::temporal::{
    date_text, format_date_days, min_epoch_day, format_datetime_micros, format_time_micros, max_epoch_day, max_timestamp_micros,
    min_timestamp_micros, time_text, timestamp_text,
};
use crate::uuid_text::{format_uuid, uuid_hyphenated};

verus! {

broadcast use vstd::std_specs::vec::group_vec_axioms;

/// What `String::from_utf8_lossy` makes of a run of bytes: each maximal
/// invalid sequence replaced by U+FFFD.
pub uninterp spec fn utf8_lossy(b: Seq<u8>) -> Seq<char>;

/// Calls `String::from_utf8_lossy` and takes the owned string. The result is
/// named; the contract also claims what std documents: valid UTF-8 is decoded
/// as it is.
#[verifier::external_body]
fn lossy_text(b: &Vec<u8>) -> (s: String)
    ensures
        s@ == utf8_lossy(b@),
        valid_utf8(b@) ==> s@ == decode_utf8(b@),
{
    String::from_utf8_lossy(b).into_owned()
}

/// A run of bytes as text: decoded where it is valid UTF-8, otherwise with
/// invalid sequences replaced.
pub open spec fn lossy_decoded(b: Seq<u8>) -> Seq<char> {
    if valid_utf8(b) {
        decode_utf8(b)
    } else {
        utf8_lossy(b)
    }
}

/// Slot `i` of column `d` read as a PHP value: null where the slot is null.
pub open spec fn slot_value(d: DataModel, t: ArrowTypeModel, i: int) -> Result<ValueModel, ParquetError>
    decreases d, 1int,
{
    if 0 <= i < d.valid.len() && d.valid[i] {
        cell(d, t, i)
    } else {
        Ok(ValueModel::Null)
    }
}

/// The PHP value of the (non-null) slot `i` of column `d` of Arrow type `t`:
/// booleans, integers and floats as themselves; dates, times, timestamps,
/// decimals and UUIDs as their texts; binary as text with invalid UTF-8
/// replaced; a list as an array indexed from 0; a struct as an array keyed by
/// field name; a map as an array keyed by its keys (entries whose key is
/// neither a string nor an integer are left out); any other type as null.
/// A date past the last one chrono holds and a timestamp chrono cannot hold
/// are refused.
pub open spec fn cell(d: DataModel, t: ArrowTypeModel, i: int) -> Result<ValueModel, ParquetError>
    decreases d, 0int,
{
    match t {
        ArrowTypeModel::Boolean => match d.values {
            ValuesModel::Booleans(x) => Ok(ValueModel::Bool(x[i])),
            _ => Ok(ValueModel::Null),
        },
        ArrowTypeModel::Int32 => match d.values {
            ValuesModel::Int32s(x) => Ok(ValueModel::Long(x[i] as i64)),
            _ => Ok(ValueModel::Null),
        },
        ArrowTypeModel::Int64 => match d.values {
            ValuesModel::Int64s(x) => Ok(ValueModel::Long(x[i])),
            _ => Ok(ValueModel::Null),
        },
        ArrowTypeModel::Float32 | ArrowTypeModel::Float64 => match d.values {
            ValuesModel::Floats(x) => Ok(ValueModel::Double(x[i])),
            _ => Ok(ValueModel::Null),
        },
        ArrowTypeModel::Utf8 => match d.values {
            ValuesModel::Texts(x) => Ok(ValueModel::Str(x[i])),
            _ => Ok(ValueModel::Null),
        },
        ArrowTypeModel::Date32 => match d.values {
            ValuesModel::Int32s(x) => if x[i] > max_epoch_day() || x[i] < min_epoch_day() {
                Err(ParquetError::DateOutOfRange(x[i]))
            } else {
                Ok(ValueModel::Str(date_text(x[i] as int)))
            },
            _ => Ok(ValueModel::Null),
        },
        ArrowTypeModel::Timestamp(u, _) => if u == TimeUnit::Microsecond {
            match d.values {
                ValuesModel::Int64s(x) => if min_timestamp_micros() <= x[i] <= max_timestamp_micros() {
                    Ok(ValueModel::Str(timestamp_text(x[i] as int)))
                } else {
                    Err(ParquetError::InvalidTimestamp(x[i]))
                },
                _ => Ok(ValueModel::Null),
            }
        } else {
            Ok(ValueModel::Null)
        },
        ArrowTypeModel::Time64(u) => if u == TimeUnit::Microsecond {
            match d.values {
                ValuesModel::Int64s(x) => Ok(ValueModel::Str(time_text(x[i] as int))),
                _ => Ok(ValueModel::Null),
            }
        } else {
            Ok(ValueModel::Null)
        },
        ArrowTypeModel::Decimal128(_, scale) => match d.values {
            ValuesModel::Decimals(x) => Ok(ValueModel::Str(decimal_text(x[i] as int, scale as int))),
            _ => Ok(ValueModel::Null),
        },
        ArrowTypeModel::FixedSizeBinary(w) => if w == 16 {
            match d.values {
                ValuesModel::Uuids(x) => Ok(ValueModel::Str(uuid_hyphenated(x[i]@))),
                _ => Ok(ValueModel::Null),
            }
        } else {
            Ok(ValueModel::Null)
        },
        ArrowTypeModel::Binary => match d.values {
            ValuesModel::Binaries(x) => Ok(ValueModel::Str(lossy_decoded(x[i]))),
            _ => Ok(ValueModel::Null),
        },
        ArrowTypeModel::List(f) => match d.values {
            ValuesModel::Lists(ends, c) => match list_entries(*c, f.data_type, slot_start(ends, i), ends[i] as int) {
                Ok(es) => Ok(ValueModel::Array(es)),
                Err(e) => Err(e),
            },
            _ => Ok(ValueModel::Null),
        },
        ArrowTypeModel::Struct(fs) => match d.values {
            ValuesModel::Structs(cs) => match struct_entries(cs, fs, i, fs.len() as int) {
                Ok(es) => Ok(ValueModel::Array(es)),
                Err(e) => Err(e),
            },
            _ => Ok(ValueModel::Null),
        },
        ArrowTypeModel::MapOf(e, _) => match e.data_type {
            ArrowTypeModel::Struct(fs) => match d.values {
                ValuesModel::Maps(ends, _, _) => match map_entries(
                    d.values,
                    fs[0].data_type,
                    fs[1].data_type,
                    slot_start(ends, i),
                    ends[i] as int,
                ) {
                    Ok(es) => Ok(ValueModel::Array(es)),
                    Err(e) => Err(e),
                },
                _ => Ok(ValueModel::Null),
            },
            _ => Ok(ValueModel::Null),
        },
        ArrowTypeModel::Other => Ok(ValueModel::Null),
    }
}

/// Elements `lo..hi` of a list's child column, keyed from 0.
pub open spec fn list_entries(c: DataModel, t: ArrowTypeModel, lo: int, hi: int) -> Result<
    Seq<(KeyModel, ValueModel)>,
    ParquetError,
>
    decreases c, 2 + hi - lo,
{
    if hi <= lo {
        Ok(Seq::empty())
    } else {
        match list_entries(c, t, lo, hi - 1) {
            Err(e) => Err(e),
            Ok(es) => match slot_value(c, t, hi - 1) {
                Err(e) => Err(e),
                Ok(v) => Ok(es.push((KeyModel::Long((hi - 1 - lo) as i64), v))),
            },
        }
    }
}

/// The first `k` fields of slot `i` of a struct, each stored under its name.
pub open spec fn struct_entries(cs: Seq<DataModel>, fs: Seq<FieldModel>, i: int, k: int) -> Result<
    Seq<(KeyModel, ValueModel)>,
    ParquetError,
>
    decreases cs, k,
{
    if k <= 0 || k > cs.len() || k > fs.len() {
        Ok(Seq::empty())
    } else {
        match struct_entries(cs, fs, i, k - 1) {
            Err(e) => Err(e),
            Ok(es) => match slot_value(cs[k - 1], fs[k - 1].data_type, i) {
                Err(e) => Err(e),
                Ok(v) => Ok(insert(es, key_of_text(fs[k - 1].name), v)),
            },
        }
    }
}

/// Entries `lo..hi` of a map (`m` holds its key and value columns), each
/// stored under its key: a string key by the key it names, an integer key as
/// itself; other keys are left out.
pub open spec fn map_entries(m: ValuesModel, kt: ArrowTypeModel, vt: ArrowTypeModel, lo: int, hi: int) -> Result<
    Seq<(KeyModel, ValueModel)>,
    ParquetError,
>
    decreases m, 2 + hi - lo,
{
    match m {
        ValuesModel::Maps(_, k, v) => if hi <= lo {
            Ok(Seq::empty())
        } else {
            match map_entries(m, kt, vt, lo, hi - 1) {
                Err(e) => Err(e),
                Ok(es) => match cell(*k, kt, hi - 1) {
                    Err(e) => Err(e),
                    Ok(key) => match slot_value(*v, vt, hi - 1) {
                        Err(e) => Err(e),
                        Ok(val) => Ok(
                            match key {
                                ValueModel::Str(s) => insert(es, key_of_text(s), val),
                                ValueModel::Long(n) => insert(es, KeyModel::Long(n), val),
                                _ => es,
                            },
                        ),
                    },
                },
            }
        },
        _ => Ok(Seq::empty()),
    }
}

/// Once reading the elements of a list fails, reading more of them fails the
/// same way.
proof fn lemma_list_entries_err(c: DataModel, t: ArrowTypeModel, lo: int, j: int, hi: int)
    requires
        lo <= j <= hi,
        list_entries(c, t, lo, j) is Err,
    ensures
        list_entries(c, t, lo, hi) == list_entries(c, t, lo, j),
    decreases hi - j,
{
    if hi > j {
        lemma_list_entries_err(c, t, lo, j, hi - 1);
    }
}

proof fn lemma_struct_entries_err(cs: Seq<DataModel>, fs: Seq<FieldModel>, i: int, j: int, k: int)
    requires
        0 <= j <= k <= cs.len(),
        k <= fs.len(),
        struct_entries(cs, fs, i, j) is Err,
    ensures
        struct_entries(cs, fs, i, k) == struct_entries(cs, fs, i, j),
    decreases k - j,
{
    if k > j {
        lemma_struct_entries_err(cs, fs, i, j, k - 1);
    }
}

proof fn lemma_map_entries_err(m: ValuesModel, kt: ArrowTypeModel, vt: ArrowTypeModel, lo: int, j: int, hi: int)
    requires
        lo <= j <= hi,
        map_entries(m, kt, vt, lo, j) is Err,
    ensures
        map_entries(m, kt, vt, lo, hi) == map_entries(m, kt, vt, lo, j),
    decreases hi - j,
{
    if hi > j {
        lemma_map_entries_err(m, kt, vt, lo, j, hi - 1);
    }
}

/// A column whose data fits its field and has at least `i + 1` slots.
pub open spec fn readable_slot(d: DataModel, f: FieldModel, i: int) -> bool {
    fits(d, f.data_type) && 0 <= i < slots(d)
}

/// The PHP value of slot `row_idx` of a column of the given field, read as
/// `cell` says; the slot itself is read even where it is null.
pub fn value_from_array(array: &ColumnData, row_idx: usize, field: &ArrowField) -> (r: Result<PhpValue, ParquetError>)
    requires
        readable_slot(array@, field@, row_idx as int),
    ensures
        match cell(array@, field@.data_type, row_idx as int) {
            Ok(v) => r matches Ok(x) && x@ == v,
            Err(e) => r == Err::<PhpValue, ParquetError>(e),
        },
    decreases array@, 0int,
{
    let i = row_idx;
    match &field.data_type {
        ArrowType::Boolean => match &array.values {
            ColumnValues::Booleans(x) => Ok(PhpValue::Bool(x[i])),
            _ => Ok(PhpValue::Null),
        },
        ArrowType::Int32 => match &array.values {
            ColumnValues::Int32s(x) => Ok(PhpValue::Long(x[i] as i64)),
            _ => Ok(PhpValue::Null),
        },
        ArrowType::Int64 => match &array.values {
            ColumnValues::Int64s(x) => Ok(PhpValue::Long(x[i])),
            _ => Ok(PhpValue::Null),
        },
        ArrowType::Float32 | ArrowType::Float64 => match &array.values {
            ColumnValues::Floats(x) => Ok(PhpValue::Double(x[i])),
            _ => Ok(PhpValue::Null),
        },
        ArrowType::Utf8 => match &array.values {
            ColumnValues::Texts(x) => Ok(PhpValue::Str(x[i].clone())),
            _ => Ok(PhpValue::Null),
        },
        ArrowType::Date32 => match &array.values {
            ColumnValues::Int32s(x) => {
                let days = x[i];
                if days > 95026236 || days < -96465292 {
                    Err(ParquetError::DateOutOfRange(days))
                } else {
                    Ok(PhpValue::Str(format_date_days(days)))
                }
            },
            _ => Ok(PhpValue::Null),
        },
        ArrowType::Timestamp(u, _) => {
            if *u == TimeUnit::Microsecond {
                match &array.values {
                    ColumnValues::Int64s(x) => {
                        let micros = x[i];
                        match format_datetime_micros(micros) {
                            Some(s) => Ok(PhpValue::Str(s)),
                            None => Err(ParquetError::InvalidTimestamp(micros)),
                        }
                    },
                    _ => Ok(PhpValue::Null),
                }
            } else {
                Ok(PhpValue::Null)
            }
        },
        ArrowType::Time64(u) => {
            if *u == TimeUnit::Microsecond {
                match &array.values {
                    ColumnValues::Int64s(x) => Ok(PhpValue::Str(format_time_micros(x[i]))),
                    _ => Ok(PhpValue::Null),
                }
            } else {
                Ok(PhpValue::Null)
            }
        },
        ArrowType::Decimal128(_, scale) => match &array.values {
            ColumnValues::Decimals(x) => Ok(PhpValue::Str(format_decimal(x[i], *scale))),
            _ => Ok(PhpValue::Null),
        },
        ArrowType::FixedSizeBinary(w) => {
            if *w == 16 {
                match &array.values {
                    ColumnValues::Uuids(x) => Ok(PhpValue::Str(format_uuid(x[i]))),
                    _ => Ok(PhpValue::Null),
                }
            } else {
                Ok(PhpValue::Null)
            }
        },
        ArrowType::Binary => match &array.values {
            ColumnValues::Binaries(x) => Ok(PhpValue::Str(lossy_text(&x[i]))),
            _ => Ok(PhpValue::Null),
        },
        ArrowType::List(ef) => match &array.values {
            ColumnValues::Lists(ends, c) => {
                let lo: usize = if i == 0 { 0 } else { ends[i - 1] };
                let hi: usize = ends[i];
                match list_value(c, lo, hi, ef) {
                    Ok(es) => Ok(PhpValue::Array(es)),
                    Err(e) => Err(e),
                }
            },
            _ => Ok(PhpValue::Null),
        },
        ArrowType::Struct(fs) => match &array.values {
            ColumnValues::Structs(cs) => match {
                proof {
                    lemma_fields_model(fs@);
                    lemma_datas_model(cs@);
                }
                struct_value(cs, fs, i, Ghost(slots(array@)))
            } {
                Ok(es) => Ok(PhpValue::Array(es)),
                Err(e) => Err(e),
            },
            _ => Ok(PhpValue::Null),
        },
        ArrowType::MapOf(ef, _) => match &ef.data_type {
            ArrowType::Struct(sfs) => match &array.values {
                ColumnValues::Maps(ends, keys, vals) => {
                    proof {
                        lemma_fields_model(sfs@);
                        assert(ef@.data_type == ArrowTypeModel::Struct(fields_model(sfs@)));
                        assert(fields_model(sfs@).len() >= 2);
                    }
                    let lo: usize = if i == 0 { 0 } else { ends[i - 1] };
                    let hi: usize = ends[i];
                    match map_value(&array.values, keys, vals, lo, hi, &sfs[0], &sfs[1]) {
                        Ok(es) => Ok(PhpValue::Array(es)),
                        Err(e) => Err(e),
                    }
                },
                _ => Ok(PhpValue::Null),
            },
            _ => Ok(PhpValue::Null),
        },
        ArrowType::Other => Ok(PhpValue::Null),
    }
}

/// The elements `lo..hi` of a list's child column `c`, keyed from 0.
fn list_value(c: &ColumnData, lo: usize, hi: usize, ef: &ArrowField) -> (r: Result<
    Vec<(PhpKey, PhpValue)>,
    ParquetError,
>)
    requires
        lo <= hi <= slots(c@),
        fits(c@, ef@.data_type),
    ensures
        match list_entries(c@, ef@.data_type, lo as int, hi as int) {
            Ok(es) => r matches Ok(x) && entries_model(x@) == es,
            Err(e) => r == Err::<Vec<(PhpKey, PhpValue)>, ParquetError>(e),
        },
    decreases c@, 1int,
{
    let ghost t = ef@.data_type;
    let mut arr: Vec<(PhpKey, PhpValue)> = Vec::new();
    let mut j: usize = lo;
    assert(entries_model(arr@) =~= Seq::<(KeyModel, ValueModel)>::empty());
    while j < hi
        invariant
            lo <= j <= hi,
            hi <= slots(c@),
            fits(c@, t),
            t == ef@.data_type,
            list_entries(c@, t, lo as int, j as int) == Ok::<Seq<(KeyModel, ValueModel)>, ParquetError>(
                entries_model(arr@),
            ),
        decreases hi - j,
    {
        let v = if c.valid[j] {
            match value_from_array(c, j, ef) {
                Ok(v) => v,
                Err(e) => {
                    proof {
                        lemma_list_entries_err(c@, t, lo as int, j + 1, hi as int);
                    }
                    return Err(e);
                },
            }
        } else {
            PhpValue::Null
        };
        let ghost before = arr@;
        let key = PhpKey::Long((j - lo) as i64);
        arr.push((key, v));
        proof {
            assert(arr@.drop_last() =~= before);
            assert(slot_value(c@, t, j as int) == Ok::<ValueModel, ParquetError>(v@));
            assert(entries_model(arr@) == entries_model(before).push(entry_model((key, v))));
            assert(list_entries(c@, t, lo as int, j + 1) == Ok::<Seq<(KeyModel, ValueModel)>, ParquetError>(
                entries_model(before).push((KeyModel::Long((j - lo) as i64), v@)),
            ));
        }
        j = j + 1;
    }
    Ok(arr)
}

/// Slot `i` of a struct column with children `cs`, each field stored under
/// its name.
fn struct_value(cs: &Vec<ColumnData>, fs: &Vec<ArrowField>, i: usize, Ghost(n): Ghost<int>) -> (r: Result<
    Vec<(PhpKey, PhpValue)>,
    ParquetError,
>)
    requires
        cs.len() == fs.len(),
        fits_all(datas_model(cs@), fields_model(fs@), n, cs.len() as int),
        i < n,
    ensures
        match struct_entries(datas_model(cs@), fields_model(fs@), i as int, fs.len() as int) {
            Ok(es) => r matches Ok(x) && entries_model(x@) == es,
            Err(e) => r == Err::<Vec<(PhpKey, PhpValue)>, ParquetError>(e),
        },
    decreases datas_model(cs@), 1int,
{
    let ghost fsm = fields_model(fs@);
    let ghost csm = datas_model(cs@);
    proof {
        lemma_fields_model(fs@);
        lemma_datas_model(cs@);
    }
    let mut arr: Vec<(PhpKey, PhpValue)> = Vec::new();
    let mut k: usize = 0;
    assert(entries_model(arr@) =~= Seq::<(KeyModel, ValueModel)>::empty());
    while k < fs.len()
        invariant
            k <= fs.len(),
            fsm == fields_model(fs@),
            csm == datas_model(cs@),
            fsm.len() == fs.len(),
            csm.len() == cs.len(),
            cs.len() == fs.len(),
            forall|j: int| 0 <= j < fs.len() ==> #[trigger] fsm[j] == fs@[j]@,
            forall|j: int| 0 <= j < cs.len() ==> #[trigger] csm[j] == cs@[j]@,
            fits_all(csm, fsm, n, csm.len() as int),
            i < n,
            struct_entries(csm, fsm, i as int, k as int) == Ok::<Seq<(KeyModel, ValueModel)>, ParquetError>(
                entries_model(arr@),
            ),
        decreases fs.len() - k,
    {
        proof {
            lemma_fits_all(csm, fsm, n, csm.len() as int, k as int);
            assert(decreases_to!(csm => csm[k as int]));
        }
        let child = &cs[k];
        let v = if child.valid[i] {
            match value_from_array(child, i, &fs[k]) {
                Ok(v) => v,
                Err(e) => {
                    proof {
                        lemma_struct_entries_err(csm, fsm, i as int, k + 1, fs.len() as int);
                    }
                    return Err(e);
                },
            }
        } else {
            PhpValue::Null
        };
        proof {
            assert(slot_value(csm[k as int], fsm[k as int].data_type, i as int) == Ok::<ValueModel, ParquetError>(v@));
        }
        let key = key_of(fs[k].name.as_str());
        array_insert(&mut arr, key, v);
        k = k + 1;
    }
    Ok(arr)
}

/// Entries `lo..hi` of a map column (`m` holds its key column `keys` and
/// value column `vals`), each stored under its key.
fn map_value(
    m: &ColumnValues,
    keys: &ColumnData,
    vals: &ColumnData,
    lo: usize,
    hi: usize,
    kf: &ArrowField,
    vf: &ArrowField,
) -> (r: Result<Vec<(PhpKey, PhpValue)>, ParquetError>)
    requires
        values_model(*m) == ValuesModel::Maps(ends_of(values_model(*m)), Box::new(keys@), Box::new(vals@)),
        lo <= hi,
        hi <= slots(keys@),
        hi <= slots(vals@),
        fits(keys@, kf@.data_type),
        fits(vals@, vf@.data_type),
    ensures
        match map_entries(values_model(*m), kf@.data_type, vf@.data_type, lo as int, hi as int) {
            Ok(es) => r matches Ok(x) && entries_model(x@) == es,
            Err(e) => r == Err::<Vec<(PhpKey, PhpValue)>, ParquetError>(e),
        },
    decreases values_model(*m), 1int,
{
    let ghost mm = values_model(*m);
    let mut arr: Vec<(PhpKey, PhpValue)> = Vec::new();
    let mut j: usize = lo;
    assert(entries_model(arr@) =~= Seq::<(KeyModel, ValueModel)>::empty());
    while j < hi
        invariant
            lo <= j <= hi,
            hi <= slots(keys@),
            hi <= slots(vals@),
            mm == values_model(*m),
            mm == ValuesModel::Maps(ends_of(mm), Box::new(keys@), Box::new(vals@)),
            fits(keys@, kf@.data_type),
            fits(vals@, vf@.data_type),
            map_entries(mm, kf@.data_type, vf@.data_type, lo as int, j as int) == Ok::<
                Seq<(KeyModel, ValueModel)>,
                ParquetError,
            >(entries_model(arr@)),
        decreases hi - j,
    {
        let key = match value_from_array(keys, j, kf) {
            Ok(v) => v,
            Err(e) => {
                proof {
                    lemma_map_entries_err(mm, kf@.data_type, vf@.data_type, lo as int, j + 1, hi as int);
                }
                return Err(e);
            },
        };
        let val = if vals.valid[j] {
            match value_from_array(vals, j, vf) {
                Ok(v) => v,
                Err(e) => {
                    proof {
                        lemma_map_entries_err(mm, kf@.data_type, vf@.data_type, lo as int, j + 1, hi as int);
                    }
                    return Err(e);
                },
            }
        } else {
            PhpValue::Null
        };
        proof {
            assert(slot_value(vals@, vf@.data_type, j as int) == Ok::<ValueModel, ParquetError>(val@));
        }
        match key {
            PhpValue::Str(s) => {
                let k = key_of(s.as_str());
                array_insert(&mut arr, k, val);
            },
            PhpValue::Long(n) => {
                array_insert(&mut arr, PhpKey::Long(n), val);
            },
            _ => {},
        }
        j = j + 1;
    }
    Ok(arr)
}

/// The end offsets of a list or map model (empty for other values).
pub open spec fn ends_of(m: ValuesModel) -> Seq<usize> {
    match m {
        ValuesModel::Lists(ends, _) => ends,
        ValuesModel::Maps(ends, _, _) => ends,
        _ => Seq::empty(),
    }
}

/// A record batch: its fields, one column per field, and its number of rows.
pub struct RecordBatchData {
    pub fields: Vec<ArrowField>,
    pub columns: Vec<ColumnData>,
    pub num_rows: usize,
}

/// One column per field, each with `n` slots and fitting its field.
pub open spec fn batch_fits(fs: Seq<FieldModel>, cs: Seq<DataModel>, n: int) -> bool {
    &&& fs.len() == cs.len()
    &&& forall|c: int| 0 <= c < cs.len() ==> slots(#[trigger] cs[c]) == n && fits(cs[c], fs[c].data_type)
}

/// The first `k` columns of row `r`: each field's name with the value of its
/// slot.
pub open spec fn row_values(cs: Seq<DataModel>, fs: Seq<FieldModel>, r: int, k: int) -> Result<
    Seq<(Seq<char>, ValueModel)>,
    ParquetError,
>
    decreases k,
{
    if k <= 0 {
        Ok(Seq::empty())
    } else {
        match row_values(cs, fs, r, k - 1) {
            Err(e) => Err(e),
            Ok(row) => match slot_value(cs[k - 1], fs[k - 1].data_type, r) {
                Err(e) => Err(e),
                Ok(v) => Ok(row.push((fs[k - 1].name, v))),
            },
        }
    }
}

/// The first `n` rows of a batch, row by row; the first failure in that
/// order is the result.
pub open spec fn batch_rows(cs: Seq<DataModel>, fs: Seq<FieldModel>, n: int) -> Result<
    Seq<Seq<(Seq<char>, ValueModel)>>,
    ParquetError,
>
    decreases n,
{
    if n <= 0 {
        Ok(Seq::empty())
    } else {
        match batch_rows(cs, fs, n - 1) {
            Err(e) => Err(e),
            Ok(rows) => match row_values(cs, fs, n - 1, fs.len() as int) {
                Err(e) => Err(e),
                Ok(row) => Ok(rows.push(row)),
            },
        }
    }
}

pub open spec fn row_model(row: Seq<(String, PhpValue)>) -> Seq<(Seq<char>, ValueModel)> {
    row.map_values(|e: (String, PhpValue)| (e.0@, e.1@))
}

pub open spec fn rows_model(rows: Seq<Vec<(String, PhpValue)>>) -> Seq<Seq<(Seq<char>, ValueModel)>> {
    rows.map_values(|r: Vec<(String, PhpValue)>| row_model(r@))
}

proof fn lemma_row_values_err(cs: Seq<DataModel>, fs: Seq<FieldModel>, r: int, j: int, k: int)
    requires
        0 <= j <= k,
        row_values(cs, fs, r, j) is Err,
    ensures
        row_values(cs, fs, r, k) == row_values(cs, fs, r, j),
    decreases k - j,
{
    if k > j {
        lemma_row_values_err(cs, fs, r, j, k - 1);
    }
}

proof fn lemma_batch_rows_err(cs: Seq<DataModel>, fs: Seq<FieldModel>, j: int, n: int)
    requires
        0 <= j <= n,
        batch_rows(cs, fs, j) is Err,
    ensures
        batch_rows(cs, fs, n) == batch_rows(cs, fs, j),
    decreases n - j,
{
    if n > j {
        lemma_batch_rows_err(cs, fs, j, n - 1);
    }
}

/// Row `r` of a batch: each field's name with the PHP value of its slot.
fn row_from_batch(batch: &RecordBatchData, r: usize) -> (res: Result<Vec<(String, PhpValue)>, ParquetError>)
    requires
        batch_fits(fields_model(batch.fields@), datas_model(batch.columns@), batch.num_rows as int),
        r < batch.num_rows,
    ensures
        match row_values(datas_model(batch.columns@), fields_model(batch.fields@), r as int, batch.fields.len() as int) {
            Ok(row) => res matches Ok(x) && row_model(x@) == row,
            Err(e) => res == Err::<Vec<(String, PhpValue)>, ParquetError>(e),
        },
{
    let ghost fsm = fields_model(batch.fields@);
    let ghost csm = datas_model(batch.columns@);
    proof {
        lemma_fields_model(batch.fields@);
        lemma_datas_model(batch.columns@);
    }
    let mut row: Vec<(String, PhpValue)> = Vec::new();
    let mut k: usize = 0;
    assert(row_model(row@) =~= Seq::<(Seq<char>, ValueModel)>::empty());
    while k < batch.fields.len()
        invariant
            k <= batch.fields.len(),
            fsm == fields_model(batch.fields@),
            csm == datas_model(batch.columns@),
            fsm.len() == batch.fields.len(),
            csm.len() == batch.columns.len(),
            forall|j: int| 0 <= j < fsm.len() ==> #[trigger] fsm[j] == batch.fields@[j]@,
            forall|j: int| 0 <= j < csm.len() ==> #[trigger] csm[j] == batch.columns@[j]@,
            batch_fits(fsm, csm, batch.num_rows as int),
            r < batch.num_rows,
            row_values(csm, fsm, r as int, k as int) == Ok::<Seq<(Seq<char>, ValueModel)>, ParquetError>(
                row_model(row@),
            ),
        decreases batch.fields.len() - k,
    {
        assert(slots(csm[k as int]) == batch.num_rows && fits(csm[k as int], fsm[k as int].data_type));
        let col = &batch.columns[k];
        let field = &batch.fields[k];
        let v = if col.valid[r] {
            match value_from_array(col, r, field) {
                Ok(v) => v,
                Err(e) => {
                    proof {
                        lemma_row_values_err(csm, fsm, r as int, k + 1, batch.fields.len() as int);
                    }
                    return Err(e);
                },
            }
        } else {
            PhpValue::Null
        };
        let ghost before = row@;
        row.push((field.name.clone(), v));
        proof {
            assert(row_model(row@) =~= row_model(before).push((fsm[k as int].name, v@)));
        }
        k = k + 1;
    }
    Ok(row)
}

/// The rows of a record batch, each a list of (field name, PHP value) pairs
/// in field order: a null slot reads as null, any other slot as `cell` says.
pub fn record_batch_to_rows(batch: &RecordBatchData) -> (r: Result<Vec<Vec<(String, PhpValue)>>, ParquetError>)
    requires
        batch_fits(fields_model(batch.fields@), datas_model(batch.columns@), batch.num_rows as int),
    ensures
        match batch_rows(datas_model(batch.columns@), fields_model(batch.fields@), batch.num_rows as int) {
            Ok(rows) => r matches Ok(x) && rows_model(x@) == rows,
            Err(e) => r == Err::<Vec<Vec<(String, PhpValue)>>, ParquetError>(e),
        },
{
    let ghost fsm = fields_model(batch.fields@);
    let ghost csm = datas_model(batch.columns@);
    proof {
        lemma_fields_model(batch.fields@);
    }
    let mut rows: Vec<Vec<(String, PhpValue)>> = Vec::new();
    let mut i: usize = 0;
    assert(rows_model(rows@) =~= Seq::<Seq<(Seq<char>, ValueModel)>>::empty());
    while i < batch.num_rows
        invariant
            i <= batch.num_rows,
            fsm == fields_model(batch.fields@),
            csm == datas_model(batch.columns@),
            fsm.len() == batch.fields.len(),
            batch_fits(fsm, csm, batch.num_rows as int),
            batch_rows(csm, fsm, i as int) == Ok::<Seq<Seq<(Seq<char>, ValueModel)>>, ParquetError>(rows_model(rows@)),
        decreases batch.num_rows - i,
    {
        let row = match row_from_batch(batch, i) {
            Ok(row) => row,
            Err(e) => {
                proof {
                    lemma_batch_rows_err(csm, fsm, i + 1, batch.num_rows as int);
                }
                return Err(e);
            },
        };
        let ghost before = rows@;
        rows.push(row);
        proof {
            assert(rows_model(rows@) =~= rows_model(before).push(row_model(row@)));
        }
        i = i + 1;
    }
    Ok(rows)
}

/// Whether end offsets never decrease and stay within `limit`.
fn check_ends(ends: &Vec<usize>, limit: usize) -> (b: bool)
    ensures
        b == ends_fit(ends@, limit as int),
{
    let mut i: usize = 0;
    while i < ends.len()
        invariant
            i <= ends.len(),
            forall|a: int, c: int| 0 <= a <= c < i ==> ends@[a] <= ends@[c],
            forall|a: int| 0 <= a < i ==> ends@[a] <= limit,
        decreases ends.len() - i,
    {
        if ends[i] > limit {
            return false;
        }
        if i > 0 && ends[i - 1] > ends[i] {
            return false;
        }
        i = i + 1;
    }
    true
}

/// Whether a column's data has the shape its Arrow type asks for (`fits`).
pub fn column_fits(d: &ColumnData, t: &ArrowType) -> (b: bool)
    ensures
        b == fits(d@, t@),
    decreases d@, 0int,
{
    let n = d.valid.len();
    match t {
        ArrowType::Boolean => match &d.values {
            ColumnValues::Booleans(x) => x.len() == n,
            _ => false,
        },
        ArrowType::Int32 | ArrowType::Date32 => match &d.values {
            ColumnValues::Int32s(x) => x.len() == n,
            _ => false,
        },
        ArrowType::Int64 => match &d.values {
            ColumnValues::Int64s(x) => x.len() == n,
            _ => false,
        },
        ArrowType::Timestamp(u, _) => {
            if *u == TimeUnit::Microsecond {
                match &d.values {
                    ColumnValues::Int64s(x) => x.len() == n,
                    _ => false,
                }
            } else {
                true
            }
        },
        ArrowType::Time64(u) => {
            if *u == TimeUnit::Microsecond {
                match &d.values {
                    ColumnValues::Int64s(x) => x.len() == n,
                    _ => false,
                }
            } else {
                true
            }
        },
        ArrowType::Float32 | ArrowType::Float64 => match &d.values {
            ColumnValues::Floats(x) => x.len() == n,
            _ => false,
        },
        ArrowType::Utf8 => match &d.values {
            ColumnValues::Texts(x) => x.len() == n,
            _ => false,
        },
        ArrowType::Decimal128(_, _) => match &d.values {
            ColumnValues::Decimals(x) => x.len() == n,
            _ => false,
        },
        ArrowType::FixedSizeBinary(w) => {
            if *w == 16 {
                match &d.values {
                    ColumnValues::Uuids(x) => x.len() == n,
                    _ => false,
                }
            } else {
                true
            }
        },
        ArrowType::Binary => match &d.values {
            ColumnValues::Binaries(x) => x.len() == n,
            _ => false,
        },
        ArrowType::List(f) => match &d.values {
            ColumnValues::Lists(ends, c) => {
                proof {
                    assert(d@.values == ValuesModel::Lists(ends@, Box::new(c@)));
                    assert(decreases_to!(d@ => d@.values));
                    assert(decreases_to!(d@.values => d@.values->Lists_1));
                }
                let b = ends.len() == n && check_ends(ends, c.valid.len()) && column_fits(c, &f.data_type);
                assert(b == fits(d@, t@));
                b
            },
            _ => false,
        },
        ArrowType::Struct(fs) => match &d.values {
            ColumnValues::Structs(cs) => {
                proof {
                    lemma_fields_model(fs@);
                    lemma_datas_model(cs@);
                    assert(d@.values == ValuesModel::Structs(datas_model(cs@)));
                    assert(decreases_to!(d@ => d@.values));
                    assert(decreases_to!(d@.values => d@.values->Structs_0));
                }
                let b = cs.len() == fs.len() && children_fit(cs, fs, n);
                assert(b == fits(d@, t@));
                b
            },
            _ => false,
        },
        ArrowType::MapOf(e, _) => match &d.values {
            ColumnValues::Maps(ends, k, v) => {
                if ends.len() != n {
                    return false;
                }
                match &e.data_type {
                    ArrowType::Struct(fs) => {
                        proof {
                            lemma_fields_model(fs@);
                        }
                        assert(e@.data_type == ArrowTypeModel::Struct(fields_model(fs@)));
                        assert(d@.values == ValuesModel::Maps(ends@, Box::new(k@), Box::new(v@)));
                        let b = fs.len() >= 2 && check_ends(ends, k.valid.len()) && check_ends(ends, v.valid.len())
                            && column_fits(k, &fs[0].data_type) && column_fits(v, &fs[1].data_type);
                        assert(b == fits(d@, t@));
                        b
                    },
                    _ => true,
                }
            },
            _ => false,
        },
        ArrowType::Other => true,
    }
}

/// Whether each child of a struct of `n` slots has `n` slots and fits its
/// field (`fits_all`).
fn children_fit(cs: &Vec<ColumnData>, fs: &Vec<ArrowField>, n: usize) -> (b: bool)
    requires
        cs.len() == fs.len(),
    ensures
        b == fits_all(datas_model(cs@), fields_model(fs@), n as int, cs.len() as int),
    decreases datas_model(cs@), 1int,
{
    let ghost csm = datas_model(cs@);
    let ghost fsm = fields_model(fs@);
    proof {
        lemma_fields_model(fs@);
        lemma_datas_model(cs@);
    }
    let mut k: usize = 0;
    while k < cs.len()
        invariant
            k <= cs.len(),
            cs.len() == fs.len(),
            csm == datas_model(cs@),
            fsm == fields_model(fs@),
            csm.len() == cs.len(),
            fsm.len() == fs.len(),
            forall|j: int| 0 <= j < cs.len() ==> #[trigger] csm[j] == cs@[j]@,
            forall|j: int| 0 <= j < fs.len() ==> #[trigger] fsm[j] == fs@[j]@,
            fits_all(csm, fsm, n as int, k as int),
        decreases cs.len() - k,
    {
        proof {
            assert(decreases_to!(csm => csm[k as int]));
        }
        let ok = cs[k].valid.len() == n && column_fits(&cs[k], &fs[k].data_type);
        if !ok {
            proof {
                lemma_fits_all_prefix(csm, fsm, n as int, k + 1, cs.len() as int);
            }
            return false;
        }
        k = k + 1;
    }
    true
}

/// A struct whose first `k` children do not fit does not fit.
proof fn lemma_fits_all_prefix(cs: Seq<DataModel>, fs: Seq<FieldModel>, n: int, k: int, m: int)
    requires
        0 < k <= m <= cs.len(),
        m <= fs.len(),
        !fits_all(cs, fs, n, k),
    ensures
        !fits_all(cs, fs, n, m),
    decreases m - k,
{
    if m > k {
        lemma_fits_all_prefix(cs, fs, n, k, m - 1);
    }
}

/// Whether a batch's columns each have the batch's number of slots and fit
/// their fields (`batch_fits`).
pub fn batch_is_consistent(batch: &RecordBatchData) -> (b: bool)
    ensures
        b == batch_fits(fields_model(batch.fields@), datas_model(batch.columns@), batch.num_rows as int),
{
    proof {
        lemma_fields_model(batch.fields@);
        lemma_datas_model(batch.columns@);
    }
    if batch.fields.len() != batch.columns.len() {
        return false;
    }
    let ghost csm = datas_model(batch.columns@);
    let ghost fsm = fields_model(batch.fields@);
    let mut k: usize = 0;
    while k < batch.columns.len()
        invariant
            k <= batch.columns.len(),
            batch.fields.len() == batch.columns.len(),
            csm == datas_model(batch.columns@),
            fsm == fields_model(batch.fields@),
            csm.len() == batch.columns.len(),
            fsm.len() == batch.fields.len(),
            forall|j: int| 0 <= j < csm.len() ==> #[trigger] csm[j] == batch.columns@[j]@,
            forall|j: int| 0 <= j < fsm.len() ==> #[trigger] fsm[j] == batch.fields@[j]@,
            forall|c: int| 0 <= c < k ==> slots(#[trigger] csm[c]) == batch.num_rows && fits(csm[c], fsm[c].data_type),
        decreases batch.columns.len() - k,
    {
        let col = &batch.columns[k];
        if !(col.valid.len() == batch.num_rows && column_fits(col, &batch.fields[k].data_type)) {
            assert(!(slots(csm[k as int]) == batch.num_rows && fits(csm[k as int], fsm[k as int].data_type)));
            return false;
        }
        k = k + 1;
    }
    true
}

} // verus!
