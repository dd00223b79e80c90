use vstd::prelude::*;

use crate::arrow_model::{ArrowTypeModel, FieldModel};
use crate::column_data::{fits, slots, DataModel};
use crate::decode::{batch_fits, batch_rows, row_values, slot_value};
use crate::encode::{
    column_appended, column_built, columns_built, list_rows, map_rows, primitive_rows, struct_rows,
};
use crate::list_roundtrip::{element_type, elements_total, law_write_read_list, lemma_list_rows_read, list_read};
use crate::map_roundtrip::{law_write_read_map, lemma_map_rows_read, map_value_read, string_keyed_map};
use crate::php::ValueModel;
use crate::roundtrip::{law_write_read_plain, lemma_plain_rows, plain_type, written_value};
use crate::struct_roundtrip::{law_write_read_struct, lemma_fits_all_intro, lemma_struct_rows_read, plain_fields, struct_value_read};

verus! {

/// The fields of the entries of a map type (none for other types).
pub open spec fn entry_fields(t: ArrowTypeModel) -> Seq<FieldModel> {
    match t {
        ArrowTypeModel::MapOf(e, _) => match e.data_type {
            ArrowTypeModel::Struct(sfs) => sfs,
            _ => Seq::empty(),
        },
        _ => Seq::empty(),
    }
}

/// The fields of a struct type (none for other types).
pub open spec fn struct_fields(t: ArrowTypeModel) -> Seq<FieldModel> {
    match t {
        ArrowTypeModel::Struct(fs) => fs,
        _ => Seq::empty(),
    }
}

/// A column whose values read back as the laws of this crate say, for the
/// given rows: booleans, 32- or 64-bit integers, doubles, strings or binary;
/// lists and string-keyed maps of those, when the rows hold no more elements
/// or entries together than a `usize` counts; structs of those.
pub open spec fn reads_back(f: FieldModel, rows: Seq<ValueModel>) -> bool {
    let t = f.data_type;
    let bounded = elements_total(rows, f.name, rows.len() as int) <= usize::MAX;
    ||| plain_type(t)
    ||| t is List && plain_type(element_type(t)) && bounded
    ||| t is Struct && plain_fields(struct_fields(t))
    ||| string_keyed_map(t, entry_fields(t)) && bounded
}

/// What the reader gives for the value `w` written to a column of field
/// `f`: the value itself for booleans, integers, doubles, strings and
/// binary; for lists, structs and maps, as `list_read`, `struct_value_read`
/// and `map_value_read` say.
pub open spec fn read_back(f: FieldModel, w: ValueModel) -> ValueModel {
    match f.data_type {
        ArrowTypeModel::List(_) => list_read(w),
        ArrowTypeModel::Struct(fs) => struct_value_read(w, fs),
        ArrowTypeModel::MapOf(_, _) => map_value_read(w),
        _ => w,
    }
}

proof fn lemma_column_reads_back(rows: Seq<ValueModel>, f: FieldModel, r: int)
    requires
        reads_back(f, rows),
        column_built(rows, f) is Ok,
        0 <= r < rows.len(),
    ensures
        column_built(rows, f) matches Ok(d) && slots(d) == rows.len() && fits(d, f.data_type) && slot_value(
            d,
            f.data_type,
            r,
        ) == Ok::<ValueModel, crate::error::ParquetError>(read_back(f, written_value(rows[r], f.name))),
{
    let t = f.data_type;
    if plain_type(t) {
        law_write_read_plain(rows, f, r);
    } else if t is List {
        law_write_read_list(rows, f, r);
    } else if t is Struct {
        law_write_read_struct(rows, f, struct_fields(t), r);
    } else {
        law_write_read_map(rows, f, entry_fields(t), r);
    }
}

proof fn lemma_columns_built(rows: Seq<ValueModel>, fs: Seq<FieldModel>, k: int)
    requires
        0 <= k <= fs.len(),
        columns_built(rows, fs, k) is Ok,
    ensures
        columns_built(rows, fs, k) matches Ok(cs) && cs.len() == k && forall|c: int|
            0 <= c < k ==> column_built(rows, fs[c]) == Ok::<DataModel, crate::error::ErrorModel>(#[trigger] cs[c]),
    decreases k,
{
    if k > 0 {
        lemma_columns_built(rows, fs, k - 1);
    }
}

/// The row the reader gives for row `r` of the given rows: each field's
/// name with what its column reads back.
pub open spec fn row_read(rows: Seq<ValueModel>, fs: Seq<FieldModel>, r: int, k: int) -> Seq<(Seq<char>, ValueModel)> {
    Seq::new(k as nat, |c: int| (fs[c].name, read_back(fs[c], written_value(rows[r], fs[c].name))))
}

proof fn lemma_row_values(rows: Seq<ValueModel>, fs: Seq<FieldModel>, cs: Seq<DataModel>, r: int, k: int)
    requires
        0 <= k <= fs.len(),
        cs.len() == fs.len(),
        forall|c: int|
            0 <= c < fs.len() ==> #[trigger] slot_value(cs[c], fs[c].data_type, r) == Ok::<
                ValueModel,
                crate::error::ParquetError,
            >(read_back(fs[c], written_value(rows[r], fs[c].name))),
    ensures
        row_values(cs, fs, r, k) == Ok::<Seq<(Seq<char>, ValueModel)>, crate::error::ParquetError>(
            row_read(rows, fs, r, k),
        ),
    decreases k,
{
    if k > 0 {
        lemma_row_values(rows, fs, cs, r, k - 1);
        assert(slot_value(cs[k - 1], fs[k - 1].data_type, r) == Ok::<ValueModel, crate::error::ParquetError>(
            read_back(fs[k - 1], written_value(rows[r], fs[k - 1].name)),
        ));
        assert(row_read(rows, fs, r, k) =~= row_read(rows, fs, r, k - 1).push(
            (fs[k - 1].name, read_back(fs[k - 1], written_value(rows[r], fs[k - 1].name))),
        ));
    } else {
        assert(row_read(rows, fs, r, 0) =~= Seq::<(Seq<char>, ValueModel)>::empty());
    }
}

proof fn lemma_batch_rows(rows: Seq<ValueModel>, fs: Seq<FieldModel>, cs: Seq<DataModel>, n: int)
    requires
        0 <= n <= rows.len(),
        cs.len() == fs.len(),
        forall|c: int, r: int|
            0 <= c < fs.len() && 0 <= r < rows.len() ==> #[trigger] slot_value(cs[c], fs[c].data_type, r) == Ok::<
                ValueModel,
                crate::error::ParquetError,
            >(read_back(fs[c], written_value(rows[r], fs[c].name))),
    ensures
        batch_rows(cs, fs, n) == Ok::<Seq<Seq<(Seq<char>, ValueModel)>>, crate::error::ParquetError>(
            Seq::new(n as nat, |r: int| row_read(rows, fs, r, fs.len() as int)),
        ),
    decreases n,
{
    if n > 0 {
        lemma_batch_rows(rows, fs, cs, n - 1);
        let r = n - 1;
        assert forall|c: int| 0 <= c < fs.len() implies #[trigger] slot_value(cs[c], fs[c].data_type, r) == Ok::<
            ValueModel,
            crate::error::ParquetError,
        >(read_back(fs[c], written_value(rows[r], fs[c].name))) by {}
        lemma_row_values(rows, fs, cs, r, fs.len() as int);
        assert(Seq::new(n as nat, |r: int| row_read(rows, fs, r, fs.len() as int)) =~= Seq::new(
            (n - 1) as nat,
            |r: int| row_read(rows, fs, r, fs.len() as int),
        ).push(row_read(rows, fs, r, fs.len() as int)));
    } else {
        assert(Seq::new(0, |r: int| row_read(rows, fs, r, fs.len() as int)) =~= Seq::<
            Seq<(Seq<char>, ValueModel)>,
        >::empty());
    }
}

proof fn lemma_built_column(rows: Seq<ValueModel>, fs: Seq<FieldModel>, cs: Seq<DataModel>, c: int, r: int)
    requires
        0 <= c < fs.len(),
        reads_back(fs[c], rows),
        column_built(rows, fs[c]) == Ok::<DataModel, crate::error::ErrorModel>(cs[c]),
        0 <= r < rows.len(),
    ensures
        slots(cs[c]) == rows.len(),
        fits(cs[c], fs[c].data_type),
        slot_value(cs[c], fs[c].data_type, r) == Ok::<ValueModel, crate::error::ParquetError>(
            read_back(fs[c], written_value(rows[r], fs[c].name)),
        ),
{
    lemma_column_reads_back(rows, fs[c], r);
}

/// A column built from the rows, of a type that reads back, has one slot per
/// row and the shape its type asks for.
proof fn lemma_column_fits(rows: Seq<ValueModel>, f: FieldModel)
    requires
        reads_back(f, rows),
        column_built(rows, f) is Ok,
    ensures
        column_built(rows, f) matches Ok(d) && slots(d) == rows.len() && fits(d, f.data_type),
{
    let t = f.data_type;
    let n = rows.len() as int;
    if plain_type(t) {
        assert(column_appended(rows, f) == primitive_rows(rows, f, n));
        lemma_plain_rows(rows, f, n);
    } else if t is List {
        assert(column_appended(rows, f) == list_rows(rows, f, n));
        lemma_list_rows_read(rows, f, n);
    } else if t is Struct {
        let fs = struct_fields(t);
        assert(column_appended(rows, f) == struct_rows(rows, f, fs, n));
        lemma_struct_rows_read(rows, f, fs, n);
        let d = struct_rows(rows, f, fs, n)->Ok_0;
        let cs = d.values->Structs_0;
        lemma_fits_all_intro(cs, fs, n, cs.len() as int);
    } else {
        let sfs = entry_fields(t);
        assert(column_appended(rows, f) == map_rows(rows, f, sfs, n));
        lemma_map_rows_read(rows, f, sfs, n);
    }
}

proof fn lemma_all_columns(rows: Seq<ValueModel>, fs: Seq<FieldModel>, cs: Seq<DataModel>)
    requires
        cs.len() == fs.len(),
        forall|c: int| 0 <= c < fs.len() ==> reads_back(#[trigger] fs[c], rows),
        forall|c: int|
            0 <= c < fs.len() ==> column_built(rows, fs[c]) == Ok::<DataModel, crate::error::ErrorModel>(#[trigger] cs[c]),
    ensures
        forall|c: int, r: int|
            0 <= c < fs.len() && 0 <= r < rows.len() ==> #[trigger] slot_value(cs[c], fs[c].data_type, r) == Ok::<
                ValueModel,
                crate::error::ParquetError,
            >(read_back(fs[c], written_value(rows[r], fs[c].name))),
        batch_fits(fs, cs, rows.len() as int),
{
    assert forall|c: int, r: int| 0 <= c < fs.len() && 0 <= r < rows.len() implies #[trigger] slot_value(
        cs[c],
        fs[c].data_type,
        r,
    ) == Ok::<ValueModel, crate::error::ParquetError>(read_back(fs[c], written_value(rows[r], fs[c].name))) by {
        assert(column_built(rows, fs[c]) == Ok::<DataModel, crate::error::ErrorModel>(cs[c]));
        lemma_built_column(rows, fs, cs, c, r);
    }
    assert forall|c: int| 0 <= c < cs.len() implies slots(#[trigger] cs[c]) == rows.len() && fits(
        cs[c],
        fs[c].data_type,
    ) by {
        assert(column_built(rows, fs[c]) == Ok::<DataModel, crate::error::ErrorModel>(cs[c]));
        lemma_column_fits(rows, fs[c]);
    }
}

/// What a writer writes, a reader reads: for a schema whose columns read
/// back (`reads_back`), the columns built from the rows make a consistent
/// batch, and reading it gives one row per row written, each with every
/// column's name and what its column reads back of the row's value
/// (`read_back`: the value itself for booleans, integers, doubles, strings
/// and binary).
pub proof fn law_batch_write_read(rows: Seq<ValueModel>, fs: Seq<FieldModel>)
    requires
        forall|c: int| 0 <= c < fs.len() ==> reads_back(#[trigger] fs[c], rows),
        columns_built(rows, fs, fs.len() as int) is Ok,
    ensures
        columns_built(rows, fs, fs.len() as int) matches Ok(cs) && batch_fits(fs, cs, rows.len() as int) && batch_rows(
            cs,
            fs,
            rows.len() as int,
        ) == Ok::<Seq<Seq<(Seq<char>, ValueModel)>>, crate::error::ParquetError>(
            Seq::new(rows.len(), |r: int| row_read(rows, fs, r, fs.len() as int)),
        ),
{
    lemma_columns_built(rows, fs, fs.len() as int);
    let cs = columns_built(rows, fs, fs.len() as int)->Ok_0;
    lemma_all_columns(rows, fs, cs);
    lemma_batch_rows(rows, fs, cs, rows.len() as int);
}

proof fn lemma_columns_each(rows: Seq<ValueModel>, fs: Seq<FieldModel>, k: int)
    requires
        0 <= k <= fs.len(),
    ensures
        columns_built(rows, fs, k) matches Ok(cs) ==> cs.len() == k && forall|j: int|
            0 <= j < k ==> column_built(rows, fs[j]) == Ok::<DataModel, crate::error::ErrorModel>(#[trigger] cs[j]),
        columns_built(rows, fs, k) matches Err(e) ==> exists|j: int|
            0 <= j < k && #[trigger] column_built(rows, fs[j]) == Err::<DataModel, crate::error::ErrorModel>(e)
                && forall|m: int| 0 <= m < j ==> (#[trigger] column_built(rows, fs[m])) is Ok,
    decreases k,
{
    if k > 0 {
        lemma_columns_each(rows, fs, k - 1);
        match columns_built(rows, fs, k - 1) {
            Ok(cs) => {
                match column_built(rows, fs[k - 1]) {
                    Ok(d) => {
                        let cs2 = cs.push(d);
                        assert forall|j: int| 0 <= j < k implies column_built(rows, fs[j]) == Ok::<
                            DataModel,
                            crate::error::ErrorModel,
                        >(#[trigger] cs2[j]) by {
                            if j < k - 1 {
                                assert(cs2[j] == cs[j]);
                            }
                        }
                    },
                    Err(e) => {
                        assert forall|m: int| 0 <= m < k - 1 implies (#[trigger] column_built(rows, fs[m])) is Ok by {
                            assert(column_built(rows, fs[m]) == Ok::<DataModel, crate::error::ErrorModel>(cs[m]));
                        }
                        assert(column_built(rows, fs[k - 1]) == Err::<DataModel, crate::error::ErrorModel>(e));
                    },
                }
            },
            Err(e) => {},
        }
    }
}

/// Encoding a batch builds each field's column on its own: when the batch
/// is built, it has one column per field, the one built for that field from
/// the rows; when it is refused, the error is that of the first field, in
/// schema order, whose column is refused.
pub proof fn law_batch_columns(rows: Seq<ValueModel>, fs: Seq<FieldModel>)
    ensures
        columns_built(rows, fs, fs.len() as int) matches Ok(cs) ==> cs.len() == fs.len() && forall|j: int|
            0 <= j < fs.len() ==> column_built(rows, fs[j]) == Ok::<DataModel, crate::error::ErrorModel>(
                #[trigger] cs[j],
            ),
        columns_built(rows, fs, fs.len() as int) matches Err(e) ==> exists|j: int|
            0 <= j < fs.len() && #[trigger] column_built(rows, fs[j]) == Err::<DataModel, crate::error::ErrorModel>(e)
                && forall|m: int| 0 <= m < j ==> (#[trigger] column_built(rows, fs[m])) is Ok,
{
    lemma_columns_each(rows, fs, fs.len() as int);
}

proof fn lemma_row_entries(cs: Seq<DataModel>, fs: Seq<FieldModel>, r: int, k: int)
    requires
        0 <= k <= fs.len(),
        cs.len() == fs.len(),
        row_values(cs, fs, r, k) is Ok,
    ensures
        row_values(cs, fs, r, k)->Ok_0.len() == k,
        forall|j: int| 0 <= j < k ==> (#[trigger] slot_value(cs[j], fs[j].data_type, r)) is Ok,
        forall|j: int|
            0 <= j < k ==> #[trigger] row_values(cs, fs, r, k)->Ok_0[j] == (
                fs[j].name,
                slot_value(cs[j], fs[j].data_type, r)->Ok_0,
            ),
    decreases k,
{
    if k > 0 {
        assert(row_values(cs, fs, r, k - 1) is Ok);
        lemma_row_entries(cs, fs, r, k - 1);
        let row = row_values(cs, fs, r, k - 1)->Ok_0;
        let row2 = row_values(cs, fs, r, k)->Ok_0;
        assert(slot_value(cs[k - 1], fs[k - 1].data_type, r) is Ok);
        assert(row2 == row.push((fs[k - 1].name, slot_value(cs[k - 1], fs[k - 1].data_type, r)->Ok_0)));
        assert forall|j: int| 0 <= j < k implies #[trigger] row_values(
            cs,
            fs,
            r,
            k,
        )->Ok_0[j] == (fs[j].name, slot_value(cs[j], fs[j].data_type, r)->Ok_0) by {
            if j < k - 1 {
                assert(row2[j] == row[j]);
                assert(row_values(cs, fs, r, k - 1)->Ok_0[j] == row[j]);
            } else {
                assert(row2[j] == (fs[k - 1].name, slot_value(cs[k - 1], fs[k - 1].data_type, r)->Ok_0));
            }
        }
    }
}

proof fn lemma_batch_entries(cs: Seq<DataModel>, fs: Seq<FieldModel>, n: int)
    requires
        0 <= n,
        cs.len() == fs.len(),
        batch_rows(cs, fs, n) is Ok,
    ensures
        batch_rows(cs, fs, n)->Ok_0.len() == n,
        forall|i: int| 0 <= i < n ==> #[trigger] batch_rows(cs, fs, n)->Ok_0[i] == row_values(cs, fs, i, fs.len() as int)->Ok_0
            && row_values(cs, fs, i, fs.len() as int) is Ok,
    decreases n,
{
    if n > 0 {
        assert(batch_rows(cs, fs, n - 1) is Ok);
        lemma_batch_entries(cs, fs, n - 1);
        assert(row_values(cs, fs, n - 1, fs.len() as int) is Ok);
        lemma_row_entries(cs, fs, n - 1, fs.len() as int);
        let rows = batch_rows(cs, fs, n - 1)->Ok_0;
        let rows2 = batch_rows(cs, fs, n)->Ok_0;
        assert(rows2 == rows.push(row_values(cs, fs, n - 1, fs.len() as int)->Ok_0));
        assert forall|i: int| 0 <= i < n implies #[trigger] rows2[i] == row_values(cs, fs, i, fs.len() as int)->Ok_0
            && row_values(cs, fs, i, fs.len() as int) is Ok by {
            if i < n - 1 {
                assert(rows2[i] == rows[i]);
            }
        }
    }
}

/// Decoding a batch gives one row per slot, and row `i` holds, for each
/// field in schema order, the field's name with the value that slot `i` of
/// its column reads as.
pub proof fn law_batch_rows(cs: Seq<DataModel>, fs: Seq<FieldModel>, n: int)
    requires
        0 <= n,
        cs.len() == fs.len(),
    ensures
        batch_rows(cs, fs, n) matches Ok(rows) ==> rows.len() == n && (forall|i: int|
            0 <= i < n ==> (#[trigger] rows[i]).len() == fs.len()) && (forall|i: int, j: int|
            0 <= i < n && 0 <= j < fs.len() ==> (#[trigger] slot_value(cs[j], fs[j].data_type, i)) is Ok) && (forall|
            i: int,
            j: int,
        | 0 <= i < n && 0 <= j < fs.len() ==> #[trigger] rows[i][j] == (
            fs[j].name,
            slot_value(cs[j], fs[j].data_type, i)->Ok_0,
        )),
{
    if batch_rows(cs, fs, n) is Ok {
        lemma_batch_entries(cs, fs, n);
        let rows = batch_rows(cs, fs, n)->Ok_0;
        assert forall|i: int| 0 <= i < n implies (#[trigger] rows[i]).len() == fs.len() by {
            assert(rows[i] == row_values(cs, fs, i, fs.len() as int)->Ok_0);
            lemma_row_entries(cs, fs, i, fs.len() as int);
        }
        assert forall|i: int, j: int| 0 <= i < n && 0 <= j < fs.len() implies (#[trigger] slot_value(
            cs[j],
            fs[j].data_type,
            i,
        )) is Ok by {
            assert(rows[i] == row_values(cs, fs, i, fs.len() as int)->Ok_0);
            lemma_row_entries(cs, fs, i, fs.len() as int);
        }
        assert forall|i: int, j: int| 0 <= i < n && 0 <= j < fs.len() implies #[trigger] rows[i][j] == (
            fs[j].name,
            slot_value(cs[j], fs[j].data_type, i)->Ok_0,
        ) by {
            assert(rows[i] == row_values(cs, fs, i, fs.len() as int)->Ok_0);
            lemma_row_entries(cs, fs, i, fs.len() as int);
        }
    }
}

} // verus!
