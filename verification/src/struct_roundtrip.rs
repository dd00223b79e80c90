use vstd::prelude::*;

use crate::arrow_model::{ArrowTypeModel, FieldModel};
use crate::column_data::{fits, fits_all, slots, DataModel, ValuesModel};
use crate::decode::{slot_value, struct_entries};
use crate::encode::{
    column_appended,
    column_built, empty_all, empty_data, field_input, field_value, fields_appended, null_appended, nulls_appended,
    struct_rows, value_appended,
};
use crate::list_roundtrip::lemma_element_appended;
use crate::php::{insert, key_index, key_of_text, lemma_key_index, KeyModel, ValueModel};
use crate::roundtrip::{plain_type, written_value};

verus! {

/// Every field of a struct type is of a type whose values read back as
/// written.
pub open spec fn plain_fields(fs: Seq<FieldModel>) -> bool {
    forall|c: int| 0 <= c < fs.len() ==> plain_type(#[trigger] fs[c].data_type)
}

/// The first `k` children of a struct: each has `n` slots and fits its
/// field.
pub open spec fn children_fit(cs: Seq<DataModel>, fs: Seq<FieldModel>, n: int) -> bool {
    &&& cs.len() == fs.len()
    &&& forall|c: int| 0 <= c < cs.len() ==> slots(#[trigger] cs[c]) == n && fits(cs[c], fs[c].data_type)
}

pub(crate) proof fn lemma_fits_all_intro(cs: Seq<DataModel>, fs: Seq<FieldModel>, n: int, k: int)
    requires
        children_fit(cs, fs, n),
        0 <= k <= cs.len(),
    ensures
        fits_all(cs, fs, n, k),
    decreases k,
{
    if k > 0 {
        lemma_fits_all_intro(cs, fs, n, k - 1);
    }
}

proof fn lemma_empty_children(fs: Seq<FieldModel>, k: int)
    requires
        plain_fields(fs),
        0 <= k <= fs.len(),
    ensures
        empty_all(fs, k).len() == k,
        forall|c: int| 0 <= c < k ==> #[trigger] empty_all(fs, k)[c] == empty_data(fs[c].data_type),
    decreases k,
{
    if k > 0 {
        lemma_empty_children(fs, k - 1);
    }
}

proof fn lemma_empty_plain(t: ArrowTypeModel)
    requires
        plain_type(t),
    ensures
        slots(empty_data(t)) == 0,
        fits(empty_data(t), t),
{
    let d = empty_data(t);
    match d.values {
        ValuesModel::Texts(x) => {
            assert(x.len() == 0);
        },
        ValuesModel::Binaries(x) => {
            assert(x.len() == 0);
        },
        _ => {},
    }
}

/// The fields of a struct value appended to the first `m` children: each of
/// them gains one slot, which reads as the value's entry for the field
/// (null where it has none); their slots before it read as they did; the
/// other children are unchanged.
proof fn lemma_fields_appended(
    cs: Seq<DataModel>,
    fs: Seq<FieldModel>,
    es: Seq<(KeyModel, ValueModel)>,
    col: Seq<char>,
    top: bool,
    row: usize,
    n: int,
    m: int,
)
    requires
        plain_fields(fs),
        children_fit(cs, fs, n),
        0 <= m <= fs.len(),
        fields_appended(cs, fs, es, col, top, row, m) is Ok,
    ensures
        fields_appended(cs, fs, es, col, top, row, m) matches Ok(cs2) && cs2.len() == cs.len() && (forall|c: int|
            m <= c < cs.len() ==> #[trigger] cs2[c] == cs[c]) && forall|c: int|
            0 <= c < m ==> slots(#[trigger] cs2[c]) == n + 1 && fits(cs2[c], fs[c].data_type) && slot_value(
                cs2[c],
                fs[c].data_type,
                n,
            ) == Ok::<ValueModel, crate::error::ParquetError>(field_input(es, fs[c].name)) && forall|j: int|
                0 <= j < n ==> slot_value(cs2[c], fs[c].data_type, j) == slot_value(cs[c], fs[c].data_type, j),
    decreases m,
{
    if m > 0 {
        lemma_fields_appended(cs, fs, es, col, top, row, n, m - 1);
        let cs1 = fields_appended(cs, fs, es, col, top, row, m - 1)->Ok_0;
        let c = m - 1;
        assert(cs1[c] == cs[c]);
        assert(plain_type(fs[c].data_type));
        let input = field_input(es, fs[c].name);
        let name = if top { col + seq!['.'] + fs[c].name } else { col };
        lemma_element_appended(cs[c], input, fs[c].data_type, name, row);
    }
}

/// A null appended to the first `m` children of a struct: each of them
/// gains one null slot; their slots before it read as they did.
proof fn lemma_nulls_appended(cs: Seq<DataModel>, fs: Seq<FieldModel>, n: int, m: int, col: Seq<char>, row: usize)
    requires
        plain_fields(fs),
        children_fit(cs, fs, n),
        0 <= m <= fs.len(),
    ensures
        nulls_appended(cs, fs, m).len() == cs.len(),
        forall|c: int| m <= c < cs.len() ==> #[trigger] nulls_appended(cs, fs, m)[c] == cs[c],
        forall|c: int|
            0 <= c < m ==> slots(#[trigger] nulls_appended(cs, fs, m)[c]) == n + 1 && fits(
                nulls_appended(cs, fs, m)[c],
                fs[c].data_type,
            ) && forall|j: int|
                0 <= j < n ==> slot_value(nulls_appended(cs, fs, m)[c], fs[c].data_type, j) == slot_value(
                    cs[c],
                    fs[c].data_type,
                    j,
                ),
    decreases m,
{
    if m > 0 {
        lemma_nulls_appended(cs, fs, n, m - 1, col, row);
        let c = m - 1;
        assert(plain_type(fs[c].data_type));
        lemma_element_appended(cs[c], ValueModel::Null, fs[c].data_type, col, row);
        assert(value_appended(cs[c], ValueModel::Null, fs[c].data_type, col, row) == Ok::<
            DataModel,
            crate::error::ErrorModel,
        >(null_appended(cs[c], fs[c].data_type)));
    }
}

/// What slot `j` of a struct column holds for the value `w` written there:
/// for an array, a valid slot in which every child reads as the array's
/// entry for its field (null where it has none); for null, a null slot.
pub open spec fn struct_slot_holds(valid: Seq<bool>, cs: Seq<DataModel>, fs: Seq<FieldModel>, w: ValueModel, j: int) -> bool {
    match w {
        ValueModel::Null => !valid[j],
        ValueModel::Array(es) => {
            &&& valid[j]
            &&& forall|c: int|
                0 <= c < cs.len() ==> #[trigger] slot_value(cs[c], fs[c].data_type, j) == Ok::<
                    ValueModel,
                    crate::error::ParquetError,
                >(field_input(es, fs[c].name))
        },
        _ => false,
    }
}

pub(crate) proof fn lemma_struct_rows_read(rows: Seq<ValueModel>, f: FieldModel, fs: Seq<FieldModel>, k: int)
    requires
        f.data_type == ArrowTypeModel::Struct(fs),
        plain_fields(fs),
        0 <= k <= rows.len(),
        struct_rows(rows, f, fs, k) is Ok,
    ensures
        struct_rows(rows, f, fs, k) matches Ok(d) && d.values matches ValuesModel::Structs(cs) && d.valid.len() == k
            && children_fit(cs, fs, k) && forall|j: int|
            0 <= j < k ==> #[trigger] struct_slot_holds(d.valid, cs, fs, written_value(rows[j], f.name), j),
    decreases k,
{
    if k == 0 {
        let d = struct_rows(rows, f, fs, 0)->Ok_0;
        assert(d == empty_data(f.data_type));
        lemma_empty_children(fs, fs.len() as int);
        let cs = empty_all(fs, fs.len() as int);
        assert forall|c: int| 0 <= c < cs.len() implies slots(#[trigger] cs[c]) == 0 && fits(cs[c], fs[c].data_type) by {
            assert(plain_type(fs[c].data_type));
            lemma_empty_plain(fs[c].data_type);
        }
    } else {
        lemma_struct_rows_read(rows, f, fs, k - 1);
        let i = k - 1;
        let d = struct_rows(rows, f, fs, i)->Ok_0;
        let d2 = struct_rows(rows, f, fs, k)->Ok_0;
        let cs = d.values->Structs_0;
        match field_value(rows[i], f.name, i as usize, f.nullable) {
            Ok(None) => {
                assert(d2 == null_appended(d, f.data_type));
                lemma_nulls_appended(cs, fs, i, fs.len() as int, f.name, i as usize);
                let cs2 = nulls_appended(cs, fs, fs.len() as int);
                assert(d2.values == ValuesModel::Structs(cs2));
                assert(written_value(rows[i], f.name) == ValueModel::Null);
                assert forall|j: int| 0 <= j < k implies #[trigger] struct_slot_holds(
                    d2.valid,
                    cs2,
                    fs,
                    written_value(rows[j], f.name),
                    j,
                ) by {
                    if j < i {
                        let w = written_value(rows[j], f.name);
                        assert(struct_slot_holds(d.valid, cs, fs, w, j));
                        assert(d2.valid[j] == d.valid[j]);
                        if let ValueModel::Array(es) = w {
                            assert forall|c: int| 0 <= c < cs2.len() implies #[trigger] slot_value(
                                cs2[c],
                                fs[c].data_type,
                                j,
                            ) == Ok::<ValueModel, crate::error::ParquetError>(field_input(es, fs[c].name)) by {
                                assert(slots(cs2[c]) == i + 1);
                                assert(slot_value(cs2[c], fs[c].data_type, j) == slot_value(cs[c], fs[c].data_type, j));
                            }
                        }
                    }
                }
            },
            Ok(Some(v)) => {
                assert(written_value(rows[i], f.name) == v);
                let es = v->Array_0;
                lemma_fields_appended(cs, fs, es, f.name, true, i as usize, i, fs.len() as int);
                let cs2 = fields_appended(cs, fs, es, f.name, true, i as usize, fs.len() as int)->Ok_0;
                assert(d2.values == ValuesModel::Structs(cs2));
                assert forall|j: int| 0 <= j < k implies #[trigger] struct_slot_holds(
                    d2.valid,
                    cs2,
                    fs,
                    written_value(rows[j], f.name),
                    j,
                ) by {
                    if j < i {
                        assert(struct_slot_holds(d.valid, cs, fs, written_value(rows[j], f.name), j));
                        assert(d2.valid[j] == d.valid[j]);
                    }
                }
            },
            Err(_) => {},
        }
    }
}

/// The entries the reader gives for a struct written as the entries `es`:
/// for each of the first `k` fields in order, the value `es` holds for it
/// (null where it has none), stored under the field's name.
pub open spec fn struct_read(es: Seq<(KeyModel, ValueModel)>, fs: Seq<FieldModel>, k: int) -> Seq<(KeyModel, ValueModel)>
    decreases k,
{
    if k <= 0 {
        Seq::empty()
    } else {
        insert(struct_read(es, fs, k - 1), key_of_text(fs[k - 1].name), field_input(es, fs[k - 1].name))
    }
}

proof fn lemma_struct_entries_read(cs: Seq<DataModel>, fs: Seq<FieldModel>, i: int, es: Seq<(KeyModel, ValueModel)>, k: int)
    requires
        0 <= k <= cs.len(),
        k <= fs.len(),
        forall|c: int|
            0 <= c < k ==> #[trigger] slot_value(cs[c], fs[c].data_type, i) == Ok::<ValueModel, crate::error::ParquetError>(
                field_input(es, fs[c].name),
            ),
    ensures
        struct_entries(cs, fs, i, k) == Ok::<Seq<(KeyModel, ValueModel)>, crate::error::ParquetError>(
            struct_read(es, fs, k),
        ),
    decreases k,
{
    if k > 0 {
        lemma_struct_entries_read(cs, fs, i, es, k - 1);
        assert(slot_value(cs[k - 1], fs[k - 1].data_type, i) == Ok::<ValueModel, crate::error::ParquetError>(
            field_input(es, fs[k - 1].name),
        ));
    }
}

/// What the reader gives for a struct written as `w` with the given fields:
/// an array's entries for the fields (`struct_read`), null for null.
pub open spec fn struct_value_read(w: ValueModel, fs: Seq<FieldModel>) -> ValueModel {
    match w {
        ValueModel::Array(es) => ValueModel::Array(struct_read(es, fs, fs.len() as int)),
        _ => ValueModel::Null,
    }
}

/// What a struct column whose fields are booleans, 32- or 64-bit integers,
/// doubles, strings or binary holds once written reads back as it was
/// written: the column has one slot per row and the shape its type asks
/// for, and each slot reads as the row's array for the column restricted to
/// the struct's fields, in field order, a missing field as null (null where
/// the row has no array for the column).
pub proof fn law_write_read_struct(rows: Seq<ValueModel>, f: FieldModel, fs: Seq<FieldModel>, i: int)
    requires
        f.data_type == ArrowTypeModel::Struct(fs),
        plain_fields(fs),
        column_built(rows, f) is Ok,
        0 <= i < rows.len(),
    ensures
        column_built(rows, f) matches Ok(d) && slots(d) == rows.len() && fits(d, f.data_type) && slot_value(
            d,
            f.data_type,
            i,
        ) == Ok::<ValueModel, crate::error::ParquetError>(struct_value_read(written_value(rows[i], f.name), fs)),
{
    let n = rows.len() as int;
    assert(column_appended(rows, f) == struct_rows(rows, f, fs, n));
    lemma_struct_rows_read(rows, f, fs, n);
    let d = struct_rows(rows, f, fs, n)->Ok_0;
    let cs = d.values->Structs_0;
    lemma_fits_all_intro(cs, fs, n, cs.len() as int);
    let w = written_value(rows[i], f.name);
    assert(struct_slot_holds(d.valid, cs, fs, w, i));
    if let ValueModel::Array(es) = w {
        lemma_struct_entries_read(cs, fs, i, es, fs.len() as int);
    }
}

/// The entries of a PHP array that holds exactly the fields of a struct, in
/// field order, under the fields' names (no two fields named alike).
pub open spec fn struct_entries_of(es: Seq<(KeyModel, ValueModel)>, fs: Seq<FieldModel>) -> bool {
    &&& es.len() == fs.len()
    &&& forall|c: int| 0 <= c < es.len() ==> #[trigger] es[c].0 == key_of_text(fs[c].name)
    &&& forall|a: int, b: int| 0 <= a < b < es.len() ==> es[a].0 != es[b].0
}

proof fn lemma_struct_read_prefix(es: Seq<(KeyModel, ValueModel)>, fs: Seq<FieldModel>, k: int)
    requires
        struct_entries_of(es, fs),
        0 <= k <= fs.len(),
    ensures
        struct_read(es, fs, k) == es.subrange(0, k),
    decreases k,
{
    if k > 0 {
        lemma_struct_read_prefix(es, fs, k - 1);
        let key = es[k - 1].0;
        assert(key == key_of_text(fs[k - 1].name));
        lemma_key_index(es, key, k - 1);
        assert(field_input(es, fs[k - 1].name) == es[k - 1].1);
        let prefix = es.subrange(0, k - 1);
        lemma_key_index(prefix, key, k - 1);
        assert(key_index(prefix, key) is None);
        assert(prefix.push((key, es[k - 1].1)) =~= es.subrange(0, k));
    }
}

/// A PHP array holding exactly the fields of a struct in field order,
/// written to a struct column whose fields are booleans, 32- or 64-bit
/// integers, doubles, strings or binary, reads back as that very array.
pub proof fn law_php_struct_roundtrip(
    rows: Seq<ValueModel>,
    f: FieldModel,
    fs: Seq<FieldModel>,
    i: int,
    es: Seq<(KeyModel, ValueModel)>,
)
    requires
        f.data_type == ArrowTypeModel::Struct(fs),
        plain_fields(fs),
        column_built(rows, f) is Ok,
        0 <= i < rows.len(),
        written_value(rows[i], f.name) == ValueModel::Array(es),
        struct_entries_of(es, fs),
    ensures
        column_built(rows, f) matches Ok(d) && slot_value(d, f.data_type, i) == Ok::<
            ValueModel,
            crate::error::ParquetError,
        >(ValueModel::Array(es)),
{
    law_write_read_struct(rows, f, fs, i);
    lemma_struct_read_prefix(es, fs, fs.len() as int);
    assert(es.subrange(0, fs.len() as int) =~= es);
}

} // verus!
