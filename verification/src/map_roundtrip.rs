use vstd::prelude::*;

use crate::arrow_model::{ArrowTypeModel, FieldModel};
use crate::column_data::{ends_fit, fits, slot_start, slots, DataModel, ValuesModel};
use crate::decode::{map_entries, slot_value};
use crate::encode::{
    column_appended, column_built, empty_data, entries_appended, field_value, map_key, map_rows, value_appended,
};
use crate::list_roundtrip::{elements_total, lemma_element_appended};
use crate::php::{insert, key_index, key_of_text, lemma_key_index, numeric_key, KeyModel, ValueModel};
use crate::roundtrip::{lemma_int_text, plain_type, written_value};
use crate::text::{int_text, lemma_nat_text, nat_text};

verus! {

/// The text a key of a PHP array is written as into a map's string keys.
pub open spec fn key_text(k: KeyModel) -> Seq<char> {
    match k {
        KeyModel::Long(n) => int_text(n as int),
        KeyModel::Str(s) => s,
    }
}

/// The first `k` entries of a map value appended to string key and value
/// columns, of a value type whose values read back as written: each column
/// gains `k` slots, which read as the entries' key texts and values in
/// order; the slots before them read as they did.
proof fn lemma_entries_appended(
    kd: DataModel,
    vd: DataModel,
    es: Seq<(KeyModel, ValueModel)>,
    sfs: Seq<FieldModel>,
    kcol: Seq<char>,
    vcol: Seq<char>,
    row: usize,
    k: int,
)
    requires
        sfs.len() >= 2,
        sfs[0].data_type == ArrowTypeModel::Utf8,
        plain_type(sfs[1].data_type),
        fits(kd, ArrowTypeModel::Utf8),
        fits(vd, sfs[1].data_type),
        0 <= k <= es.len(),
        entries_appended(kd, vd, es, sfs, kcol, vcol, row, k) is Ok,
    ensures
        entries_appended(kd, vd, es, sfs, kcol, vcol, row, k) matches Ok(kv) && slots(kv.0) == slots(kd) + k && slots(
            kv.1,
        ) == slots(vd) + k && fits(kv.0, ArrowTypeModel::Utf8) && fits(kv.1, sfs[1].data_type) && (forall|j: int|
            0 <= j < slots(kd) ==> #[trigger] slot_value(kv.0, ArrowTypeModel::Utf8, j) == slot_value(
                kd,
                ArrowTypeModel::Utf8,
                j,
            )) && (forall|j: int|
            0 <= j < slots(vd) ==> #[trigger] slot_value(kv.1, sfs[1].data_type, j) == slot_value(
                vd,
                sfs[1].data_type,
                j,
            )) && (forall|m: int|
            0 <= m < k ==> #[trigger] slot_value(kv.0, ArrowTypeModel::Utf8, slots(kd) + m) == Ok::<
                ValueModel,
                crate::error::ParquetError,
            >(ValueModel::Str(key_text(es[m].0)))) && forall|m: int|
            0 <= m < k ==> #[trigger] slot_value(kv.1, sfs[1].data_type, slots(vd) + m) == Ok::<
                ValueModel,
                crate::error::ParquetError,
            >(es[m].1),
    decreases k,
{
    let kt = ArrowTypeModel::Utf8;
    let vt = sfs[1].data_type;
    if k > 0 {
        lemma_entries_appended(kd, vd, es, sfs, kcol, vcol, row, k - 1);
        let kv = entries_appended(kd, vd, es, sfs, kcol, vcol, row, k - 1)->Ok_0;
        let key = map_key(es[k - 1].0, kt);
        assert(key == ValueModel::Str(key_text(es[k - 1].0)));
        lemma_element_appended(kv.0, key, kt, kcol, row);
        let k2 = value_appended(kv.0, key, kt, kcol, row)->Ok_0;
        lemma_element_appended(kv.1, es[k - 1].1, vt, vcol, row);
        let v2 = value_appended(kv.1, es[k - 1].1, vt, vcol, row)->Ok_0;
        let kv2 = entries_appended(kd, vd, es, sfs, kcol, vcol, row, k)->Ok_0;
        assert(kv2 == (k2, v2));
        assert forall|j: int| 0 <= j < slots(kd) implies #[trigger] slot_value(kv2.0, kt, j) == slot_value(kd, kt, j) by {
            assert(slot_value(k2, kt, j) == slot_value(kv.0, kt, j));
        }
        assert forall|j: int| 0 <= j < slots(vd) implies #[trigger] slot_value(kv2.1, vt, j) == slot_value(vd, vt, j) by {
            assert(slot_value(v2, vt, j) == slot_value(kv.1, vt, j));
        }
        assert forall|m: int| 0 <= m < k implies #[trigger] slot_value(kv2.0, kt, slots(kd) + m) == Ok::<
            ValueModel,
            crate::error::ParquetError,
        >(ValueModel::Str(key_text(es[m].0))) by {
            if m < k - 1 {
                assert(slot_value(k2, kt, slots(kd) + m) == slot_value(kv.0, kt, slots(kd) + m));
            }
        }
        assert forall|m: int| 0 <= m < k implies #[trigger] slot_value(kv2.1, vt, slots(vd) + m) == Ok::<
            ValueModel,
            crate::error::ParquetError,
        >(es[m].1) by {
            if m < k - 1 {
                assert(slot_value(v2, vt, slots(vd) + m) == slot_value(kv.1, vt, slots(vd) + m));
            }
        }
    }
}

/// What slot `j` of a map column holds for the value `w` written there:
/// for an array, a valid slot whose key and value slots read as the array's
/// key texts and values; for null, a null slot without entries.
pub open spec fn map_slot_holds(
    valid: Seq<bool>,
    ends: Seq<usize>,
    kd: DataModel,
    vd: DataModel,
    vt: ArrowTypeModel,
    w: ValueModel,
    j: int,
) -> bool {
    match w {
        ValueModel::Null => !valid[j] && ends[j] == slot_start(ends, j),
        ValueModel::Array(es) => {
            &&& valid[j]
            &&& ends[j] == slot_start(ends, j) + es.len()
            &&& forall|m: int|
                0 <= m < es.len() ==> #[trigger] slot_value(kd, ArrowTypeModel::Utf8, slot_start(ends, j) + m) == Ok::<
                    ValueModel,
                    crate::error::ParquetError,
                >(ValueModel::Str(key_text(es[m].0)))
            &&& forall|m: int|
                0 <= m < es.len() ==> #[trigger] slot_value(vd, vt, slot_start(ends, j) + m) == Ok::<
                    ValueModel,
                    crate::error::ParquetError,
                >(es[m].1)
        },
        _ => false,
    }
}

/// A map type with string keys and values of a type that reads back as
/// written, whose entries are the struct `sfs`.
pub open spec fn string_keyed_map(t: ArrowTypeModel, sfs: Seq<FieldModel>) -> bool {
    &&& t matches ArrowTypeModel::MapOf(e, _) && e.data_type == ArrowTypeModel::Struct(sfs)
    &&& sfs.len() >= 2
    &&& sfs[0].data_type == ArrowTypeModel::Utf8
    &&& plain_type(sfs[1].data_type)
}

pub(crate) proof fn lemma_map_rows_read(rows: Seq<ValueModel>, f: FieldModel, sfs: Seq<FieldModel>, k: int)
    requires
        string_keyed_map(f.data_type, sfs),
        0 <= k <= rows.len(),
        map_rows(rows, f, sfs, k) is Ok,
        elements_total(rows, f.name, k) <= usize::MAX,
    ensures
        map_rows(rows, f, sfs, k) matches Ok(d) && d.values matches ValuesModel::Maps(ends, kd, vd) && d.valid.len()
            == k && ends.len() == k && fits(*kd, ArrowTypeModel::Utf8) && fits(*vd, sfs[1].data_type) && ends_fit(
            ends,
            slots(*kd),
        ) && slots(*kd) == slot_start(ends, k) && slots(*vd) == slots(*kd) && slots(*kd) == elements_total(
            rows,
            f.name,
            k,
        ) && forall|j: int|
            0 <= j < k ==> #[trigger] map_slot_holds(
                d.valid,
                ends,
                *kd,
                *vd,
                sfs[1].data_type,
                written_value(rows[j], f.name),
                j,
            ),
    decreases k,
{
    let vt = sfs[1].data_type;
    if k == 0 {
        let d = map_rows(rows, f, sfs, 0)->Ok_0;
        assert(d == empty_data(f.data_type));
        let kd = empty_data(ArrowTypeModel::Utf8);
        let vd = empty_data(vt);
        assert(kd.values == ValuesModel::Texts(Seq::empty()));
        match vd.values {
            ValuesModel::Texts(x) => {
                assert(x.len() == 0);
            },
            ValuesModel::Binaries(x) => {
                assert(x.len() == 0);
            },
            _ => {},
        }
    } else {
        lemma_map_rows_read(rows, f, sfs, k - 1);
        let i = k - 1;
        let d = map_rows(rows, f, sfs, i)->Ok_0;
        let d2 = map_rows(rows, f, sfs, k)->Ok_0;
        let ends = d.values->Maps_0;
        let kd = *d.values->Maps_1;
        let vd = *d.values->Maps_2;
        match field_value(rows[i], f.name, i as usize, f.nullable) {
            Ok(None) => {
                let ends2 = ends.push(slots(kd) as usize);
                assert(d2.values == ValuesModel::Maps(ends2, Box::new(kd), Box::new(vd)));
                assert(written_value(rows[i], f.name) == ValueModel::Null);
                assert forall|j: int| 0 <= j < k implies #[trigger] map_slot_holds(
                    d2.valid,
                    ends2,
                    kd,
                    vd,
                    vt,
                    written_value(rows[j], f.name),
                    j,
                ) by {
                    if j < i {
                        assert(map_slot_holds(d.valid, ends, kd, vd, vt, written_value(rows[j], f.name), j));
                        assert(slot_start(ends2, j) == slot_start(ends, j));
                        assert(d2.valid[j] == d.valid[j]);
                        assert(ends2[j] == ends[j]);
                    }
                }
            },
            Ok(Some(v)) => {
                assert(written_value(rows[i], f.name) == v);
                let es = v->Array_0;
                let kcol = f.name + seq!['.'] + "key"@;
                let vcol = f.name + seq!['.'] + "value"@;
                lemma_entries_appended(kd, vd, es, sfs, kcol, vcol, i as usize, es.len() as int);
                let kv = entries_appended(kd, vd, es, sfs, kcol, vcol, i as usize, es.len() as int)->Ok_0;
                let ends2 = ends.push(slots(kv.0) as usize);
                assert(d2.values == ValuesModel::Maps(ends2, Box::new(kv.0), Box::new(kv.1)));
                assert forall|j: int| 0 <= j < k implies #[trigger] map_slot_holds(
                    d2.valid,
                    ends2,
                    kv.0,
                    kv.1,
                    vt,
                    written_value(rows[j], f.name),
                    j,
                ) by {
                    if j < i {
                        let w = written_value(rows[j], f.name);
                        assert(map_slot_holds(d.valid, ends, kd, vd, vt, w, j));
                        assert(slot_start(ends2, j) == slot_start(ends, j));
                        assert(d2.valid[j] == d.valid[j]);
                        assert(ends2[j] == ends[j]);
                        if w is Array {
                            let ws = w->Array_0;
                            assert(ends[j] <= slots(kd));
                            assert forall|m: int| 0 <= m < ws.len() implies #[trigger] slot_value(
                                kv.0,
                                ArrowTypeModel::Utf8,
                                slot_start(ends2, j) + m,
                            ) == Ok::<ValueModel, crate::error::ParquetError>(ValueModel::Str(key_text(ws[m].0))) by {
                                assert(slot_value(kd, ArrowTypeModel::Utf8, slot_start(ends, j) + m) == Ok::<
                                    ValueModel,
                                    crate::error::ParquetError,
                                >(ValueModel::Str(key_text(ws[m].0))));
                            }
                            assert forall|m: int| 0 <= m < ws.len() implies #[trigger] slot_value(
                                kv.1,
                                vt,
                                slot_start(ends2, j) + m,
                            ) == Ok::<ValueModel, crate::error::ParquetError>(ws[m].1) by {
                                assert(slot_value(vd, vt, slot_start(ends, j) + m) == Ok::<
                                    ValueModel,
                                    crate::error::ParquetError,
                                >(ws[m].1));
                            }
                        }
                    } else {
                        assert(slot_start(ends2, i) == slots(kd));
                        assert forall|m: int| 0 <= m < es.len() implies #[trigger] slot_value(
                            kv.0,
                            ArrowTypeModel::Utf8,
                            slot_start(ends2, i) + m,
                        ) == Ok::<ValueModel, crate::error::ParquetError>(ValueModel::Str(key_text(es[m].0))) by {
                            assert(slot_value(kv.0, ArrowTypeModel::Utf8, slots(kd) + m) == Ok::<
                                ValueModel,
                                crate::error::ParquetError,
                            >(ValueModel::Str(key_text(es[m].0))));
                        }
                        assert forall|m: int| 0 <= m < es.len() implies #[trigger] slot_value(
                            kv.1,
                            vt,
                            slot_start(ends2, i) + m,
                        ) == Ok::<ValueModel, crate::error::ParquetError>(es[m].1) by {
                            assert(slot_value(kv.1, vt, slots(vd) + m) == Ok::<ValueModel, crate::error::ParquetError>(
                                es[m].1,
                            ));
                        }
                    }
                }
            },
            Err(_) => {},
        }
    }
}

/// The entries the reader gives for the first `n` entries of a map written
/// with string keys: each value stored under its key's text, read as an
/// array key (a later entry with the same key replaces an earlier one).
pub open spec fn map_read(es: Seq<(KeyModel, ValueModel)>, n: int) -> Seq<(KeyModel, ValueModel)>
    decreases n,
{
    if n <= 0 {
        Seq::empty()
    } else {
        insert(map_read(es, n - 1), key_of_text(key_text(es[n - 1].0)), es[n - 1].1)
    }
}

proof fn lemma_map_entries_read(
    m: ValuesModel,
    kd: DataModel,
    vd: DataModel,
    vt: ArrowTypeModel,
    lo: int,
    es: Seq<(KeyModel, ValueModel)>,
    n: int,
)
    requires
        m matches ValuesModel::Maps(_, k, v) && *k == kd && *v == vd,
        0 <= n <= es.len(),
        forall|x: int|
            0 <= x < n ==> #[trigger] slot_value(kd, ArrowTypeModel::Utf8, lo + x) == Ok::<
                ValueModel,
                crate::error::ParquetError,
            >(ValueModel::Str(key_text(es[x].0))),
        forall|x: int|
            0 <= x < n ==> #[trigger] slot_value(vd, vt, lo + x) == Ok::<ValueModel, crate::error::ParquetError>(
                es[x].1,
            ),
    ensures
        map_entries(m, ArrowTypeModel::Utf8, vt, lo, lo + n) == Ok::<
            Seq<(KeyModel, ValueModel)>,
            crate::error::ParquetError,
        >(map_read(es, n)),
    decreases n,
{
    if n > 0 {
        lemma_map_entries_read(m, kd, vd, vt, lo, es, n - 1);
        assert(slot_value(kd, ArrowTypeModel::Utf8, lo + (n - 1)) == Ok::<ValueModel, crate::error::ParquetError>(
            ValueModel::Str(key_text(es[n - 1].0)),
        ));
        assert(slot_value(vd, vt, lo + (n - 1)) == Ok::<ValueModel, crate::error::ParquetError>(es[n - 1].1));
    }
}

/// What the reader gives for a map written as `w`: an array's entries
/// under their keys' texts (`map_read`), null for null.
pub open spec fn map_value_read(w: ValueModel) -> ValueModel {
    match w {
        ValueModel::Array(es) => ValueModel::Array(map_read(es, es.len() as int)),
        _ => ValueModel::Null,
    }
}

/// What a map column with string keys, and values that are booleans, 32- or
/// 64-bit integers, doubles, strings or binary, holds once written reads
/// back as it was written: the column has one slot per row and the shape
/// its type asks for, and each slot reads as the row's array for the column,
/// each value under the text of its key (null where the row has none), when
/// all rows hold no more entries together than a `usize` counts.
pub proof fn law_write_read_map(rows: Seq<ValueModel>, f: FieldModel, sfs: Seq<FieldModel>, i: int)
    requires
        string_keyed_map(f.data_type, sfs),
        column_built(rows, f) is Ok,
        elements_total(rows, f.name, rows.len() as int) <= usize::MAX,
        0 <= i < rows.len(),
    ensures
        column_built(rows, f) matches Ok(d) && slots(d) == rows.len() && fits(d, f.data_type) && slot_value(
            d,
            f.data_type,
            i,
        ) == Ok::<ValueModel, crate::error::ParquetError>(map_value_read(written_value(rows[i], f.name))),
{
    let n = rows.len() as int;
    assert(column_appended(rows, f) == map_rows(rows, f, sfs, n));
    lemma_map_rows_read(rows, f, sfs, n);
    let d = map_rows(rows, f, sfs, n)->Ok_0;
    let ends = d.values->Maps_0;
    let kd = *d.values->Maps_1;
    let vd = *d.values->Maps_2;
    let w = written_value(rows[i], f.name);
    assert(map_slot_holds(d.valid, ends, kd, vd, sfs[1].data_type, w, i));
    if let ValueModel::Array(es) = w {
        let lo = slot_start(ends, i);
        lemma_map_entries_read(d.values, kd, vd, sfs[1].data_type, lo, es, es.len() as int);
        assert(ends[i] as int == lo + es.len());
    }
}

/// The entries of a PHP array: no two share a key, and no string key is a
/// canonical integer (PHP stores those under integer keys).
pub open spec fn php_array_entries(es: Seq<(KeyModel, ValueModel)>) -> bool {
    &&& forall|a: int, b: int| 0 <= a < b < es.len() ==> es[a].0 != es[b].0
    &&& forall|a: int| 0 <= a < es.len() ==> (#[trigger] es[a].0 matches KeyModel::Str(s) ==> numeric_key(s) is None)
}

proof fn lemma_nat_text_leading(m: nat)
    requires
        m >= 1,
    ensures
        nat_text(m)[0] != '0',
    decreases m,
{
    if m >= 10 {
        lemma_nat_text_leading(m / 10);
        lemma_nat_text(m / 10);
        assert(nat_text(m)[0] == nat_text(m / 10)[0]);
    }
}

/// The text an integer key is written as reads back as that integer key.
pub proof fn law_integer_key_text(n: i64)
    ensures
        key_of_text(int_text(n as int)) == KeyModel::Long(n),
{
    let t = int_text(n as int);
    lemma_int_text(n as int);
    if n < 0 {
        let m = (-(n as int)) as nat;
        lemma_nat_text(m);
        lemma_nat_text_leading(m);
        assert(t =~= seq!['-'] + nat_text(m));
        assert(t.drop_first() =~= nat_text(m));
    } else if n > 0 {
        lemma_nat_text(n as nat);
        lemma_nat_text_leading(n as nat);
    } else {
        assert(t =~= seq!['0']);
    }
}

/// Every key of a PHP array reads back as itself from the text it is
/// written as.
proof fn lemma_key_text_back(k: KeyModel)
    requires
        k matches KeyModel::Str(s) ==> numeric_key(s) is None,
    ensures
        key_of_text(key_text(k)) == k,
{
    if let KeyModel::Long(n) = k {
        law_integer_key_text(n);
    }
}

/// The entries of a PHP array, read back from a map with string keys, are
/// the array itself: same keys, same values, same order.
pub proof fn law_map_reads_back(es: Seq<(KeyModel, ValueModel)>)
    requires
        php_array_entries(es),
    ensures
        map_read(es, es.len() as int) == es,
{
    lemma_map_read_prefix(es, es.len() as int);
    assert(es.subrange(0, es.len() as int) =~= es);
}

proof fn lemma_map_read_prefix(es: Seq<(KeyModel, ValueModel)>, n: int)
    requires
        php_array_entries(es),
        0 <= n <= es.len(),
    ensures
        map_read(es, n) == es.subrange(0, n),
    decreases n,
{
    if n > 0 {
        lemma_map_read_prefix(es, n - 1);
        let k = es[n - 1].0;
        lemma_key_text_back(k);
        let prefix = es.subrange(0, n - 1);
        lemma_key_index(prefix, k, n - 1);
        assert(key_index(prefix, k) is None);
        assert(prefix.push((k, es[n - 1].1)) =~= es.subrange(0, n));
    }
}

/// A PHP array written to a map column with string keys, and values that
/// are booleans, 32- or 64-bit integers, doubles, strings or binary, reads
/// back as that very array.
pub proof fn law_php_array_map_roundtrip(
    rows: Seq<ValueModel>,
    f: FieldModel,
    sfs: Seq<FieldModel>,
    i: int,
    es: Seq<(KeyModel, ValueModel)>,
)
    requires
        string_keyed_map(f.data_type, sfs),
        column_built(rows, f) is Ok,
        elements_total(rows, f.name, rows.len() as int) <= usize::MAX,
        0 <= i < rows.len(),
        written_value(rows[i], f.name) == ValueModel::Array(es),
        php_array_entries(es),
    ensures
        column_built(rows, f) matches Ok(d) && slot_value(d, f.data_type, i) == Ok::<
            ValueModel,
            crate::error::ParquetError,
        >(ValueModel::Array(es)),
{
    law_write_read_map(rows, f, sfs, i);
    law_map_reads_back(es);
}

} // verus!
