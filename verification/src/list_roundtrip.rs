use vstd::prelude::*;
use vstd::utf8::{encode_utf8_decode_utf8, encode_utf8_valid_utf8};

use crate::arrow_model::{ArrowTypeModel, FieldModel};
use crate::column_data::{ends_fit, fits, slot_start, slots, DataModel, ValuesModel};
use crate::decode::{list_entries, slot_value};
use crate::encode::{
    column_appended,
    column_built, default_pushed, elements_appended, empty_data, field_value, list_rows, nested_slot, null_appended,
    slot_pushed, value_appended,
};
use crate::php::{KeyModel, ValueModel};
use crate::roundtrip::{plain_type, written_value};

verus! {

/// One element appended to the child column of a list, of a type whose
/// values read back as written: the column gains one slot, which reads as
/// the element; the slots before it read as they did.
pub proof fn lemma_element_appended(c: DataModel, v: ValueModel, t: ArrowTypeModel, col: Seq<char>, row: usize)
    requires
        plain_type(t),
        fits(c, t),
        value_appended(c, v, t, col, row) is Ok,
    ensures
        value_appended(c, v, t, col, row) matches Ok(c2) && slots(c2) == slots(c) + 1 && fits(c2, t) && slot_value(
            c2,
            t,
            slots(c),
        ) == Ok::<ValueModel, crate::error::ParquetError>(v) && forall|j: int|
            0 <= j < slots(c) ==> #[trigger] slot_value(c2, t, j) == slot_value(c, t, j),
{
    let c2 = value_appended(c, v, t, col, row)->Ok_0;
    if v == ValueModel::Null {
        assert(c2 == null_appended(c, t));
        assert(c2 == default_pushed(c));
    } else {
        let s = nested_slot(v, t, col, row)->Ok_0;
        assert(c2 == slot_pushed(c, s));
        if t == ArrowTypeModel::Binary {
            let st = v->Str_0;
            encode_utf8_valid_utf8(st);
            encode_utf8_decode_utf8(st);
        }
    }
    assert forall|j: int| 0 <= j < slots(c) implies #[trigger] slot_value(c2, t, j) == slot_value(c, t, j) by {
        assert(c2.valid[j] == c.valid[j]);
    }
}

/// The first `k` elements of a list appended to its child column, of a type
/// whose values read back as written: the column gains `k` slots, which read
/// as the elements in order; the slots before them read as they did.
proof fn lemma_elements_appended(
    c: DataModel,
    es: Seq<(KeyModel, ValueModel)>,
    t: ArrowTypeModel,
    col: Seq<char>,
    row: usize,
    k: int,
)
    requires
        plain_type(t),
        fits(c, t),
        0 <= k <= es.len(),
        elements_appended(c, es, t, col, row, k) is Ok,
    ensures
        elements_appended(c, es, t, col, row, k) matches Ok(c2) && slots(c2) == slots(c) + k && fits(c2, t) && (forall|
            j: int,
        | 0 <= j < slots(c) ==> #[trigger] slot_value(c2, t, j) == slot_value(c, t, j)) && forall|m: int|
            0 <= m < k ==> #[trigger] slot_value(c2, t, slots(c) + m) == Ok::<ValueModel, crate::error::ParquetError>(
                es[m].1,
            ),
    decreases k,
{
    if k > 0 {
        lemma_elements_appended(c, es, t, col, row, k - 1);
        let c1 = elements_appended(c, es, t, col, row, k - 1)->Ok_0;
        lemma_element_appended(c1, es[k - 1].1, t, col, row);
        let c2 = elements_appended(c, es, t, col, row, k)->Ok_0;
        assert(c2 == value_appended(c1, es[k - 1].1, t, col, row)->Ok_0);
        assert forall|j: int| 0 <= j < slots(c) implies #[trigger] slot_value(c2, t, j) == slot_value(c, t, j) by {
            assert(slot_value(c2, t, j) == slot_value(c1, t, j));
        }
        assert forall|m: int| 0 <= m < k implies #[trigger] slot_value(c2, t, slots(c) + m) == Ok::<
            ValueModel,
            crate::error::ParquetError,
        >(es[m].1) by {
            if m < k - 1 {
                assert(slot_value(c2, t, slots(c) + m) == slot_value(c1, t, slots(c) + m));
            }
        }
    }
}

/// A list's elements keyed from 0, as the reader gives them.
pub open spec fn indexed(es: Seq<(KeyModel, ValueModel)>) -> Seq<(KeyModel, ValueModel)> {
    Seq::new(es.len(), |m: int| (KeyModel::Long(m as i64), es[m].1))
}

/// Reading `n` slots of a child column that read as the given elements
/// gives the elements keyed from 0.
proof fn lemma_list_entries_read(c: DataModel, t: ArrowTypeModel, lo: int, es: Seq<(KeyModel, ValueModel)>, n: int)
    requires
        0 <= n <= es.len(),
        forall|m: int| 0 <= m < n ==> #[trigger] slot_value(c, t, lo + m) == Ok::<ValueModel, crate::error::ParquetError>(
            es[m].1,
        ),
    ensures
        list_entries(c, t, lo, lo + n) == Ok::<Seq<(KeyModel, ValueModel)>, crate::error::ParquetError>(
            indexed(es.subrange(0, n)),
        ),
    decreases n,
{
    if n > 0 {
        lemma_list_entries_read(c, t, lo, es, n - 1);
        assert(slot_value(c, t, lo + (n - 1)) == Ok::<ValueModel, crate::error::ParquetError>(es[n - 1].1));
        assert(indexed(es.subrange(0, n)) =~= indexed(es.subrange(0, n - 1)).push(
            (KeyModel::Long((n - 1) as i64), es[n - 1].1),
        ));
    } else {
        assert(indexed(es.subrange(0, 0)) =~= Seq::<(KeyModel, ValueModel)>::empty());
    }
}

/// What slot `j` of a list column holds for the value `v` written there:
/// for an array, a valid slot whose child slots read as its elements; for
/// null, a null slot without elements.
pub open spec fn list_slot_holds(
    valid: Seq<bool>,
    ends: Seq<usize>,
    c: DataModel,
    t: ArrowTypeModel,
    v: ValueModel,
    j: int,
) -> bool {
    match v {
        ValueModel::Null => !valid[j] && ends[j] == slot_start(ends, j),
        ValueModel::Array(es) => {
            &&& valid[j]
            &&& ends[j] == slot_start(ends, j) + es.len()
            &&& forall|m: int|
                0 <= m < es.len() ==> #[trigger] slot_value(c, t, slot_start(ends, j) + m) == Ok::<
                    ValueModel,
                    crate::error::ParquetError,
                >(es[m].1)
        },
        _ => false,
    }
}

/// The element type of a list type.
pub open spec fn element_type(t: ArrowTypeModel) -> ArrowTypeModel {
    match t {
        ArrowTypeModel::List(ef) => ef.data_type,
        _ => t,
    }
}

/// The number of elements the first `k` rows hold for a column: the
/// lengths of the arrays written there.
pub open spec fn elements_total(rows: Seq<ValueModel>, name: Seq<char>, k: int) -> int
    decreases k,
{
    if k <= 0 {
        0
    } else {
        elements_total(rows, name, k - 1) + match written_value(rows[k - 1], name) {
            ValueModel::Array(es) => es.len() as int,
            _ => 0,
        }
    }
}

pub(crate) proof fn lemma_list_rows_read(rows: Seq<ValueModel>, f: FieldModel, k: int)
    requires
        f.data_type is List,
        plain_type(element_type(f.data_type)),
        0 <= k <= rows.len(),
        list_rows(rows, f, k) is Ok,
        elements_total(rows, f.name, k) <= usize::MAX,
    ensures
        list_rows(rows, f, k) matches Ok(d) && d.values matches ValuesModel::Lists(ends, c) && d.valid.len() == k
            && ends.len() == k && fits(*c, element_type(f.data_type)) && ends_fit(ends, slots(*c)) && slots(*c)
            == slot_start(ends, k) && slots(*c) == elements_total(rows, f.name, k) && forall|j: int|
            0 <= j < k ==> #[trigger] list_slot_holds(
                d.valid,
                ends,
                *c,
                element_type(f.data_type),
                written_value(rows[j], f.name),
                j,
            ),
    decreases k,
{
    let t = element_type(f.data_type);
    if k == 0 {
        let d = list_rows(rows, f, 0)->Ok_0;
        assert(d == empty_data(f.data_type));
        let c = empty_data(t);
        assert(c.valid.len() == 0);
        match c.values {
            ValuesModel::Texts(x) => {
                assert(x.len() == 0);
            },
            ValuesModel::Binaries(x) => {
                assert(x.len() == 0);
            },
            _ => {},
        }
    } else {
        lemma_list_rows_read(rows, f, k - 1);
        let i = k - 1;
        let d = list_rows(rows, f, i)->Ok_0;
        let d2 = list_rows(rows, f, k)->Ok_0;
        let ends = d.values->Lists_0;
        let c = *d.values->Lists_1;
        match field_value(rows[i], f.name, i as usize, f.nullable) {
            Ok(None) => {
                assert(d2 == null_appended(d, f.data_type));
                let ends2 = ends.push(slots(c) as usize);
                assert(d2.values == ValuesModel::Lists(ends2, Box::new(c)));
                assert(written_value(rows[i], f.name) == ValueModel::Null);
                assert forall|j: int| 0 <= j < k implies #[trigger] list_slot_holds(
                    d2.valid,
                    ends2,
                    c,
                    t,
                    written_value(rows[j], f.name),
                    j,
                ) by {
                    if j < i {
                        assert(list_slot_holds(d.valid, ends, c, t, written_value(rows[j], f.name), j));
                        assert(slot_start(ends2, j) == slot_start(ends, j));
                        assert(d2.valid[j] == d.valid[j]);
                        assert(ends2[j] == ends[j]);
                    }
                }
            },
            Ok(Some(v)) => {
                assert(written_value(rows[i], f.name) == v);
                let es = v->Array_0;
                assert(d2 == value_appended(d, v, f.data_type, f.name, i as usize)->Ok_0);
                lemma_elements_appended(c, es, t, f.name, i as usize, es.len() as int);
                let c2 = elements_appended(c, es, t, f.name, i as usize, es.len() as int)->Ok_0;
                let ends2 = ends.push(slots(c2) as usize);
                assert(d2.values == ValuesModel::Lists(ends2, Box::new(c2)));
                assert forall|j: int| 0 <= j < k implies #[trigger] list_slot_holds(
                    d2.valid,
                    ends2,
                    c2,
                    t,
                    written_value(rows[j], f.name),
                    j,
                ) by {
                    if j < i {
                        let w = written_value(rows[j], f.name);
                        assert(list_slot_holds(d.valid, ends, c, t, w, j));
                        assert(slot_start(ends2, j) == slot_start(ends, j));
                        assert(d2.valid[j] == d.valid[j]);
                        assert(ends2[j] == ends[j]);
                        if w is Array {
                            let ws = w->Array_0;
                            assert forall|m: int| 0 <= m < ws.len() implies #[trigger] slot_value(
                                c2,
                                t,
                                slot_start(ends2, j) + m,
                            ) == Ok::<ValueModel, crate::error::ParquetError>(ws[m].1) by {
                                assert(slot_value(c, t, slot_start(ends, j) + m) == Ok::<
                                    ValueModel,
                                    crate::error::ParquetError,
                                >(ws[m].1));
                                assert(ends[j] <= slots(c));
                            }
                        }
                    } else {
                        assert(slot_start(ends2, i) == slots(c));
                        assert forall|m: int| 0 <= m < es.len() implies #[trigger] slot_value(
                            c2,
                            t,
                            slot_start(ends2, i) + m,
                        ) == Ok::<ValueModel, crate::error::ParquetError>(es[m].1) by {
                            assert(slot_value(c2, t, slots(c) + m) == Ok::<ValueModel, crate::error::ParquetError>(
                                es[m].1,
                            ));
                        }
                    }
                }
            },
            Err(_) => {},
        }
    }
}

/// What the reader gives for a list written as `v`: an array's elements
/// keyed from 0, null for null.
pub open spec fn list_read(v: ValueModel) -> ValueModel {
    match v {
        ValueModel::Array(es) => ValueModel::Array(indexed(es)),
        _ => ValueModel::Null,
    }
}

/// What a list column whose elements are booleans, 32- or 64-bit integers,
/// doubles, strings or binary holds once written reads back as it was
/// written: the column has one slot per row and the shape its type asks
/// for, and each slot reads as the row's array for the column, its elements
/// in order keyed from 0 (null where the row has none), when all rows hold
/// no more elements together than a `usize` counts.
pub proof fn law_write_read_list(rows: Seq<ValueModel>, f: FieldModel, i: int)
    requires
        f.data_type is List,
        plain_type(element_type(f.data_type)),
        column_built(rows, f) is Ok,
        elements_total(rows, f.name, rows.len() as int) <= usize::MAX,
        0 <= i < rows.len(),
    ensures
        column_built(rows, f) matches Ok(d) && slots(d) == rows.len() && fits(d, f.data_type) && slot_value(
            d,
            f.data_type,
            i,
        ) == Ok::<ValueModel, crate::error::ParquetError>(list_read(written_value(rows[i], f.name))),
{
    let n = rows.len() as int;
    let t = element_type(f.data_type);
    assert(column_appended(rows, f) == list_rows(rows, f, n));
    lemma_list_rows_read(rows, f, n);
    let d = list_rows(rows, f, n)->Ok_0;
    let ends = d.values->Lists_0;
    let c = *d.values->Lists_1;
    let w = written_value(rows[i], f.name);
    assert(list_slot_holds(d.valid, ends, c, t, w, i));
    if let ValueModel::Array(es) = w {
        let lo = slot_start(ends, i);
        lemma_list_entries_read(c, t, lo, es, es.len() as int);
        assert(es.subrange(0, es.len() as int) =~= es);
        assert(ends[i] as int == lo + es.len());
    }
}

/// The elements of row `i` count toward the elements of the first `k` rows.
proof fn lemma_elements_total_row(rows: Seq<ValueModel>, name: Seq<char>, k: int, i: int)
    requires
        0 <= i < k <= rows.len(),
    ensures
        written_value(rows[i], name) matches ValueModel::Array(es) ==> es.len() <= elements_total(rows, name, k),
        elements_total(rows, name, k) >= 0,
    decreases k,
{
    lemma_elements_total_nonneg(rows, name, k - 1);
    if i < k - 1 {
        lemma_elements_total_row(rows, name, k - 1, i);
    }
}

proof fn lemma_elements_total_nonneg(rows: Seq<ValueModel>, name: Seq<char>, k: int)
    ensures
        elements_total(rows, name, k) >= 0,
    decreases k,
{
    if k > 0 {
        lemma_elements_total_nonneg(rows, name, k - 1);
    }
}

/// A PHP list (its keys 0, 1, ... in order) written to a list column whose
/// elements are booleans, 32- or 64-bit integers, doubles, strings or
/// binary reads back as that very list.
pub proof fn law_php_list_roundtrip(rows: Seq<ValueModel>, f: FieldModel, i: int, es: Seq<(KeyModel, ValueModel)>)
    requires
        f.data_type is List,
        plain_type(element_type(f.data_type)),
        column_built(rows, f) is Ok,
        elements_total(rows, f.name, rows.len() as int) <= usize::MAX,
        0 <= i < rows.len(),
        written_value(rows[i], f.name) == ValueModel::Array(es),
        forall|m: int| 0 <= m < es.len() ==> #[trigger] es[m].0 == KeyModel::Long(m as i64),
    ensures
        column_built(rows, f) matches Ok(d) && slot_value(d, f.data_type, i) == Ok::<
            ValueModel,
            crate::error::ParquetError,
        >(ValueModel::Array(es)),
{
    law_write_read_list(rows, f, i);
    lemma_elements_total_row(rows, f.name, rows.len() as int, i);
    assert(indexed(es) =~= es) by {
        assert forall|m: int| 0 <= m < es.len() implies #[trigger] indexed(es)[m] == es[m] by {
            assert(es[m].0 == KeyModel::Long(m as i64));
        }
    }
}

} // verus!
