use vstd::prelude::*;
use vstd::utf8::{encode_utf8_decode_utf8, encode_utf8_valid_utf8};

use crate::arrow_model::{ArrowTypeModel, FieldModel, TimeUnit};
use crate::column_data::{fits, slots, DataModel, ValuesModel};
use crate::decode::slot_value;
use crate::encode::{
    nested_slot, value_appended, column_appended,
    SlotModel, column_built, default_pushed, field_value, list_rows, map_rows, primitive_rows, slot_pushed, struct_rows, top_slot,
    writable,
};
use crate::decimal::{
    abs_int, decimal_text, decimal_value, i128_max, i128_min, in_i128, lemma_pow10_bounds, lemma_trim_end,
    lemma_trim_start, negative_text, parse_i128_text, pow10, trim,
};
use crate::php::{key_of_text, lookup, ValueModel};
use crate::uuid_text::{uuid_hyphenated, uuid_parse};
use crate::calendar::lemma_date_text_roundtrip;
use crate::clock::law_time_text_roundtrip;
use crate::temporal::{date_days, time_micros, datetime_micros, max_timestamp_micros, min_timestamp_micros, timestamp_text, date_text, first_day_of_year_zero, i64_max, i64_min, max_epoch_day, time_text, tmod};
use crate::text::{
    split_once, all_digits, byte_prefix_len, fill_left, fill_right, int_text, is_digit, lemma_index_of, lemma_nat_text,
    lemma_zeros_then_digits, nat_text, parse_int_text,
};
use vstd::arithmetic::div_mod::lemma_fundamental_div_mod;

verus! {

/// The value a row holds for a column: the value under the column's name,
/// null where there is none (or the row is not an array).
pub open spec fn written_value(row: ValueModel, name: Seq<char>) -> ValueModel {
    match row {
        ValueModel::Array(es) => match lookup(es, key_of_text(name)) {
            Some(v) => v,
            None => ValueModel::Null,
        },
        _ => ValueModel::Null,
    }
}

/// The types whose values read back as they were written: booleans, 32- and
/// 64-bit integers, floats and doubles (a float column holds the written
/// double; it is narrowed to 32 bits only where it is handed to Arrow),
/// strings and binary.
pub open spec fn plain_type(t: ArrowTypeModel) -> bool {
    ||| t == ArrowTypeModel::Boolean
    ||| t == ArrowTypeModel::Int32
    ||| t == ArrowTypeModel::Int64
    ||| t == ArrowTypeModel::Float32
    ||| t == ArrowTypeModel::Float64
    ||| t == ArrowTypeModel::Utf8
    ||| t == ArrowTypeModel::Binary
}

pub(crate) proof fn lemma_plain_rows(rows: Seq<ValueModel>, f: FieldModel, k: int)
    requires
        plain_type(f.data_type),
        0 <= k <= rows.len(),
        primitive_rows(rows, f, k) is Ok,
    ensures
        primitive_rows(rows, f, k) matches Ok(d) && slots(d) == k && fits(d, f.data_type) && forall|i: int|
            0 <= i < k ==> #[trigger] slot_value(d, f.data_type, i) == Ok::<ValueModel, crate::error::ParquetError>(
                written_value(rows[i], f.name),
            ),
    decreases k,
{
    let t = f.data_type;
    if k == 0 {
        let d = primitive_rows(rows, f, 0)->Ok_0;
        assert(d.valid.len() == 0);
        match d.values {
            ValuesModel::Texts(x) => {
                assert(x.len() == 0);
            },
            ValuesModel::Binaries(x) => {
                assert(x.len() == 0);
            },
            _ => {},
        }
    } else {
        lemma_plain_rows(rows, f, k - 1);
        let d = primitive_rows(rows, f, k - 1)->Ok_0;
        let i = k - 1;
        let row = rows[i];
        let d2 = primitive_rows(rows, f, k)->Ok_0;
        match field_value(row, f.name, i as usize, f.nullable) {
            Ok(None) => {
                assert(d2 == default_pushed(d));
                assert(written_value(row, f.name) == ValueModel::Null);
                assert forall|j: int| 0 <= j < k implies #[trigger] slot_value(d2, t, j) == Ok::<
                    ValueModel,
                    crate::error::ParquetError,
                >(written_value(rows[j], f.name)) by {
                    if j < i {
                        assert(d2.valid[j] == d.valid[j]);
                        assert(slot_value(d, t, j) == Ok::<ValueModel, crate::error::ParquetError>(
                            written_value(rows[j], f.name),
                        ));
                    }
                }
            },
            Ok(Some(v)) => {
                let s = top_slot(v, t, f.name, i as usize)->Ok_0;
                assert(d2 == slot_pushed(d, s));
                assert(written_value(row, f.name) == v);
                if t == ArrowTypeModel::Binary {
                    let st = v->Str_0;
                    encode_utf8_valid_utf8(st);
                    encode_utf8_decode_utf8(st);
                }
                assert forall|j: int| 0 <= j < k implies #[trigger] slot_value(d2, t, j) == Ok::<
                    ValueModel,
                    crate::error::ParquetError,
                >(written_value(rows[j], f.name)) by {
                    if j < i {
                        assert(d2.valid[j] == d.valid[j]);
                        assert(slot_value(d, t, j) == Ok::<ValueModel, crate::error::ParquetError>(
                            written_value(rows[j], f.name),
                        ));
                    }
                }
            },
            Err(_) => {},
        }
    }
}

/// What a column of booleans, 32- or 64-bit integers, doubles, strings or
/// binary holds once written reads back as it was written: the column has
/// one slot per row, has the shape its type asks for, and each slot reads as
/// the row's value for the column (null where the row has none). A binary
/// column reads back the text whose UTF-8 bytes were written.
pub proof fn law_write_read_plain(rows: Seq<ValueModel>, f: FieldModel, i: int)
    requires
        plain_type(f.data_type),
        column_built(rows, f) is Ok,
        0 <= i < rows.len(),
    ensures
        column_built(rows, f) matches Ok(d) && slots(d) == rows.len() && fits(d, f.data_type) && slot_value(
            d,
            f.data_type,
            i,
        ) == Ok::<ValueModel, crate::error::ParquetError>(written_value(rows[i], f.name)),
{
    lemma_plain_rows(rows, f, rows.len() as int);
}

/// A run of ASCII digits is cut at any of its positions without splitting a
/// character.
proof fn lemma_digits_byte_prefix(s: Seq<char>, k: int)
    requires
        all_digits(s),
        0 <= k <= s.len(),
    ensures
        byte_prefix_len(s, k) == Some(k),
    decreases k,
{
    if k > 0 {
        assert(is_digit(s[0]));
        assert(all_digits(s.drop_first()));
        lemma_digits_byte_prefix(s.drop_first(), k - 1);
    }
}

/// A natural number below `10^k` has at most `k` digits.
pub(crate) proof fn lemma_nat_text_len(n: nat, k: nat)
    requires
        n < pow10(k),
        k >= 1,
    ensures
        nat_text(n).len() <= k,
    decreases k,
{
    if n >= 10 {
        assert(k >= 2) by {
            if k == 1 {
                assert(pow10(1) == 10 * pow10(0));
            }
        }
        assert(pow10(k) == 10 * pow10((k - 1) as nat));
        assert(n / 10 < pow10((k - 1) as nat));
        lemma_nat_text_len(n / 10, (k - 1) as nat);
    }
}

/// The decimal text of an integer reads back as it, and holds only digits
/// after an optional leading `-`.
pub proof fn lemma_int_text(x: int)
    ensures
        parse_int_text(int_text(x), true) == Some(x),
        int_text(x).len() >= 1,
        forall|j: int| 0 <= j < int_text(x).len() ==> is_digit(#[trigger] int_text(x)[j]) || (j == 0 && int_text(x)[j] == '-'),
        is_digit(int_text(x).last()),
{
    if x >= 0 {
        lemma_nat_text(x as nat);
    } else {
        let n = nat_text((-x) as nat);
        lemma_nat_text((-x) as nat);
        let t = int_text(x);
        assert(t =~= seq!['-'] + n);
        assert(t.drop_first() =~= n);
        assert forall|j: int| 0 <= j < t.len() implies is_digit(#[trigger] t[j]) || (j == 0 && t[j] == '-') by {
            if j > 0 {
                assert(t[j] == n[j - 1]);
            }
        }
        assert(t.last() == n.last());
    }
}

/// A decimal value written as text and read back with the same scale gives
/// the value back, for every `i128` value and the scales from 0 to 38 (the
/// ones Arrow accepts).
pub proof fn law_decimal_text_roundtrip(v: int, s: int)
    requires
        i128_min() <= v <= i128_max(),
        0 <= s <= 38,
    ensures
        decimal_value(decimal_text(v, s), s) == Some(v),
{
    let text = decimal_text(v, s);
    lemma_pow10_bounds(s as nat);
    if s == 0 {
        lemma_int_text(v);
        assert(text == int_text(v));
        lemma_trim_start(text, 0);
        assert(text.subrange(0, text.len() as int) =~= text);
        lemma_trim_end(text, text.len() as int);
        assert(trim(text) == text);
        assert forall|j: int| 0 <= j < text.len() implies text[j] != '.' by {
            assert(is_digit(text[j]) || (j == 0 && text[j] == '-'));
        }
        lemma_index_of(text, '.', text.len() as int);
        assert(pow10(0) == 1);
        assert(v * pow10(0) == v);
    } else {
        lemma_decimal_frac_roundtrip(v, s);
    }
}

/// The magnitude of `v` split by a positive `p`: quotient and remainder,
/// and the products that reading the text of `v` computes.
proof fn lemma_magnitude_split(v: int, p: int)
    requires
        i128_min() <= v <= i128_max(),
        p >= 1,
    ensures
        0 <= abs_int(v) % p < p,
        abs_int(v) / p >= 0,
        (abs_int(v) / p) * p + abs_int(v) % p == abs_int(v),
        (-(abs_int(v) / p)) * p == -((abs_int(v) / p) * p),
        0 <= (abs_int(v) / p) * p <= abs_int(v),
{
    let m = abs_int(v);
    let q = m / p;
    let r = m % p;
    lemma_fundamental_div_mod(m, p);
    assert(0 <= r < p);
    assert(q >= 0) by (nonlinear_arith)
        requires
            m == p * q + r,
            0 <= r < p,
            m >= 0,
            p >= 1,
    ;
    assert(q * p + r == m) by (nonlinear_arith)
        requires
            m == p * q + r,
    ;
    assert((-q) * p == -(q * p)) by (nonlinear_arith);
    assert(0 <= q * p) by (nonlinear_arith)
        requires
            q >= 0,
            p >= 1,
    ;
}

/// The integer part of the text of `v` at a positive scale `s`: its sign
/// and the quotient of its magnitude by `10^s`.
spec fn int_part_text(v: int, s: int) -> Seq<char> {
    (if v < 0 { seq!['-'] } else { Seq::<char>::empty() }) + nat_text((abs_int(v) / pow10(s as nat)) as nat)
}

/// The fraction of the text of `v` at a positive scale `s`: the remainder
/// of its magnitude by `10^s`, on `s` digits.
spec fn frac_part_text(v: int, s: int) -> Seq<char> {
    fill_left(nat_text((abs_int(v) % pow10(s as nat)) as nat), s)
}

/// The text of `v` at a positive scale is its integer part, `.` and its
/// fraction, which trimming leaves alone and splitting at the first `.`
/// takes apart.
proof fn lemma_decimal_text_split(v: int, s: int)
    requires
        i128_min() <= v <= i128_max(),
        0 < s <= 38,
    ensures
        decimal_text(v, s) == int_part_text(v, s) + seq!['.'] + frac_part_text(v, s),
        trim(decimal_text(v, s)) == decimal_text(v, s),
        split_once(decimal_text(v, s), '.') == Some((int_part_text(v, s), frac_part_text(v, s))),
        frac_part_text(v, s).len() == s,
        all_digits(frac_part_text(v, s)),
{
    lemma_pow10_bounds(s as nat);
    let p = pow10(s as nat);
    lemma_magnitude_split(v, p);
    let q = abs_int(v) / p;
    let r = abs_int(v) % p;
    let text = decimal_text(v, s);
    let qs = nat_text(q as nat);
    lemma_nat_text(q as nat);
    let ip = int_part_text(v, s);
    let fp = frac_part_text(v, s);
    lemma_nat_text(r as nat);
    lemma_nat_text_len(r as nat, s as nat);
    lemma_zeros_then_digits(s - nat_text(r as nat).len(), nat_text(r as nat));
    assert(fp.len() == s);
    assert(text == ip + seq!['.'] + fp);
    assert(is_digit(qs[0]));
    assert(text[0] == ip[0]);
    assert(text.last() == fp.last());
    assert(is_digit(fp[fp.len() - 1]));
    lemma_trim_start(text, 0);
    assert(text.subrange(0, text.len() as int) =~= text);
    lemma_trim_end(text, text.len() as int);
    assert forall|j: int| 0 <= j < ip.len() implies text[j] != '.' by {
        assert(text[j] == ip[j]);
        if v < 0 && j == 0 {
            assert(ip[j] == '-');
        } else if v < 0 {
            assert(ip[j] == qs[j - 1]);
            assert(is_digit(qs[j - 1]));
        } else {
            assert(ip[j] == qs[j]);
            assert(is_digit(qs[j]));
        }
    }
    lemma_index_of(text, '.', ip.len() as int);
    assert(text.subrange(0, ip.len() as int) =~= ip);
    assert(text.subrange(ip.len() as int + 1, text.len() as int) =~= fp);
}

/// The parts of the text of `v` at a positive scale read as the signed
/// quotient and the remainder, the fraction whole.
proof fn lemma_decimal_text_parts(v: int, s: int)
    requires
        i128_min() <= v <= i128_max(),
        0 < s <= 38,
    ensures
        parse_i128_text(int_part_text(v, s)) == Some(
            if v < 0 { -(abs_int(v) / pow10(s as nat)) } else { abs_int(v) / pow10(s as nat) },
        ),
        negative_text(int_part_text(v, s)) == (v < 0),
        byte_prefix_len(fill_right(frac_part_text(v, s), s), s) == Some(s),
        fill_right(frac_part_text(v, s), s).subrange(0, s) == frac_part_text(v, s),
        parse_i128_text(frac_part_text(v, s)) == Some(abs_int(v) % pow10(s as nat)),
{
    lemma_decimal_text_split(v, s);
    lemma_pow10_bounds(s as nat);
    let p = pow10(s as nat);
    lemma_magnitude_split(v, p);
    let q = abs_int(v) / p;
    let r = abs_int(v) % p;
    let qs = nat_text(q as nat);
    lemma_nat_text(q as nat);
    lemma_nat_text(r as nat);
    let ip = int_part_text(v, s);
    let fp = frac_part_text(v, s);
    assert(fill_right(fp, s) =~= fp);
    lemma_digits_byte_prefix(fp, s);
    assert(fp.subrange(0, s) =~= fp);
    lemma_zeros_then_digits(s - nat_text(r as nat).len(), nat_text(r as nat));
    assert(parse_int_text(fp, true) == Some(r)) by {
        assert(is_digit(fp[0]));
    }
    if v < 0 {
        assert(ip.drop_first() =~= qs);
        assert(parse_int_text(ip, true) == Some(-q));
    } else {
        assert(ip =~= qs);
        assert(is_digit(qs[0]));
        assert(parse_int_text(ip, true) == Some(q));
    }
}

/// `law_decimal_text_roundtrip` for a positive scale.
proof fn lemma_decimal_frac_roundtrip(v: int, s: int)
    requires
        i128_min() <= v <= i128_max(),
        0 < s <= 38,
    ensures
        decimal_value(decimal_text(v, s), s) == Some(v),
{
    lemma_decimal_text_split(v, s);
    lemma_decimal_text_parts(v, s);
    lemma_pow10_bounds(s as nat);
    let p = pow10(s as nat);
    lemma_magnitude_split(v, p);
    let q = abs_int(v) / p;
    let r = abs_int(v) % p;
    if v < 0 {
        assert(in_i128((-q) * p) == Some(-(q * p)));
        assert(-(q * p) - r == v);
    } else {
        assert(in_i128(q * p) == Some(q * p));
        assert(q * p + r == v);
    }
}

proof fn lemma_primitive_rows_present(rows: Seq<ValueModel>, f: FieldModel, k: int, j: int)
    requires
        0 <= j < k,
        primitive_rows(rows, f, k) is Ok,
    ensures
        field_value(rows[j], f.name, j as usize, f.nullable) is Ok,
    decreases k,
{
    if j < k - 1 {
        lemma_primitive_rows_present(rows, f, k - 1, j);
    }
}

proof fn lemma_list_rows_present(rows: Seq<ValueModel>, f: FieldModel, k: int, j: int)
    requires
        0 <= j < k,
        list_rows(rows, f, k) is Ok,
    ensures
        field_value(rows[j], f.name, j as usize, f.nullable) is Ok,
    decreases k,
{
    if j < k - 1 {
        lemma_list_rows_present(rows, f, k - 1, j);
    }
}

proof fn lemma_struct_rows_present(rows: Seq<ValueModel>, f: FieldModel, fs: Seq<FieldModel>, k: int, j: int)
    requires
        0 <= j < k,
        struct_rows(rows, f, fs, k) is Ok,
    ensures
        field_value(rows[j], f.name, j as usize, f.nullable) is Ok,
    decreases k,
{
    if j < k - 1 {
        lemma_struct_rows_present(rows, f, fs, k - 1, j);
    }
}

/// Rows appended to a map column whose entries have a key and a value field
/// keep the map's shape.
proof fn lemma_map_rows_shape(rows: Seq<ValueModel>, f: FieldModel, sfs: Seq<FieldModel>, k: int)
    requires
        f.data_type matches ArrowTypeModel::MapOf(e, _) && e.data_type == ArrowTypeModel::Struct(sfs),
        sfs.len() >= 2,
        map_rows(rows, f, sfs, k) is Ok,
    ensures
        map_rows(rows, f, sfs, k)->Ok_0.values is Maps,
    decreases k,
{
    if k > 0 {
        lemma_map_rows_shape(rows, f, sfs, k - 1);
    }
}

proof fn lemma_map_rows_present(rows: Seq<ValueModel>, f: FieldModel, sfs: Seq<FieldModel>, k: int, j: int)
    requires
        f.data_type matches ArrowTypeModel::MapOf(e, _) && e.data_type == ArrowTypeModel::Struct(sfs),
        sfs.len() >= 2,
        0 <= j < k,
        map_rows(rows, f, sfs, k) is Ok,
    ensures
        field_value(rows[j], f.name, j as usize, f.nullable) is Ok,
    decreases k,
{
    lemma_map_rows_shape(rows, f, sfs, k - 1);
    if j < k - 1 {
        lemma_map_rows_present(rows, f, sfs, k - 1, j);
    }
}

/// A column that was built from the rows had an array for every row, and
/// when the column is required, a value that is not null under the
/// column's name in every row: a required column refuses rows that lack it.
pub proof fn law_required_present(rows: Seq<ValueModel>, f: FieldModel, i: int)
    requires
        writable(f.data_type),
        column_built(rows, f) is Ok,
        0 <= i < rows.len(),
    ensures
        rows[i] is Array,
        !f.nullable ==> written_value(rows[i], f.name) != ValueModel::Null,
{
    let n = rows.len() as int;
    match f.data_type {
        ArrowTypeModel::List(_) => lemma_list_rows_present(rows, f, n, i),
        ArrowTypeModel::Struct(fs) => lemma_struct_rows_present(rows, f, fs, n, i),
        ArrowTypeModel::MapOf(e, _) => match e.data_type {
            ArrowTypeModel::Struct(sfs) => lemma_map_rows_present(rows, f, sfs, n, i),
            _ => {},
        },
        _ => lemma_primitive_rows_present(rows, f, n, i),
    }
}

/// The value slot `j` of a primitive column holds, as the slot appended for
/// it.
pub open spec fn stored_slot(d: DataModel, j: int) -> SlotModel {
    match d.values {
        ValuesModel::Int64s(x) => SlotModel::Int64(x[j]),
        ValuesModel::Decimals(x) => SlotModel::Decimal(x[j]),
        ValuesModel::Int32s(x) => SlotModel::Int32(x[j]),
        ValuesModel::Booleans(x) => SlotModel::Bool(x[j]),
        ValuesModel::Floats(x) => SlotModel::Float(x[j]),
        ValuesModel::Uuids(x) => SlotModel::Uuid(x[j]),
        _ => SlotModel::Bool(false),
    }
}

/// Dates, times and decimals: the types whose values are written from
/// their text.
pub open spec fn text_number_type(t: ArrowTypeModel) -> bool {
    ||| t == ArrowTypeModel::Date32
    ||| t == ArrowTypeModel::Time64(TimeUnit::Microsecond)
    ||| t is Decimal128
}

/// The types whose values are written from their text: dates, times,
/// decimals, microsecond timestamps and 16-byte UUIDs.
pub open spec fn text_written_type(t: ArrowTypeModel) -> bool {
    ||| text_number_type(t)
    ||| t matches ArrowTypeModel::Timestamp(u, _) && u == TimeUnit::Microsecond
    ||| t == ArrowTypeModel::FixedSizeBinary(16)
}

proof fn lemma_number_rows(rows: Seq<ValueModel>, f: FieldModel, k: int)
    requires
        text_written_type(f.data_type),
        0 <= k <= rows.len(),
        primitive_rows(rows, f, k) is Ok,
    ensures
        primitive_rows(rows, f, k) matches Ok(d) && slots(d) == k && fits(d, f.data_type) && forall|j: int|
            0 <= j < k ==> (#[trigger] field_value(rows[j], f.name, j as usize, f.nullable) matches Ok(Some(v))
                ==> d.valid[j] && stored_slot(d, j) == top_slot(v, f.data_type, f.name, j as usize)->Ok_0),
    decreases k,
{
    let t = f.data_type;
    if k > 0 {
        lemma_number_rows(rows, f, k - 1);
        let d = primitive_rows(rows, f, k - 1)->Ok_0;
        let i = k - 1;
        let d2 = primitive_rows(rows, f, k)->Ok_0;
        assert forall|j: int| 0 <= j < i implies d2.valid[j] == d.valid[j] && stored_slot(d2, j) == stored_slot(
            d,
            j,
        ) by {
            match field_value(rows[i], f.name, i as usize, f.nullable) {
                Ok(None) => {
                    assert(d2 == default_pushed(d));
                },
                Ok(Some(v)) => {
                    assert(d2 == slot_pushed(d, top_slot(v, t, f.name, i as usize)->Ok_0));
                },
                Err(_) => {},
            }
        }
        match field_value(rows[i], f.name, i as usize, f.nullable) {
            Ok(None) => {
                assert(d2 == default_pushed(d));
            },
            Ok(Some(v)) => {
                assert(d2 == slot_pushed(d, top_slot(v, t, f.name, i as usize)->Ok_0));
            },
            Err(_) => {},
        }
        assert forall|j: int| 0 <= j < k implies (#[trigger] field_value(rows[j], f.name, j as usize, f.nullable) matches Ok(
            Some(v),
        ) ==> d2.valid[j] && stored_slot(d2, j) == top_slot(v, t, f.name, j as usize)->Ok_0) by {
            if j < i {
                assert(d2.valid[j] == d.valid[j] && stored_slot(d2, j) == stored_slot(d, j));
            }
        }
    }
}

/// The text of a date, a time, or a decimal at the column's scale, as the
/// reader gives it: of a day number, a microsecond count, or an unscaled
/// value.
pub open spec fn number_text(t: ArrowTypeModel, x: int) -> Seq<char> {
    match t {
        ArrowTypeModel::Decimal128(_, s) => decimal_text(x, s as int),
        ArrowTypeModel::Date32 => date_text(x),
        _ => time_text(x),
    }
}

/// The numbers whose text reads back as the number: a day from 0000-01-01
/// up to the last one chrono holds for a date; for a time, a count of
/// microseconds of the `i64` range but a negative one whose microseconds are
/// `-100000` or below; for a decimal at a scale from 0 to 38, any value of
/// an `i128`.
pub open spec fn number_in_range(t: ArrowTypeModel, x: int) -> bool {
    match t {
        ArrowTypeModel::Date32 => first_day_of_year_zero() <= x <= max_epoch_day(),
        ArrowTypeModel::Decimal128(_, s) => {
            &&& i128_min() <= x <= i128_max()
            &&& 0 <= s <= 38
        },
        _ => i64_min() <= x <= i64_max() && tmod(x, 1_000_000) > -100_000,
    }
}

/// A date, time or decimal written as the text the reader gives for it
/// reads back as that very text: for a row whose value for a date, time or
/// decimal column is `number_text(t, x)`, the column built from the rows
/// holds `x` in that row's slot, which reads as the same text.
pub proof fn law_write_read_number_text(rows: Seq<ValueModel>, f: FieldModel, i: int, x: int)
    requires
        text_number_type(f.data_type),
        number_in_range(f.data_type, x),
        column_built(rows, f) is Ok,
        0 <= i < rows.len(),
        written_value(rows[i], f.name) == ValueModel::Str(number_text(f.data_type, x)),
    ensures
        column_built(rows, f) matches Ok(d) && slot_value(d, f.data_type, i) == Ok::<
            ValueModel,
            crate::error::ParquetError,
        >(ValueModel::Str(number_text(f.data_type, x))),
{
    let t = f.data_type;
    let n = rows.len() as int;
    let text = number_text(t, x);
    assert(column_appended(rows, f) == primitive_rows(rows, f, n));
    lemma_number_rows(rows, f, n);
    let d = primitive_rows(rows, f, n)->Ok_0;
    assert(field_value(rows[i], f.name, i as usize, f.nullable) == Ok::<Option<ValueModel>, crate::error::ErrorModel>(
        Some(ValueModel::Str(text)),
    ));
    match t {
        ArrowTypeModel::Decimal128(p, s) => {
            law_decimal_text_roundtrip(x, s as int);
            assert(top_slot(ValueModel::Str(text), t, f.name, i as usize) == Ok::<SlotModel, crate::error::ErrorModel>(
                SlotModel::Decimal(x as i128),
            ));
        },
        ArrowTypeModel::Date32 => {
            lemma_date_text_roundtrip(x);
            assert(top_slot(ValueModel::Str(text), t, f.name, i as usize) == Ok::<SlotModel, crate::error::ErrorModel>(
                SlotModel::Int32(x as i32),
            ));
        },
        _ => {
            law_time_text_roundtrip(x);
            assert(top_slot(ValueModel::Str(text), t, f.name, i as usize) == Ok::<SlotModel, crate::error::ErrorModel>(
                SlotModel::Int64(x as i64),
            ));
        },
    }
}

/// A date-time or a UUID written as text reads back as the reader's text of
/// what was stored: for a row whose value for a microsecond timestamp column
/// is a text `s` that chrono reads as the instant `m`, the column built from
/// the rows holds `m` in that row's slot, which reads as the UTC text of `m`
/// (for every instant chrono can hold); for a row whose value for a UUID
/// column is a text that uuid parses as bytes `b`, the slot holds `b` and
/// reads as the hyphenated lower-case text of `b`.
pub proof fn law_write_read_datetime_uuid(rows: Seq<ValueModel>, f: FieldModel, i: int, s: Seq<char>)
    requires
        f.data_type matches ArrowTypeModel::Timestamp(u, _) && u == TimeUnit::Microsecond || f.data_type
            == ArrowTypeModel::FixedSizeBinary(16),
        column_built(rows, f) is Ok,
        0 <= i < rows.len(),
        written_value(rows[i], f.name) == ValueModel::Str(s),
    ensures
        f.data_type is Timestamp ==> (datetime_micros(s) is Some && (min_timestamp_micros()
            <= datetime_micros(s)->Some_0 <= max_timestamp_micros() ==> (column_built(rows, f) matches Ok(d)
            && slot_value(d, f.data_type, i) == Ok::<ValueModel, crate::error::ParquetError>(
            ValueModel::Str(timestamp_text(datetime_micros(s)->Some_0 as int)),
        )))),
        f.data_type is FixedSizeBinary ==> (uuid_parse(s) is Some && (column_built(rows, f) matches Ok(d)
            && slot_value(d, f.data_type, i) == Ok::<ValueModel, crate::error::ParquetError>(
            ValueModel::Str(uuid_hyphenated(uuid_parse(s)->Some_0@)),
        ))),
{
    let t = f.data_type;
    let n = rows.len() as int;
    assert(column_appended(rows, f) == primitive_rows(rows, f, n));
    lemma_number_rows(rows, f, n);
    let d = primitive_rows(rows, f, n)->Ok_0;
    assert(field_value(rows[i], f.name, i as usize, f.nullable) == Ok::<Option<ValueModel>, crate::error::ErrorModel>(
        Some(ValueModel::Str(s)),
    ));
    lemma_primitive_slot_ok(rows, f, n, i);
    assert(top_slot(ValueModel::Str(s), t, f.name, i as usize) is Ok);
}

/// Rows that a primitive column was built from each made a slot.
proof fn lemma_primitive_slot_ok(rows: Seq<ValueModel>, f: FieldModel, k: int, j: int)
    requires
        0 <= j < k,
        primitive_rows(rows, f, k) is Ok,
    ensures
        field_value(rows[j], f.name, j as usize, f.nullable) matches Ok(Some(v)) ==> top_slot(
            v,
            f.data_type,
            f.name,
            j as usize,
        ) is Ok,
    decreases k,
{
    if j < k - 1 {
        lemma_primitive_slot_ok(rows, f, k - 1, j);
    }
}

/// The slot that holds the number `x` in a column of a date, time or
/// decimal type.
pub open spec fn number_slot(t: ArrowTypeModel, x: int) -> SlotModel {
    match t {
        ArrowTypeModel::Date32 => SlotModel::Int32(x as i32),
        ArrowTypeModel::Decimal128(_, _) => SlotModel::Decimal(x as i128),
        _ => SlotModel::Int64(x as i64),
    }
}

/// A date, time or decimal written as text into a nested column (the
/// elements of a list, a field of a struct, the values of a map) is stored
/// and read back as at the top level: appending the text the reader gives
/// for `x` adds one slot, which holds `x` itself (the day number, the
/// microseconds, or the value unscaled at the column's own scale) and reads
/// back as the same text; the slots before it are unchanged.
pub proof fn law_nested_number_text(d: DataModel, t: ArrowTypeModel, col: Seq<char>, row: usize, x: int)
    requires
        text_number_type(t),
        number_in_range(t, x),
        fits(d, t),
    ensures
        value_appended(d, ValueModel::Str(number_text(t, x)), t, col, row) matches Ok(d2) && slots(d2) == slots(d) + 1
            && fits(d2, t) && d2.valid[slots(d)] && stored_slot(d2, slots(d)) == number_slot(t, x) && slot_value(
            d2,
            t,
            slots(d),
        ) == Ok::<ValueModel, crate::error::ParquetError>(ValueModel::Str(number_text(t, x))) && forall|j: int|
            0 <= j < slots(d) ==> #[trigger] slot_value(d2, t, j) == slot_value(d, t, j),
{
    let text = number_text(t, x);
    match t {
        ArrowTypeModel::Decimal128(p, sc) => {
            law_decimal_text_roundtrip(x, sc as int);
            lemma_nested_decimal_slot(text, p, sc, col, row, x);
        },
        ArrowTypeModel::Date32 => {
            lemma_date_text_roundtrip(x);
            lemma_nested_date_slot(text, col, row, x);
        },
        _ => {
            law_time_text_roundtrip(x);
            lemma_nested_time_slot(text, col, row, x);
        },
    }
    let d2 = slot_pushed(d, number_slot(t, x));
    assert(value_appended(d, ValueModel::Str(text), t, col, row) == Ok::<DataModel, crate::error::ErrorModel>(d2));
    let n = slots(d);
    assert forall|j: int| 0 <= j < n implies #[trigger] slot_value(d2, t, j) == slot_value(d, t, j) by {
        assert(d2.valid[j] == d.valid[j]);
    }
}

proof fn lemma_nested_decimal_slot(text: Seq<char>, p: u8, sc: i8, col: Seq<char>, row: usize, x: int)
    requires
        decimal_value(text, sc as int) == Some(x),
    ensures
        nested_slot(ValueModel::Str(text), ArrowTypeModel::Decimal128(p, sc), col, row) == Ok::<
            SlotModel,
            crate::error::ErrorModel,
        >(SlotModel::Decimal(x as i128)),
{
}

proof fn lemma_nested_date_slot(text: Seq<char>, col: Seq<char>, row: usize, x: int)
    requires
        date_days(text) == Some(x),
    ensures
        nested_slot(ValueModel::Str(text), ArrowTypeModel::Date32, col, row) == Ok::<SlotModel, crate::error::ErrorModel>(
            SlotModel::Int32(x as i32),
        ),
{
}

proof fn lemma_nested_time_slot(text: Seq<char>, col: Seq<char>, row: usize, x: int)
    requires
        time_micros(text) == Some(x),
    ensures
        nested_slot(ValueModel::Str(text), ArrowTypeModel::Time64(TimeUnit::Microsecond), col, row) == Ok::<
            SlotModel,
            crate::error::ErrorModel,
        >(SlotModel::Int64(x as i64)),
{
}

/// A date-time or a UUID written as text into a nested column is stored and
/// read back as at the top level: a text that chrono reads as the instant
/// `m` appends one slot holding `m`, which reads as the UTC text of `m` (for
/// every instant chrono can hold); a text that uuid parses as bytes `b`
/// appends one slot holding `b`, which reads as the hyphenated text of `b`;
/// the slots before it are unchanged.
pub proof fn law_nested_datetime_uuid(
    d: DataModel,
    t: ArrowTypeModel,
    col: Seq<char>,
    row: usize,
    s: Seq<char>,
)
    requires
        t matches ArrowTypeModel::Timestamp(u, _) && u == TimeUnit::Microsecond || t == ArrowTypeModel::FixedSizeBinary(
            16,
        ),
        fits(d, t),
        t is Timestamp ==> datetime_micros(s) is Some && min_timestamp_micros() <= datetime_micros(s)->Some_0
            <= max_timestamp_micros(),
        t is FixedSizeBinary ==> uuid_parse(s) is Some,
    ensures
        value_appended(d, ValueModel::Str(s), t, col, row) matches Ok(d2) && slots(d2) == slots(d) + 1 && fits(d2, t)
            && d2.valid[slots(d)] && (forall|j: int|
            0 <= j < slots(d) ==> #[trigger] slot_value(d2, t, j) == slot_value(d, t, j)),
        t is Timestamp ==> (value_appended(d, ValueModel::Str(s), t, col, row) matches Ok(d2) && stored_slot(
            d2,
            slots(d),
        ) == SlotModel::Int64(datetime_micros(s)->Some_0) && slot_value(d2, t, slots(d)) == Ok::<
            ValueModel,
            crate::error::ParquetError,
        >(ValueModel::Str(timestamp_text(datetime_micros(s)->Some_0 as int)))),
        t is FixedSizeBinary ==> (value_appended(d, ValueModel::Str(s), t, col, row) matches Ok(d2) && stored_slot(
            d2,
            slots(d),
        ) == SlotModel::Uuid(uuid_parse(s)->Some_0) && slot_value(d2, t, slots(d)) == Ok::<
            ValueModel,
            crate::error::ParquetError,
        >(ValueModel::Str(uuid_hyphenated(uuid_parse(s)->Some_0@)))),
{
    let slot = if t is Timestamp {
        SlotModel::Int64(datetime_micros(s)->Some_0)
    } else {
        SlotModel::Uuid(uuid_parse(s)->Some_0)
    };
    assert(nested_slot(ValueModel::Str(s), t, col, row) == Ok::<SlotModel, crate::error::ErrorModel>(slot));
    let d2 = slot_pushed(d, slot);
    assert(value_appended(d, ValueModel::Str(s), t, col, row) == Ok::<DataModel, crate::error::ErrorModel>(d2));
    let n = slots(d);
    assert forall|j: int| 0 <= j < n implies #[trigger] slot_value(d2, t, j) == slot_value(d, t, j) by {
        assert(d2.valid[j] == d.valid[j]);
    }
}

} // verus!
