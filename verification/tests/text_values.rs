use parquet_php::decimal::{format_decimal, parse_decimal_to_i128};
use parquet_php::php::{array_get, array_insert, key_of, numeric_key_of, PhpKey, PhpValue};
use parquet_php::temporal::{
    format_date_days, format_datetime_micros, format_time_micros, parse_date_to_days, parse_datetime_to_micros,
    parse_time_to_micros,
};

#[test]
fn date_text_to_days() {
    assert_eq!(parse_date_to_days("1970-01-01"), Some(0));
    assert_eq!(parse_date_to_days("2024-01-15"), Some(19737));
    assert_eq!(parse_date_to_days("1969-12-31"), Some(-1));
    assert_eq!(parse_date_to_days("2024-02-29"), Some(19782));
}

#[test]
fn date_text_refused() {
    assert_eq!(parse_date_to_days("2023-02-29"), None);
    assert_eq!(parse_date_to_days("2024-13-01"), None);
    assert_eq!(parse_date_to_days("2024-01"), None);
    assert_eq!(parse_date_to_days("abc"), None);
    assert_eq!(parse_date_to_days("-2024-01-01"), None);
}

#[test]
fn days_to_date_text() {
    assert_eq!(format_date_days(0), "1970-01-01");
    assert_eq!(format_date_days(19737), "2024-01-15");
    assert_eq!(format_date_days(-5), "1969-12-27");
    assert_eq!(format_date_days(-1), "1969-12-31");
    assert_eq!(format_date_days(95026236), "+262142-12-31");
}

#[test]
fn date_roundtrip_from_days() {
    for days in [0, 1, 59, 365, 11016, 19737, 2932896, 95026236] {
        let text = format_date_days(days);
        assert_eq!(parse_date_to_days(&text), Some(days));
    }
}

#[test]
fn time_text_to_micros() {
    assert_eq!(parse_time_to_micros("12:34:56.789"), Some(45296789000));
    assert_eq!(parse_time_to_micros("01:02"), Some(3720000000));
    assert_eq!(parse_time_to_micros("10:00:00.1234567"), Some(36000123456));
    assert_eq!(parse_time_to_micros("00:00:01"), Some(1000000));
    assert_eq!(parse_time_to_micros("noon"), None);
    assert_eq!(parse_time_to_micros("12:xx:00"), None);
}

#[test]
fn time_fraction_cut_inside_character() {
    assert_eq!(parse_time_to_micros("10:00:00.12345\u{e9}"), None);
    assert_eq!(parse_time_to_micros("00:00:00.aaaaa\u{e9}"), None);
    assert_eq!(parse_time_to_micros("10:00:00.123456"), Some(36000123456));
}

#[test]
fn time_outside_i64_refused() {
    assert_eq!(parse_time_to_micros("9999999999:00:00"), None);
    assert_eq!(parse_time_to_micros("2562047789:00:00"), None);
    assert_eq!(parse_time_to_micros("2562047788:00:00"), Some(2562047788 * 3_600_000_000));
}

#[test]
fn micros_to_time_text() {
    assert_eq!(format_time_micros(45296789000), "12:34:56.789000");
    assert_eq!(format_time_micros(0), "00:00:00.000000");
    assert_eq!(format_time_micros(-1), "00:00:00.-00001");
}

#[test]
fn time_roundtrip_from_micros() {
    for t in [0i64, 1, 999999, 1000000, 45296789000, 86399999999, 360000000000] {
        let text = format_time_micros(t);
        assert_eq!(parse_time_to_micros(&text), Some(t));
    }
}

#[test]
fn datetime_text_to_micros() {
    assert_eq!(parse_datetime_to_micros("2024-01-15T10:30:00Z"), Some(1705314600000000));
    assert_eq!(parse_datetime_to_micros("2024-01-15T10:30:00+02:00"), Some(1705307400000000));
    assert_eq!(parse_datetime_to_micros("2024-01-15 10:30:00"), Some(1705314600000000));
    assert_eq!(parse_datetime_to_micros("2024-01-15T10:30:00"), Some(1705314600000000));
    assert_eq!(parse_datetime_to_micros("yesterday"), None);
}

#[test]
fn micros_to_datetime_text() {
    assert_eq!(format_datetime_micros(1705314600000000).as_deref(), Some("2024-01-15T10:30:00.000000Z"));
    assert_eq!(format_datetime_micros(-1).as_deref(), Some("1969-12-31T23:59:59.999999Z"));
    assert_eq!(format_datetime_micros(i64::MAX), None);
}

#[test]
fn decimal_text_to_value() {
    assert_eq!(parse_decimal_to_i128("123.45", 2), Some(12345));
    assert_eq!(parse_decimal_to_i128("-1.5", 2), Some(-150));
    assert_eq!(parse_decimal_to_i128("  7 ", 2), Some(700));
    assert_eq!(parse_decimal_to_i128("1.239", 2), Some(123));
    assert_eq!(parse_decimal_to_i128("12", 3), Some(12000));
    assert_eq!(parse_decimal_to_i128("-0.05", 2), Some(-5));
    assert_eq!(parse_decimal_to_i128("-0.50", 2), Some(-50));
    assert_eq!(parse_decimal_to_i128("1.5", 0), None);
    assert_eq!(parse_decimal_to_i128("abc", 2), None);
    assert_eq!(parse_decimal_to_i128("1", -1), None);
}

#[test]
fn decimal_fraction_cut_inside_character() {
    assert_eq!(parse_decimal_to_i128("1.\u{e9}", 1), None);
    assert_eq!(parse_decimal_to_i128("1.5", 1), Some(15));
}

#[test]
fn decimal_outside_i128_refused() {
    assert_eq!(parse_decimal_to_i128("170141183460469231731687303715884105727", 1), None);
    assert_eq!(parse_decimal_to_i128("1", 39), None);
    assert_eq!(parse_decimal_to_i128("0.5", 39), None);
    assert_eq!(parse_decimal_to_i128("0", 39), Some(0));
    assert_eq!(parse_decimal_to_i128("-17014118346046923173168730371588410572.8", 1), Some(i128::MIN));
}

#[test]
fn value_to_decimal_text() {
    assert_eq!(format_decimal(12345, 2), "123.45");
    assert_eq!(format_decimal(-12345, 2), "-123.45");
    assert_eq!(format_decimal(5, 2), "0.05");
    assert_eq!(format_decimal(-5, 2), "-0.05");
    assert_eq!(format_decimal(-50, 2), "-0.50");
    assert_eq!(format_decimal(i128::MIN, 40), "-0.0170141183460469231731687303715884105728");
    assert_eq!(format_decimal(100, 0), "100");
    assert_eq!(format_decimal(7, -1), "7");
}

#[test]
fn decimal_roundtrip_from_values() {
    for (v, s) in [(0i128, 2i8), (12345, 2), (-12345, 2), (-100, 2), (99, 0), (-7, 0), (1, 38), (i128::MAX, 10), (-5, 2), (-99, 2), (i128::MIN, 38)] {
        let text = format_decimal(v, s);
        assert_eq!(parse_decimal_to_i128(&text, s), Some(v));
    }
}

#[test]
fn numeric_array_keys() {
    assert_eq!(numeric_key_of("123"), Some(123));
    assert_eq!(numeric_key_of("-7"), Some(-7));
    assert_eq!(numeric_key_of("0"), Some(0));
    assert_eq!(numeric_key_of("0123"), None);
    assert_eq!(numeric_key_of("-0"), None);
    assert_eq!(numeric_key_of("+1"), None);
    assert_eq!(numeric_key_of("9223372036854775808"), None);
    assert_eq!(key_of("42"), PhpKey::Long(42));
    assert_eq!(key_of("name"), PhpKey::Str("name".to_string()));
}

#[test]
fn array_update_replaces_in_place() {
    let mut es: Vec<(PhpKey, PhpValue)> = Vec::new();
    array_insert(&mut es, PhpKey::Str("a".to_string()), PhpValue::Long(1));
    array_insert(&mut es, PhpKey::Long(5), PhpValue::Long(2));
    array_insert(&mut es, PhpKey::Str("a".to_string()), PhpValue::Long(3));
    assert_eq!(es.len(), 2);
    assert_eq!(es[0], (PhpKey::Str("a".to_string()), PhpValue::Long(3)));
    assert_eq!(array_get(&es, "5"), Some(&PhpValue::Long(2)));
    assert_eq!(array_get(&es, "a"), Some(&PhpValue::Long(3)));
    assert_eq!(array_get(&es, "b"), None);
}

#[test]
fn negative_time_roundtrip_from_micros() {
    for t in [-1i64, -99999, -1000000, -3600000001, -45296000042, i64::MIN + 700000] {
        let text = format_time_micros(t);
        assert_eq!(parse_time_to_micros(&text), Some(t));
    }
    assert_eq!(format_time_micros(-123456), "00:00:00.-123456");
    assert_eq!(parse_time_to_micros("00:00:00.-123456"), Some(-12345));
}
