use vstd::prelude::*;

use crate::decimal::pow10;
use crate::roundtrip::lemma_nat_text_len;
use crate::temporal::{
    i64_max, i64_min, minutes_and_seconds, seconds_micros, tdiv, time_micros, time_text, tmod,
};
use crate::text::{
    byte_prefix_len, fill_right, is_digit, lemma_index_of, lemma_nat_text,
    lemma_zero_padded_digits, lemma_zeros_then_digits, nat_text, parse_int_text, split_once, utf8_width, zero_padded,
    zeros,
};

verus! {

/// A text of digits, with a leading `-` where it has one: ASCII, with no
/// character but digits after the first.
pub open spec fn signed_digits(s: Seq<char>) -> bool {
    &&& s.len() >= 1
    &&& forall|j: int| 0 <= j < s.len() ==> is_digit(#[trigger] s[j]) || (j == 0 && s[j] == '-')
}

/// A zero-padded integer is a signed run of digits that reads back as the
/// integer; a negative one takes one character more than its digits.
proof fn lemma_zero_padded_signed(x: int, w: int)
    ensures
        signed_digits(zero_padded(x, w)),
        parse_int_text(zero_padded(x, w), true) == Some(x),
        x < 0 ==> zero_padded(x, w).len() == 1 + (if w - 1 > nat_text((-x) as nat).len() {
            w - 1
        } else {
            nat_text((-x) as nat).len() as int
        }),
{
    if x >= 0 {
        lemma_zero_padded_digits(x, w);
    } else {
        let n = nat_text((-x) as nat);
        lemma_nat_text((-x) as nat);
        let k = w - 1 - n.len();
        lemma_zeros_then_digits(k, n);
        let rest = zeros(k) + n;
        let s = zero_padded(x, w);
        assert(s =~= seq!['-'] + rest);
        assert(s.drop_first() =~= rest);
        assert forall|j: int| 0 <= j < s.len() implies is_digit(#[trigger] s[j]) || (j == 0 && s[j] == '-') by {
            if j > 0 {
                assert(s[j] == rest[j - 1]);
            }
        }
    }
}

/// `a`, a separator, then `b`, split at the first separator gives `a` and
/// `b` back when `a` holds no separator.
proof fn lemma_split_after(a: Seq<char>, c: char, b: Seq<char>)
    requires
        forall|j: int| 0 <= j < a.len() ==> a[j] != c,
    ensures
        split_once(a + seq![c] + b, c) == Some((a, b)),
{
    let s = a + seq![c] + b;
    assert forall|j: int| 0 <= j < a.len() implies s[j] != c by {
        assert(s[j] == a[j]);
    }
    lemma_index_of(s, c, a.len() as int);
    assert(s.subrange(0, a.len() as int) =~= a);
    assert(s.subrange(a.len() as int + 1, s.len() as int) =~= b);
}

/// A signed run of digits holds neither `:` nor `.`.
proof fn lemma_signed_lacks(s: Seq<char>)
    requires
        signed_digits(s),
    ensures
        forall|j: int| 0 <= j < s.len() ==> s[j] != ':' && s[j] != '.',
{
    assert forall|j: int| 0 <= j < s.len() implies s[j] != ':' && s[j] != '.' by {
        assert(is_digit(s[j]) || s[j] == '-');
    }
}

/// A run of ASCII characters is cut at any of its positions without
/// splitting a character.
proof fn lemma_ascii_byte_prefix(s: Seq<char>, k: int)
    requires
        0 <= k <= s.len(),
        forall|j: int| 0 <= j < k ==> utf8_width(#[trigger] s[j]) == 1,
    ensures
        byte_prefix_len(s, k) == Some(k),
    decreases k,
{
    if k > 0 {
        assert(utf8_width(s[0]) == 1);
        assert forall|j: int| 0 <= j < k - 1 implies utf8_width(#[trigger] s.drop_first()[j]) == 1 by {
            assert(s.drop_first()[j] == s[j + 1]);
        }
        lemma_ascii_byte_prefix(s.drop_first(), k - 1);
    }
}

/// Truncating division and remainder of a negative number are those of its
/// opposite, negated.
proof fn lemma_trunc_neg(a: int, b: int)
    requires
        b > 0,
    ensures
        tdiv(-a, b) == -tdiv(a, b),
        tmod(-a, b) == -tmod(a, b),
{
    if a == 0 {
        assert(0int / b == 0) by (nonlinear_arith)
            requires
                b > 0,
        ;
    }
    let q = tdiv(a, b);
    assert(b * tdiv(-a, b) == -(b * q)) by (nonlinear_arith)
        requires
            tdiv(-a, b) == -q,
    ;
}

/// The remainder of a number by 60 is that of its remainder by 3600.
proof fn lemma_tmod_3600_60(a: int)
    ensures
        tmod(tmod(a, 3600), 60) == tmod(a, 60),
        tmod(a, 3600) == 60 * tdiv(tmod(a, 3600), 60) + tmod(tmod(a, 3600), 60),
        a == 3600 * tdiv(a, 3600) + tmod(a, 3600),
{
    let p = if a >= 0 { a } else { -a };
    assert((p % 3600) % 60 == p % 60) by {
        vstd::arithmetic::div_mod::lemma_mod_mod(p, 60, 60);
    }
    if a < 0 {
        lemma_trunc_neg(p, 3600);
        lemma_trunc_neg(p, 60);
        lemma_trunc_neg(tmod(p, 3600), 60);
    }
}

/// The text of a microsecond count read back: writing a count of the `i64`
/// range as `H:i:s.u` (hours, minutes, seconds and microseconds split by
/// truncating division, negative parts with their sign) and reading that
/// text gives the count back; except for
/// a negative count whose microseconds are `-100000` or below, whose
/// fraction is written with seven characters of which six are read.
pub proof fn law_time_text_roundtrip(t: int)
    requires
        i64_min() <= t <= i64_max(),
        tmod(t, 1_000_000) > -100_000,
    ensures
        time_micros(time_text(t)) == Some(t),
{
    let secs = tdiv(t, 1_000_000);
    let frac = tmod(t, 1_000_000);
    let h = tdiv(secs, 3600);
    let m = tdiv(tmod(secs, 3600), 60);
    let sec = tmod(secs, 60);
    lemma_tmod_3600_60(secs);
    let hs = zero_padded(h, 2);
    let ms = zero_padded(m, 2);
    let ss = zero_padded(sec, 2);
    let fs = zero_padded(frac, 6);
    lemma_zero_padded_signed(h, 2);
    lemma_zero_padded_signed(m, 2);
    lemma_zero_padded_signed(sec, 2);
    lemma_zero_padded_signed(frac, 6);
    lemma_signed_lacks(hs);
    lemma_signed_lacks(ms);
    lemma_signed_lacks(ss);
    let text = time_text(t);
    let rest = ms + seq![':'] + (ss + seq!['.'] + fs);
    assert(text =~= hs + seq![':'] + rest);
    lemma_split_after(hs, ':', rest);
    lemma_split_after(ms, ':', ss + seq!['.'] + fs);
    lemma_split_after(ss, '.', fs);
    assert(minutes_and_seconds(rest) == (ms, ss + seq!['.'] + fs));
    assert(-1_000_000 < frac < 1_000_000) by {
        if t < 0 {
            lemma_trunc_neg(-t, 1_000_000);
        }
    }
    assert(fs.len() == 6) by {
        if frac >= 0 {
            lemma_nat_text_len6(frac);
        } else {
            lemma_nat_text_len5(-frac);
        }
    }
    assert(fill_right(fs, 6) =~= fs);
    assert forall|j: int| 0 <= j < 6 implies utf8_width(#[trigger] fs[j]) == 1 by {
        assert(is_digit(fs[j]) || fs[j] == '-');
    }
    lemma_ascii_byte_prefix(fs, 6);
    assert(fs.subrange(0, 6) =~= fs);
    assert(seconds_micros(ss + seq!['.'] + fs) == Some((sec, frac)));
    assert(h * 3_600_000_000 + m * 60_000_000 + sec * 1_000_000 + frac == t) by (nonlinear_arith)
        requires
            t == 1_000_000 * secs + frac,
            secs == 3600 * h + tmod(secs, 3600),
            tmod(secs, 3600) == 60 * m + sec,
    ;
}

/// A natural number below `10^6` has at most six digits.
proof fn lemma_nat_text_len6(n: int)
    requires
        0 <= n < 1_000_000,
    ensures
        zero_padded(n, 6).len() == 6,
{
    assert(pow10(6) == 1_000_000) by {
        reveal_with_fuel(pow10, 7);
    }
    lemma_nat_text_len(n as nat, 6);
}

/// A positive number below `10^5` has at most five digits.
proof fn lemma_nat_text_len5(n: int)
    requires
        0 < n < 100_000,
    ensures
        zero_padded(-n, 6).len() == 6,
{
    assert(pow10(5) == 100_000) by {
        reveal_with_fuel(pow10, 6);
    }
    lemma_nat_text_len(n as nat, 5);
    lemma_zero_padded_signed(-n, 6);
}

} // verus!
