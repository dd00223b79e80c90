use vstd::prelude::*;

use crate::text::{
    append_chars, byte_prefix, byte_prefix_len, chars_of, chars_to_string, fill_left, fill_left_chars,
    fill_right, fill_right_chars, find_char, int_text, int_to_chars, magnitude, nat_text, nat_to_chars, opt_int,
    parse_int, parse_int_in, split_once,
};

verus! {

pub open spec fn i128_min() -> int {
    -0x8000_0000_0000_0000_0000_0000_0000_0000int
}

pub open spec fn i128_max() -> int {
    0x7fff_ffff_ffff_ffff_ffff_ffff_ffff_ffff
}

/// `10^k`.
pub open spec fn pow10(k: nat) -> int
    decreases k,
{
    if k == 0 {
        1
    } else {
        10 * pow10((k - 1) as nat)
    }
}

/// `str::parse::<i128>()`.
pub open spec fn parse_i128_text(s: Seq<char>) -> Option<int> {
    parse_int_in(s, true, i128_min(), i128_max())
}

/// Unicode `White_Space` (Rust's `char::is_whitespace`).
pub open spec fn is_white_space(c: char) -> bool {
    let u = c as int;
    (0x9 <= u <= 0xd) || u == 0x20 || u == 0x85 || u == 0xa0 || u == 0x1680 || (0x2000 <= u <= 0x200a)
        || u == 0x2028 || u == 0x2029 || u == 0x202f || u == 0x205f || u == 0x3000
}

/// `s` without its leading white space.
pub open spec fn trim_start(s: Seq<char>) -> Seq<char>
    decreases s.len(),
{
    if s.len() > 0 && is_white_space(s[0]) {
        trim_start(s.drop_first())
    } else {
        s
    }
}

/// `s` without its trailing white space.
pub open spec fn trim_end(s: Seq<char>) -> Seq<char>
    decreases s.len(),
{
    if s.len() > 0 && is_white_space(s.last()) {
        trim_end(s.drop_last())
    } else {
        s
    }
}

/// `str::trim`.
pub open spec fn trim(s: Seq<char>) -> Seq<char> {
    trim_end(trim_start(s))
}

/// `Some(x)` where `x` fits in an `i128`, else `None` (checked arithmetic).
pub open spec fn in_i128(x: int) -> Option<int> {
    if i128_min() <= x <= i128_max() {
        Some(x)
    } else {
        None
    }
}

/// Whether a text starts with `-`.
pub open spec fn negative_text(s: Seq<char>) -> bool {
    s.len() > 0 && s[0] == '-'
}

/// Value, scaled by `10^scale`, of a decimal text: white space trimmed, an
/// `i128` integer part, and after a `.` a fraction padded with `'0'` to
/// `scale` characters and cut after its first `scale` bytes, read as an
/// `i128` that is subtracted when the integer part is written with a `-`
/// (`-0.5` is negative too) and added otherwise. A negative scale, a cut
/// inside a character, and a value or an intermediate product outside the
/// `i128` range read nothing.
pub open spec fn decimal_value(s: Seq<char>, scale: int) -> Option<int> {
    let t = trim(s);
    if scale < 0 {
        None
    } else {
        match split_once(t, '.') {
            Some((ip, fp)) => match parse_i128_text(ip) {
                Some(iv) => match byte_prefix_len(fill_right(fp, scale), scale) {
                    Some(n) => match parse_i128_text(fill_right(fp, scale).subrange(0, n)) {
                        Some(fv) => match in_i128(iv * pow10(scale as nat)) {
                            Some(a) => in_i128(if negative_text(ip) { a - fv } else { a + fv }),
                            None => None,
                        },
                        None => None,
                    },
                    None => None,
                },
                None => None,
            },
            None => match parse_i128_text(t) {
                Some(iv) => in_i128(iv * pow10(scale as nat)),
                None => None,
            },
        }
    }
}

/// `10^k` for `k` up to 38 fits in an `i128`; from 39 on it exceeds it.
pub proof fn lemma_pow10_bounds(k: nat)
    ensures
        k <= 38 ==> 1 <= pow10(k) <= 100_000_000_000_000_000_000_000_000_000_000_000_000,
        k >= 39 ==> pow10(k) > i128_max() + 1,
        pow10(k) >= 1,
{
    reveal_with_fuel(pow10, 40);
    if k <= 38 {
        lemma_pow10_mono(k, 38);
    } else {
        lemma_pow10_mono(39, k);
    }
}

pub proof fn lemma_pow10_mono(a: nat, b: nat)
    requires
        a <= b,
    ensures
        1 <= pow10(a) <= pow10(b),
    decreases b,
{
    if b > 0 && a < b {
        lemma_pow10_mono(a, (b - 1) as nat);
    } else if b > 0 {
        lemma_pow10_mono(0, (b - 1) as nat);
    }
}

/// `10_i128.pow(k)` for a power that fits.
fn pow10_i128(k: u32) -> (r: i128)
    requires
        k <= 38,
    ensures
        r as int == pow10(k as nat),
{
    let mut r: i128 = 1;
    let mut i: u32 = 0;
    while i < k
        invariant
            i <= k <= 38,
            r as int == pow10(i as nat),
        decreases k - i,
    {
        proof {
            lemma_pow10_bounds((i + 1) as nat);
        }
        r = r * 10;
        i = i + 1;
    }
    r
}

/// `iv * 10^k`, checked.
fn scale_up(iv: i128, k: u32) -> (r: Option<i128>)
    ensures
        opt_int(r) == in_i128(iv * pow10(k as nat)),
{
    proof {
        lemma_pow10_bounds(k as nat);
    }
    if k > 38 {
        if iv == 0 {
            assert(iv * pow10(k as nat) == 0);
            Some(0)
        } else {
            assert(iv * pow10(k as nat) > i128_max() || iv * pow10(k as nat) < i128_min()) by (nonlinear_arith)
                requires
                    iv != 0,
                    pow10(k as nat) > i128_max(),
                    i128_max() == -i128_min() - 1,
            ;
            None
        }
    } else {
        let p = pow10_i128(k);
        iv.checked_mul(p)
    }
}

/// Whether `c` is Unicode white space.
pub fn char_is_white_space(c: char) -> (b: bool)
    ensures
        b == is_white_space(c),
{
    let u = c as u32;
    (0x9 <= u && u <= 0xd) || u == 0x20 || u == 0x85 || u == 0xa0 || u == 0x1680 || (0x2000 <= u && u
        <= 0x200a) || u == 0x2028 || u == 0x2029 || u == 0x202f || u == 0x205f || u == 0x3000
}

pub proof fn lemma_trim_start(s: Seq<char>, k: int)
    requires
        0 <= k <= s.len(),
        forall|j: int| 0 <= j < k ==> is_white_space(s[j]),
        k < s.len() ==> !is_white_space(s[k]),
    ensures
        trim_start(s) == s.subrange(k, s.len() as int),
    decreases s.len(),
{
    if k > 0 {
        lemma_trim_start(s.drop_first(), k - 1);
        assert(s.drop_first().subrange(k - 1, s.len() - 1) =~= s.subrange(k, s.len() as int));
    } else {
        assert(s.subrange(0, s.len() as int) =~= s);
    }
}

pub proof fn lemma_trim_end(s: Seq<char>, k: int)
    requires
        0 <= k <= s.len(),
        forall|j: int| k <= j < s.len() ==> is_white_space(s[j]),
        k > 0 ==> !is_white_space(s[k - 1]),
    ensures
        trim_end(s) == s.subrange(0, k),
    decreases s.len(),
{
    if k < s.len() {
        lemma_trim_end(s.drop_last(), k);
        assert(s.drop_last().subrange(0, k) =~= s.subrange(0, k));
    } else {
        assert(s.subrange(0, s.len() as int) =~= s);
    }
}

/// The bounds of `str::trim` of `cs`.
fn trim_bounds(cs: &Vec<char>) -> (r: (usize, usize))
    ensures
        r.0 <= r.1 <= cs.len(),
        cs@.subrange(r.0 as int, r.1 as int) == trim(cs@),
{
    let n = cs.len();
    let mut lo: usize = 0;
    while lo < n && char_is_white_space(cs[lo])
        invariant
            lo <= n == cs.len(),
            forall|j: int| 0 <= j < lo ==> is_white_space(cs@[j]),
        decreases n - lo,
    {
        lo = lo + 1;
    }
    proof {
        lemma_trim_start(cs@, lo as int);
    }
    let ghost t = cs@.subrange(lo as int, n as int);
    let mut hi: usize = n;
    while hi > lo && char_is_white_space(cs[hi - 1])
        invariant
            lo <= hi <= n == cs.len(),
            t == cs@.subrange(lo as int, n as int),
            forall|j: int| hi <= j < n ==> is_white_space(cs@[j]),
        decreases hi - lo,
    {
        hi = hi - 1;
    }
    proof {
        lemma_trim_end(t, hi - lo);
        assert(t.subrange(0, hi - lo) =~= cs@.subrange(lo as int, hi as int));
    }
    (lo, hi)
}

/// The unscaled `i128` value of a decimal text for a column of the given
/// scale (`decimal_value`).
pub fn parse_decimal_to_i128(s: &str, scale: i8) -> (r: Option<i128>)
    ensures
        opt_int(r) == decimal_value(s@, scale as int),
{
    let cs = chars_of(s);
    let (lo, hi) = trim_bounds(&cs);
    let ghost t = cs@.subrange(lo as int, hi as int);
    if scale < 0 {
        return None;
    }
    let k = scale as usize;
    match find_char(&cs, lo, hi, '.') {
        Some(d) => {
            assert(t.subrange(0, d - lo) =~= cs@.subrange(lo as int, d as int));
            assert(t.subrange(d - lo + 1, t.len() as int) =~= cs@.subrange(d + 1, hi as int));
            let iv = match parse_int(&cs, lo, d, true, i128::MIN, i128::MAX) {
                Some(v) => v,
                None => return None,
            };
            let negative = d > lo && cs[lo] == '-';
            let padded = fill_right_chars(&cs, d + 1, hi, k);
            assert(padded@.subrange(0, padded@.len() as int) =~= padded@);
            let n = match byte_prefix(&padded, 0, k) {
                Some(n) => n,
                None => return None,
            };
            let fv = match parse_int(&padded, 0, n, true, i128::MIN, i128::MAX) {
                Some(v) => v,
                None => return None,
            };
            let a = match scale_up(iv, scale as u32) {
                Some(a) => a,
                None => return None,
            };
            if negative {
                a.checked_sub(fv)
            } else {
                a.checked_add(fv)
            }
        },
        None => {
            let iv = match parse_int(&cs, lo, hi, true, i128::MIN, i128::MAX) {
                Some(v) => v,
                None => return None,
            };
            scale_up(iv, scale as u32)
        },
    }
}

pub open spec fn abs_int(x: int) -> int {
    if x < 0 {
        -x
    } else {
        x
    }
}

/// Text of an unscaled decimal value: for a positive scale, a `-` for a
/// negative value, the quotient of its magnitude by `10^scale`, a `.`, and
/// the remainder filled with `'0'` on the left to `scale` digits (so `-50`
/// at scale 2 is `-0.50`); otherwise the value itself.
pub open spec fn decimal_text(val: int, scale: int) -> Seq<char> {
    if scale <= 0 {
        int_text(val)
    } else {
        let m = abs_int(val);
        let p = pow10(scale as nat);
        (if val < 0 { seq!['-'] } else { Seq::<char>::empty() }) + nat_text((m / p) as nat) + seq!['.'] + fill_left(
            nat_text((m % p) as nat),
            scale,
        )
    }
}

/// The text of an unscaled `i128` decimal value of the given scale.
pub fn format_decimal(val: i128, scale: i8) -> (s: String)
    ensures
        s@ == decimal_text(val as int, scale as int),
{
    if scale <= 0 {
        let v = int_to_chars(val);
        return chars_to_string(&v);
    }
    let m: u128 = magnitude(val);
    let ghost p = pow10(scale as nat);
    proof {
        lemma_pow10_bounds(scale as nat);
    }
    let (q, r): (u128, u128) = if scale > 38 {
        assert(m as int / p == 0 && m as int % p == m) by {
            vstd::arithmetic::div_mod::lemma_basic_div(m as int, p);
            vstd::arithmetic::div_mod::lemma_small_mod(m as nat, p as nat);
        }
        (0, m)
    } else {
        let d = pow10_i128(scale as u32) as u128;
        (m / d, m % d)
    };
    let mut v: Vec<char> = Vec::new();
    if val < 0 {
        v.push('-');
    }
    let qd = nat_to_chars(q);
    append_chars(&mut v, &qd);
    v.push('.');
    let fd = nat_to_chars(r);
    let filled = fill_left_chars(&fd, scale as usize);
    append_chars(&mut v, &filled);
    assert(v@ =~= decimal_text(val as int, scale as int));
    chars_to_string(&v)
}

} // verus!
