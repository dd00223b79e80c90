use vstd::prelude::*;

verus! {

/// An ASCII decimal digit.
pub open spec fn is_digit(c: char) -> bool {
    48 <= (c as int) && (c as int) <= 57
}

/// The value of an ASCII decimal digit.
pub open spec fn digit_val(c: char) -> int {
    (c as int) - 48
}

/// The ASCII digit for a value in 0..10.
pub open spec fn digit_char(d: int) -> char {
    (d + 48) as char
}

pub open spec fn all_digits(s: Seq<char>) -> bool {
    forall|i: int| 0 <= i < s.len() ==> is_digit(#[trigger] s[i])
}

/// The number written by a run of decimal digits (most significant first).
pub open spec fn digits_value(s: Seq<char>) -> int
    decreases s.len(),
{
    if s.len() == 0 {
        0
    } else {
        digits_value(s.drop_last()) * 10 + digit_val(s.last())
    }
}

/// What `str::parse` for a primitive integer type reads, before the range
/// check: an optional sign (`-` only for signed types) followed by at least
/// one ASCII digit and nothing else.
pub open spec fn parse_int_text(s: Seq<char>, signed: bool) -> Option<int> {
    if s.len() == 0 {
        None
    } else if (s[0] == '+' || s[0] == '-') && s.len() == 1 {
        None
    } else if s[0] == '+' {
        if all_digits(s.drop_first()) {
            Some(digits_value(s.drop_first()))
        } else {
            None
        }
    } else if s[0] == '-' && signed {
        if all_digits(s.drop_first()) {
            Some(-digits_value(s.drop_first()))
        } else {
            None
        }
    } else if all_digits(s) {
        Some(digits_value(s))
    } else {
        None
    }
}

/// `str::parse` for an integer type whose values are `lo..=hi`.
pub open spec fn parse_int_in(s: Seq<char>, signed: bool, lo: int, hi: int) -> Option<int> {
    match parse_int_text(s, signed) {
        Some(v) => if lo <= v && v <= hi {
            Some(v)
        } else {
            None
        },
        None => None,
    }
}

/// Decimal text of a natural number, without leading zeros.
pub open spec fn nat_text(n: nat) -> Seq<char>
    decreases n,
{
    if n < 10 {
        seq![digit_char(n as int)]
    } else {
        nat_text(n / 10) + seq![digit_char((n % 10) as int)]
    }
}

/// Decimal text of an integer, as Rust's `Display` writes it.
pub open spec fn int_text(x: int) -> Seq<char> {
    if x < 0 {
        seq!['-'] + nat_text((-x) as nat)
    } else {
        nat_text(x as nat)
    }
}

/// `k` copies of `'0'` (none when `k <= 0`).
pub open spec fn zeros(k: int) -> Seq<char> {
    Seq::new(if k > 0 { k as nat } else { 0 }, |i: int| '0')
}

/// Rust's `{:0w}` for an integer: sign first, then zeros up to width `w`.
pub open spec fn zero_padded(x: int, w: int) -> Seq<char> {
    if x < 0 {
        seq!['-'] + zeros(w - 1 - nat_text((-x) as nat).len()) + nat_text((-x) as nat)
    } else {
        zeros(w - nat_text(x as nat).len()) + nat_text(x as nat)
    }
}

/// Rust's `{:0>w}`: fill with `'0'` on the left up to `w` characters.
pub open spec fn fill_left(s: Seq<char>, w: int) -> Seq<char> {
    zeros(w - s.len()) + s
}

/// Rust's `{:0<w}`: fill with `'0'` on the right up to `w` characters.
pub open spec fn fill_right(s: Seq<char>, w: int) -> Seq<char> {
    s + zeros(w - s.len())
}

/// Appends one character (`String::push`).
#[verifier::external_body]
pub(crate) fn push_char(s: &mut String, c: char)
    ensures
        final(s)@ == old(s)@.push(c),
{
    s.push(c);
}

/// The characters of a string slice.
pub fn chars_of(s: &str) -> (v: Vec<char>)
    ensures
        v@ == s@,
{
    let mut v: Vec<char> = Vec::new();
    for c in it: s.chars()
        invariant
            v@ == it.seq().take(it.index() as int),
    {
        v.push(c);
    }
    v
}


/// The ASCII digit for `d`.
pub fn digit_to_char(d: u32) -> (c: char)
    requires
        d < 10,
    ensures
        c == digit_char(d as int),
        is_digit(c),
        digit_val(c) == d,
{
    let b: u8 = (48 + d) as u8;
    b as char
}

/// Whether `c` is an ASCII digit, and its value.
pub fn char_digit(c: char) -> (r: Option<u32>)
    ensures
        r is Some <==> is_digit(c),
        r matches Some(d) ==> d as int == digit_val(c) && d < 10,
{
    let u = c as u32;
    if 48 <= u && u <= 57 {
        Some(u - 48)
    } else {
        None
    }
}


/// `nat_text(m)`, or nothing for zero; the digits still to be written.
pub open spec fn digits_left(m: nat) -> Seq<char> {
    if m == 0 {
        Seq::empty()
    } else {
        nat_text(m)
    }
}

proof fn lemma_digits_left_step(m: nat)
    requires
        m > 0,
    ensures
        digits_left(m) == digits_left(m / 10) + seq![digit_char((m % 10) as int)],
{
    if m < 10 {
        assert(m / 10 == 0);
        assert(m % 10 == m);
        assert(digits_left(m / 10) + seq![digit_char((m % 10) as int)] =~= seq![digit_char(m as int)]);
    }
}

/// The decimal digits of `n`.
pub fn nat_to_chars(n: u128) -> (v: Vec<char>)
    ensures
        v@ == nat_text(n as nat),
{
    let mut rev: Vec<char> = Vec::new();
    if n == 0 {
        rev.push('0');
        assert(rev@ =~= nat_text(0));
        return rev;
    }
    let mut m: u128 = n;
    while m > 0
        invariant
            nat_text(n as nat) == digits_left(m as nat) + rev@.reverse(),
        decreases m,
    {
        let d = (m % 10) as u32;
        let c = digit_to_char(d);
        proof {
            lemma_digits_left_step(m as nat);
            assert(rev@.push(c).reverse() =~= seq![c] + rev@.reverse());
        }
        rev.push(c);
        m = m / 10;
    }
    assert(digits_left(0) + rev@.reverse() =~= rev@.reverse());
    let mut out: Vec<char> = Vec::new();
    let len = rev.len();
    let mut i: usize = 0;
    while i < len
        invariant
            len == rev.len(),
            i <= len,
            out@ =~= rev@.reverse().subrange(0, i as int),
        decreases len - i,
    {
        out.push(rev[len - 1 - i]);
        i = i + 1;
    }
    assert(out@ =~= rev@.reverse());
    out
}

/// The magnitude of an `i128`, as a `u128`.
pub fn magnitude(x: i128) -> (m: u128)
    ensures
        m as int == if x < 0 { -x } else { x as int },
{
    if x < 0 {
        ((-(x + 1)) as u128) + 1
    } else {
        x as u128
    }
}

/// The decimal text of `x` (`x.to_string()`).
pub fn int_to_chars(x: i128) -> (v: Vec<char>)
    ensures
        v@ == int_text(x as int),
{
    let mag = magnitude(x);
    let digits = nat_to_chars(mag);
    if x < 0 {
        let mut v: Vec<char> = Vec::new();
        v.push('-');
        append_chars(&mut v, &digits);
        assert(v@ =~= int_text(x as int));
        v
    } else {
        digits
    }
}

/// Appends the characters of `b` to `a`.
pub fn append_chars(a: &mut Vec<char>, b: &Vec<char>)
    ensures
        final(a)@ == old(a)@ + b@,
{
    let ghost a0 = a@;
    let mut i: usize = 0;
    while i < b.len()
        invariant
            i <= b.len(),
            a@ =~= a0 + b@.subrange(0, i as int),
        decreases b.len() - i,
    {
        a.push(b[i]);
        i = i + 1;
    }
    assert(a@ =~= a0 + b@);
}

/// A `String` holding the characters of `v`.
pub fn chars_to_string(v: &Vec<char>) -> (s: String)
    ensures
        s@ == v@,
{
    let mut s = String::new();
    let mut i: usize = 0;
    while i < v.len()
        invariant
            i <= v.len(),
            s@ =~= v@.subrange(0, i as int),
        decreases v.len() - i,
    {
        push_char(&mut s, v[i]);
        i = i + 1;
    }
    assert(s@ =~= v@);
    s
}

proof fn lemma_digits_value_nonneg(s: Seq<char>)
    requires
        all_digits(s),
    ensures
        digits_value(s) >= 0,
    decreases s.len(),
{
    if s.len() > 0 {
        assert(all_digits(s.drop_last()));
        lemma_digits_value_nonneg(s.drop_last());
        assert(is_digit(s[s.len() - 1]));
    }
}

proof fn lemma_digits_value_prefix(s: Seq<char>, j: int)
    requires
        all_digits(s),
        0 <= j <= s.len(),
    ensures
        digits_value(s.subrange(0, j)) <= digits_value(s),
    decreases s.len(),
{
    if j < s.len() {
        assert(all_digits(s.drop_last()));
        lemma_digits_value_prefix(s.drop_last(), j);
        assert(s.drop_last().subrange(0, j) =~= s.subrange(0, j));
        lemma_digits_value_nonneg(s.drop_last());
        assert(is_digit(s[s.len() - 1]));
    } else {
        assert(s.subrange(0, j) =~= s);
    }
}

/// `Some(v as int)` for `Some(v)`.
pub open spec fn opt_int(r: Option<i128>) -> Option<int> {
    match r {
        Some(v) => Some(v as int),
        None => None,
    }
}

/// Parses `cs[lo..hi]` as `str::parse` does for an integer type whose values
/// are `min..=max` (signed when `signed`).
pub fn parse_int(cs: &Vec<char>, lo: usize, hi: usize, signed: bool, min: i128, max: i128) -> (r: Option<i128>)
    requires
        lo <= hi <= cs.len(),
        min <= 0,
        max >= 9,
        signed ==> min <= -9,
    ensures
        opt_int(r) == parse_int_in(cs@.subrange(lo as int, hi as int), signed, min as int, max as int),
{
    let ghost s = cs@.subrange(lo as int, hi as int);
    if lo == hi {
        return None;
    }
    let first = cs[lo];
    if (first == '+' || first == '-') && hi - lo == 1 {
        return None;
    }
    let neg = first == '-' && signed;
    let start = if first == '+' || neg { lo + 1 } else { lo };
    let ghost body = cs@.subrange(start as int, hi as int);
    proof {
        if start == lo + 1 {
            assert(body =~= s.drop_first());
        } else {
            assert(body =~= s);
        }
    }
    assert(s[0] == first);
    assert(parse_int_text(s, signed) == (if all_digits(body) {
        Some(if neg { -digits_value(body) } else { digits_value(body) })
    } else {
        None::<int>
    }));
    let bound: u128 = if neg { magnitude(min) } else { max as u128 };
    assert(bound as int == if neg { -min } else { max as int });
    let mut acc: u128 = 0;
    let mut i: usize = start;
    assert(cs@.subrange(start as int, start as int) =~= Seq::<char>::empty());
    while i < hi
        invariant
            lo <= start <= i <= hi <= cs.len(),
            body == cs@.subrange(start as int, hi as int),
            acc as int == digits_value(cs@.subrange(start as int, i as int)),
            all_digits(cs@.subrange(start as int, i as int)),
            acc <= bound,
            bound >= 9,
            bound as int == if neg { -min } else { max as int },
            s == cs@.subrange(lo as int, hi as int),
            parse_int_text(s, signed) == (if all_digits(body) {
                Some(if neg { -digits_value(body) } else { digits_value(body) })
            } else {
                None::<int>
            }),
        decreases hi - i,
    {
        let ghost pre = cs@.subrange(start as int, i as int);
        let ghost next = cs@.subrange(start as int, i + 1);
        assert(next.drop_last() =~= pre);
        assert(body[i - start] == cs@[i as int]);
        match char_digit(cs[i]) {
            None => {
                assert(!all_digits(body));
                return None;
            },
            Some(d) => {
                let dd = d as u128;
                if acc > (bound - dd) / 10 {
                    assert(acc * 10 + dd > bound) by (nonlinear_arith)
                        requires
                            acc > (bound - dd) / 10,
                            dd <= bound,
                    ;
                    assert(digits_value(next) == acc * 10 + dd);
                    proof {
                        if all_digits(body) {
                            assert(body.subrange(0, i + 1 - start) =~= next);
                            lemma_digits_value_prefix(body, i + 1 - start);
                        }
                    }
                    return None;
                }
                assert(acc * 10 + dd <= bound) by (nonlinear_arith)
                    requires
                        acc <= (bound - dd) / 10,
                        dd <= bound,
                ;
                acc = acc * 10 + dd;
                assert(all_digits(next));
            },
        }
        i = i + 1;
    }
    assert(cs@.subrange(start as int, i as int) =~= body);
    if neg {
        let v: i128 = if acc == 0 { 0 } else { -((acc - 1) as i128) - 1 };
        Some(v)
    } else {
        Some(acc as i128)
    }
}


/// Position of the first `c` in `s`.
pub open spec fn index_of(s: Seq<char>, c: char) -> Option<int>
    decreases s.len(),
{
    if s.len() == 0 {
        None
    } else if s[0] == c {
        Some(0)
    } else {
        match index_of(s.drop_first(), c) {
            Some(k) => Some(k + 1),
            None => None,
        }
    }
}

/// `str::split_once(c)`: the text before and after the first `c`.
pub open spec fn split_once(s: Seq<char>, c: char) -> Option<(Seq<char>, Seq<char>)> {
    match index_of(s, c) {
        Some(k) => Some((s.subrange(0, k), s.subrange(k + 1, s.len() as int))),
        None => None,
    }
}

pub proof fn lemma_index_of(s: Seq<char>, c: char, k: int)
    requires
        0 <= k <= s.len(),
        forall|j: int| 0 <= j < k ==> s[j] != c,
        k < s.len() ==> s[k] == c,
    ensures
        index_of(s, c) == (if k == s.len() { None } else { Some(k) }),
    decreases s.len(),
{
    if s.len() > 0 && k > 0 {
        lemma_index_of(s.drop_first(), c, k - 1);
    }
}

/// The first `c` in `cs[lo..hi]`, as a position in `cs`.
pub fn find_char(cs: &Vec<char>, lo: usize, hi: usize, c: char) -> (r: Option<usize>)
    requires
        lo <= hi <= cs.len(),
    ensures
        match r {
            Some(k) => index_of(cs@.subrange(lo as int, hi as int), c) == Some(k - lo) && lo <= k < hi,
            None => index_of(cs@.subrange(lo as int, hi as int), c) is None,
        },
{
    let ghost sub = cs@.subrange(lo as int, hi as int);
    let mut i: usize = lo;
    while i < hi
        invariant
            lo <= i <= hi <= cs.len(),
            sub == cs@.subrange(lo as int, hi as int),
            forall|j: int| 0 <= j < i - lo ==> sub[j] != c,
        decreases hi - i,
    {
        if cs[i] == c {
            proof {
                lemma_index_of(sub, c, i - lo);
            }
            return Some(i);
        }
        i = i + 1;
    }
    proof {
        lemma_index_of(sub, c, hi - lo);
    }
    None
}

/// Number of bytes in the UTF-8 encoding of `c`.
pub open spec fn utf8_width(c: char) -> int {
    if (c as int) <= 0x7f {
        1
    } else if (c as int) <= 0x7ff {
        2
    } else if (c as int) <= 0xffff {
        3
    } else {
        4
    }
}

/// How many leading characters of `s` make up exactly its first `k` bytes;
/// `None` when byte `k` falls inside a character (slicing `[..k]` panics).
pub open spec fn byte_prefix_len(s: Seq<char>, k: int) -> Option<int>
    decreases s.len(),
{
    if k == 0 {
        Some(0)
    } else if s.len() == 0 || k < 0 {
        None
    } else if utf8_width(s[0]) > k {
        None
    } else {
        match byte_prefix_len(s.drop_first(), k - utf8_width(s[0])) {
            Some(n) => Some(n + 1),
            None => None,
        }
    }
}

/// The UTF-8 width of `c`.
pub fn char_width(c: char) -> (w: usize)
    ensures
        w as int == utf8_width(c),
{
    let u = c as u32;
    if u <= 0x7f {
        1
    } else if u <= 0x7ff {
        2
    } else if u <= 0xffff {
        3
    } else {
        4
    }
}

/// How many leading characters of `cs[lo..]` make up its first `k` bytes.
pub fn byte_prefix(cs: &Vec<char>, lo: usize, k: usize) -> (r: Option<usize>)
    requires
        lo <= cs.len(),
    ensures
        match r {
            Some(n) => byte_prefix_len(cs@.subrange(lo as int, cs.len() as int), k as int) == Some(n as int)
                && lo + n <= cs.len(),
            None => byte_prefix_len(cs@.subrange(lo as int, cs.len() as int), k as int) is None,
        },
{
    let mut i: usize = lo;
    let mut left: usize = k;
    while i < cs.len() && left > 0
        invariant
            lo <= i <= cs.len(),
            left <= k,
            byte_prefix_len(cs@.subrange(lo as int, cs.len() as int), k as int) == match byte_prefix_len(
                cs@.subrange(i as int, cs.len() as int),
                left as int,
            ) {
                Some(n) => Some(n + (i - lo)),
                None => None,
            },
        decreases cs.len() - i,
    {
        let w = char_width(cs[i]);
        let ghost rest = cs@.subrange(i as int, cs.len() as int);
        assert(rest[0] == cs@[i as int]);
        assert(rest.drop_first() =~= cs@.subrange(i + 1, cs.len() as int));
        if w > left {
            return None;
        }
        left = left - w;
        i = i + 1;
    }
    if left > 0 {
        assert(cs@.subrange(i as int, cs.len() as int).len() == 0);
        None
    } else {
        Some(i - lo)
    }
}


/// Appends `k` copies of `'0'`.
pub fn push_zeros(v: &mut Vec<char>, k: usize)
    ensures
        final(v)@ == old(v)@ + zeros(k as int),
{
    let ghost v0 = v@;
    let mut i: usize = 0;
    while i < k
        invariant
            i <= k,
            v@ =~= v0 + zeros(i as int),
        decreases k - i,
    {
        v.push('0');
        i = i + 1;
    }
}

/// `zero_padded(x, w)`: Rust's `{:0w}` of an integer.
pub fn zero_padded_chars(x: i128, w: usize) -> (v: Vec<char>)
    ensures
        v@ == zero_padded(x as int, w as int),
{
    let digits = nat_to_chars(magnitude(x));
    let mut v: Vec<char> = Vec::new();
    if x < 0 {
        v.push('-');
        if w > 0 && digits.len() < w - 1 {
            push_zeros(&mut v, w - 1 - digits.len());
        }
    } else {
        if digits.len() < w {
            push_zeros(&mut v, w - digits.len());
        }
    }
    append_chars(&mut v, &digits);
    assert(v@ =~= zero_padded(x as int, w as int));
    v
}

/// The characters of `cs[lo..hi]` followed by `'0'`s up to `w` characters
/// (Rust's `{:0<w}` of that text).
pub fn fill_right_chars(cs: &Vec<char>, lo: usize, hi: usize, w: usize) -> (v: Vec<char>)
    requires
        lo <= hi <= cs.len(),
    ensures
        v@ == fill_right(cs@.subrange(lo as int, hi as int), w as int),
{
    let mut v: Vec<char> = Vec::new();
    let mut i: usize = lo;
    while i < hi
        invariant
            lo <= i <= hi <= cs.len(),
            v@ =~= cs@.subrange(lo as int, i as int),
        decreases hi - i,
    {
        v.push(cs[i]);
        i = i + 1;
    }
    if hi - lo < w {
        push_zeros(&mut v, w - (hi - lo));
    }
    assert(v@ =~= fill_right(cs@.subrange(lo as int, hi as int), w as int));
    v
}

/// `zeros(k)` then the characters of `cs` (Rust's `{:0>w}` when `k = w - len`).
pub fn fill_left_chars(cs: &Vec<char>, w: usize) -> (v: Vec<char>)
    ensures
        v@ == fill_left(cs@, w as int),
{
    let mut v: Vec<char> = Vec::new();
    if cs.len() < w {
        push_zeros(&mut v, w - cs.len());
    }
    append_chars(&mut v, cs);
    assert(v@ =~= fill_left(cs@, w as int));
    v
}

} // verus!

verus! {

proof fn lemma_zeros_value(k: int)
    ensures
        all_digits(zeros(k)),
        digits_value(zeros(k)) == 0,
    decreases if k > 0 { k } else { 0 },
{
    if k > 0 {
        lemma_zeros_value(k - 1);
        assert(zeros(k).drop_last() =~= zeros(k - 1));
    } else {
        assert(zeros(k).len() == 0);
    }
}

/// Leading zeros change neither that a text is all digits nor its value.
pub proof fn lemma_zeros_then_digits(k: int, s: Seq<char>)
    requires
        all_digits(s),
    ensures
        all_digits(zeros(k) + s),
        digits_value(zeros(k) + s) == digits_value(s),
    decreases s.len(),
{
    let t = zeros(k) + s;
    lemma_zeros_value(k);
    assert forall|i: int| 0 <= i < t.len() implies is_digit(#[trigger] t[i]) by {
        if i < zeros(k).len() {
            assert(t[i] == zeros(k)[i]);
        } else {
            assert(t[i] == s[i - zeros(k).len()]);
        }
    }
    if s.len() == 0 {
        assert(t =~= zeros(k));
    } else {
        assert(all_digits(s.drop_last()));
        lemma_zeros_then_digits(k, s.drop_last());
        assert(t.drop_last() =~= zeros(k) + s.drop_last());
        assert(t.last() == s.last());
    }
}

/// The decimal text of a natural number is a nonempty run of digits that
/// reads back as the number.
pub proof fn lemma_nat_text(n: nat)
    ensures
        all_digits(nat_text(n)),
        digits_value(nat_text(n)) == n,
        1 <= nat_text(n).len(),
    decreases n,
{
    let s = nat_text(n);
    if n < 10 {
        assert(s =~= seq![digit_char(n as int)]);
        assert(s.drop_last() =~= Seq::<char>::empty());
        assert(digits_value(s.drop_last()) == 0);
        assert(digit_val(digit_char(n as int)) == n);
        assert(digits_value(s) == digits_value(s.drop_last()) * 10 + digit_val(s.last()));
    } else {
        lemma_nat_text(n / 10);
        assert(s.drop_last() =~= nat_text(n / 10));
        let d = (n % 10) as int;
        assert(s.last() == digit_char(d));
        assert(digit_val(digit_char(d)) == d);
        assert forall|i: int| 0 <= i < s.len() implies is_digit(#[trigger] s[i]) by {
            if i < s.len() - 1 {
                assert(s[i] == nat_text(n / 10)[i]);
            }
        }
        assert(n == (n / 10) * 10 + n % 10);
        assert(digits_value(s) == digits_value(s.drop_last()) * 10 + digit_val(s.last()));
    }
}

/// A zero-padded natural number is a nonempty run of digits that reads back
/// as the number.
pub proof fn lemma_zero_padded_digits(x: int, w: int)
    requires
        x >= 0,
    ensures
        all_digits(zero_padded(x, w)),
        digits_value(zero_padded(x, w)) == x,
        1 <= zero_padded(x, w).len(),
        parse_int_text(zero_padded(x, w), true) == Some(x),
        parse_int_text(zero_padded(x, w), false) == Some(x),
{
    lemma_nat_text(x as nat);
    lemma_zeros_then_digits(w - nat_text(x as nat).len(), nat_text(x as nat));
    let s = zero_padded(x, w);
    assert(is_digit(s[0]));
}

/// A run of digits holds no character that is not a digit.
pub proof fn lemma_digits_lack(s: Seq<char>, c: char)
    requires
        all_digits(s),
        !is_digit(c),
    ensures
        index_of(s, c) is None,
{
    assert forall|j: int| 0 <= j < s.len() implies s[j] != c by {
        assert(is_digit(s[j]));
    }
    lemma_index_of(s, c, s.len() as int);
}

} // verus!
