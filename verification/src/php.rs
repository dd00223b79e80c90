use vstd::prelude::*;

use crate::temporal::parse_i64_text;
use crate::text::{all_digits, chars_of, is_digit, parse_int};

verus! {

broadcast use vstd::std_specs::vec::group_vec_axioms;

/// A key of a PHP array.
#[derive(Debug, PartialEq)]
pub enum PhpKey {
    Long(i64),
    Str(String),
}

/// A PHP value, as rows are handed to the writer and handed back by the
/// reader.
#[derive(Debug, PartialEq)]
pub enum PhpValue {
    Null,
    Bool(bool),
    Long(i64),
    /// A float, by the bits of its IEEE 754 double.
    Double(u64),
    /// A string that is valid UTF-8.
    Str(String),
    /// An array: its entries in order.
    Array(Vec<(PhpKey, PhpValue)>),
    /// Anything else: objects, resources, and strings that are not UTF-8.
    Other,
}

/// The mathematical value of a `PhpKey`.
pub enum KeyModel {
    Long(i64),
    Str(Seq<char>),
}

/// The mathematical value of a `PhpValue`.
pub enum ValueModel {
    Null,
    Bool(bool),
    Long(i64),
    Double(u64),
    Str(Seq<char>),
    Array(Seq<(KeyModel, ValueModel)>),
    Other,
}

pub open spec fn key_model(k: PhpKey) -> KeyModel {
    match k {
        PhpKey::Long(n) => KeyModel::Long(n),
        PhpKey::Str(s) => KeyModel::Str(s@),
    }
}

pub open spec fn value_model(v: PhpValue) -> ValueModel
    decreases v,
{
    match v {
        PhpValue::Null => ValueModel::Null,
        PhpValue::Bool(b) => ValueModel::Bool(b),
        PhpValue::Long(n) => ValueModel::Long(n),
        PhpValue::Double(bits) => ValueModel::Double(bits),
        PhpValue::Str(s) => ValueModel::Str(s@),
        PhpValue::Array(es) => ValueModel::Array(entries_model(es@)),
        PhpValue::Other => ValueModel::Other,
    }
}

pub open spec fn entry_model(e: (PhpKey, PhpValue)) -> (KeyModel, ValueModel)
    decreases e,
{
    (key_model(e.0), value_model(e.1))
}

pub open spec fn entries_model(es: Seq<(PhpKey, PhpValue)>) -> Seq<(KeyModel, ValueModel)>
    decreases es,
{
    if es.len() == 0 {
        Seq::empty()
    } else {
        entries_model(es.drop_last()).push(entry_model(es.last()))
    }
}

impl View for PhpKey {
    type V = KeyModel;

    open spec fn view(&self) -> KeyModel {
        key_model(*self)
    }
}

impl View for PhpValue {
    type V = ValueModel;

    open spec fn view(&self) -> ValueModel {
        value_model(*self)
    }
}

pub proof fn lemma_entries_model(es: Seq<(PhpKey, PhpValue)>)
    ensures
        entries_model(es).len() == es.len(),
        forall|i: int| 0 <= i < es.len() ==> #[trigger] entries_model(es)[i] == entry_model(es[i]),
    decreases es.len(),
{
    if es.len() > 0 {
        lemma_entries_model(es.drop_last());
    }
}

/// Two lists of entries with equal models element by element have equal
/// models.
pub proof fn lemma_entries_model_ext(a: Seq<(PhpKey, PhpValue)>, b: Seq<(KeyModel, ValueModel)>)
    requires
        a.len() == b.len(),
        forall|i: int| 0 <= i < a.len() ==> #[trigger] entry_model(a[i]) == b[i],
    ensures
        entries_model(a) == b,
{
    lemma_entries_model(a);
    assert(entries_model(a) =~= b);
}

/// The integer a string key stands for in a PHP array: a canonical decimal
/// integer (an optional `-`, then digits without a leading zero, or `0`
/// alone) within the `i64` range.
pub open spec fn numeric_key(s: Seq<char>) -> Option<int> {
    let digits = if s.len() > 0 && s[0] == '-' {
        s.drop_first()
    } else {
        s
    };
    let canonical = if digits.len() == 1 && digits[0] == '0' {
        s.len() == 1
    } else {
        digits.len() >= 1 && digits[0] != '0' && all_digits(digits)
    };
    if canonical {
        parse_i64_text(s)
    } else {
        None
    }
}

/// The key a string names in a PHP array: its integer when it is numeric,
/// the string otherwise.
pub open spec fn key_of_text(s: Seq<char>) -> KeyModel {
    match numeric_key(s) {
        Some(n) => KeyModel::Long(n as i64),
        None => KeyModel::Str(s),
    }
}

/// Position of the entry with key `k`.
pub open spec fn key_index(es: Seq<(KeyModel, ValueModel)>, k: KeyModel) -> Option<int>
    decreases es.len(),
{
    if es.len() == 0 {
        None
    } else if es[0].0 == k {
        Some(0)
    } else {
        match key_index(es.drop_first(), k) {
            Some(j) => Some(j + 1),
            None => None,
        }
    }
}

/// The value stored under key `k`.
pub open spec fn lookup(es: Seq<(KeyModel, ValueModel)>, k: KeyModel) -> Option<ValueModel> {
    match key_index(es, k) {
        Some(j) => Some(es[j].1),
        None => None,
    }
}

/// PHP's update of an array: the value under an existing key is replaced in
/// place, a new key is appended.
pub open spec fn insert(es: Seq<(KeyModel, ValueModel)>, k: KeyModel, v: ValueModel) -> Seq<(KeyModel, ValueModel)> {
    match key_index(es, k) {
        Some(j) => es.update(j, (k, v)),
        None => es.push((k, v)),
    }
}

pub proof fn lemma_key_index(es: Seq<(KeyModel, ValueModel)>, k: KeyModel, j: int)
    requires
        0 <= j <= es.len(),
        forall|i: int| 0 <= i < j ==> es[i].0 != k,
        j < es.len() ==> es[j].0 == k,
    ensures
        key_index(es, k) == (if j == es.len() { None } else { Some(j) }),
    decreases es.len(),
{
    if es.len() > 0 && j > 0 {
        lemma_key_index(es.drop_first(), k, j - 1);
    }
}

/// The integer key a string stands for, `None` for a string key.
pub fn numeric_key_of(s: &str) -> (r: Option<i64>)
    ensures
        match r {
            Some(n) => numeric_key(s@) == Some(n as int),
            None => numeric_key(s@) is None,
        },
{
    let cs = chars_of(s);
    let n = cs.len();
    assert(cs@.subrange(0, n as int) =~= s@);
    let start: usize = if n > 0 && cs[0] == '-' { 1 } else { 0 };
    let ghost digits = if s@.len() > 0 && s@[0] == '-' { s@.drop_first() } else { s@ };
    assert(digits =~= cs@.subrange(start as int, n as int));
    let canonical = if n - start == 1 && cs[start] == '0' {
        n == 1
    } else if n - start >= 1 && cs[start] != '0' {
        let mut all = true;
        let mut i = start;
        while i < n
            invariant
                start <= i <= n,
                n == cs.len(),
                all == (forall|j: int| start <= j < i ==> is_digit(#[trigger] cs@[j])),
            decreases n - i,
        {
            let c = cs[i];
            if !('0' <= c && c <= '9') {
                all = false;
            }
            i = i + 1;
        }
        proof {
            assert(all == all_digits(digits)) by {
                if all {
                    assert forall|j: int| 0 <= j < digits.len() implies is_digit(#[trigger] digits[j]) by {
                        assert(digits[j] == cs@[start + j]);
                    }
                } else {
                    let j = choose|j: int| start <= j < n && !is_digit(#[trigger] cs@[j]);
                    assert(digits[j - start] == cs@[j]);
                }
            }
        }
        all
    } else {
        false
    };
    if canonical {
        match parse_int(&cs, 0, n, true, -0x8000_0000_0000_0000i128, 0x7fff_ffff_ffff_ffffi128) {
            Some(v) => Some(v as i64),
            None => None,
        }
    } else {
        None
    }
}

/// The key `s` names in a PHP array.
pub fn key_of(s: &str) -> (k: PhpKey)
    ensures
        k@ == key_of_text(s@),
{
    match numeric_key_of(s) {
        Some(n) => PhpKey::Long(n),
        None => PhpKey::Str(s.to_owned()),
    }
}

/// Whether two keys are the same key.
pub fn same_key(a: &PhpKey, b: &PhpKey) -> (r: bool)
    ensures
        r == (a@ == b@),
{
    match (a, b) {
        (PhpKey::Long(x), PhpKey::Long(y)) => *x == *y,
        (PhpKey::Str(x), PhpKey::Str(y)) => *x == *y,
        _ => false,
    }
}

/// Position of the entry with key `k`.
pub fn find_key(es: &Vec<(PhpKey, PhpValue)>, k: &PhpKey) -> (r: Option<usize>)
    ensures
        match r {
            Some(j) => key_index(entries_model(es@), k@) == Some(j as int) && j < es.len(),
            None => key_index(entries_model(es@), k@) is None,
        },
{
    proof {
        lemma_entries_model(es@);
    }
    let mut i: usize = 0;
    while i < es.len()
        invariant
            i <= es.len(),
            entries_model(es@).len() == es.len(),
            forall|j: int| 0 <= j < es.len() ==> #[trigger] entries_model(es@)[j] == entry_model(es@[j]),
            forall|j: int| 0 <= j < i ==> entries_model(es@)[j].0 != k@,
        decreases es.len() - i,
    {
        if same_key(&es[i].0, k) {
            proof {
                lemma_key_index(entries_model(es@), k@, i as int);
            }
            return Some(i);
        }
        i = i + 1;
    }
    proof {
        lemma_key_index(entries_model(es@), k@, i as int);
    }
    None
}

/// The value stored under the key the string `name` names.
pub fn array_get<'a>(es: &'a Vec<(PhpKey, PhpValue)>, name: &str) -> (r: Option<&'a PhpValue>)
    ensures
        match lookup(entries_model(es@), key_of_text(name@)) {
            Some(v) => r matches Some(x) && x@ == v,
            None => r is None,
        },
{
    let k = key_of(name);
    proof {
        lemma_entries_model(es@);
    }
    match find_key(es, &k) {
        Some(j) => Some(&es[j].1),
        None => None,
    }
}

/// PHP's update of an array under key `k`.
pub fn array_insert(es: &mut Vec<(PhpKey, PhpValue)>, k: PhpKey, v: PhpValue)
    ensures
        entries_model(final(es)@) == insert(entries_model(old(es)@), k@, v@),
{
    proof {
        lemma_entries_model(es@);
    }
    let ghost before = entries_model(es@);
    let ghost e = entry_model((k, v));
    match find_key(es, &k) {
        Some(j) => {
            es.set(j, (k, v));
            proof {
                lemma_entries_model_ext(es@, before.update(j as int, e));
            }
        },
        None => {
            es.push((k, v));
            proof {
                lemma_entries_model_ext(es@, before.push(e));
            }
        },
    }
}

} // verus!
