use vstd::prelude::*;

verus! {

/// The 16 bytes of a UUID text that the `uuid` crate's `Uuid::parse_str`
/// accepts (simple, hyphenated, URN or braced form), `None` when it refuses
/// the text.
pub uninterp spec fn uuid_parse(s: Seq<char>) -> Option<[u8; 16]>;

/// Lower-case hexadecimal digit of a value in 0..16.
pub open spec fn hex_lower(n: int) -> char {
    if n < 10 {
        (n + 48) as char
    } else {
        (n + 87) as char
    }
}

/// The two lower-case hexadecimal digits of bytes `lo..hi` of `b`.
pub open spec fn hex_run(b: Seq<u8>, lo: int, hi: int) -> Seq<char>
    decreases hi - lo,
{
    if hi <= lo {
        Seq::empty()
    } else {
        hex_run(b, lo, hi - 1) + seq![hex_lower(b[hi - 1] as int / 16), hex_lower(b[hi - 1] as int % 16)]
    }
}

/// The hyphenated lower-case form of a UUID,
/// `xxxxxxxx-xxxx-xxxx-xxxx-xxxxxxxxxxxx`.
pub open spec fn uuid_hyphenated(b: Seq<u8>) -> Seq<char> {
    hex_run(b, 0, 4) + seq!['-'] + hex_run(b, 4, 6) + seq!['-'] + hex_run(b, 6, 8) + seq!['-'] + hex_run(b, 8, 10)
        + seq!['-'] + hex_run(b, 10, 16)
}

/// Calls `uuid::Uuid::parse_str` and, on success, `Uuid::into_bytes`. The
/// accepted forms are named, not restated.
#[verifier::external_body]
pub(crate) fn parse_uuid(s: &str) -> (r: Option<[u8; 16]>)
    ensures
        r == uuid_parse(s@),
{
    uuid::Uuid::parse_str(s).ok().map(|u| u.into_bytes())
}

/// Calls `uuid::Uuid::from_bytes` and `to_string`. The contract claims what
/// the crate documents: `Display` writes the hyphenated lower-case form, and
/// `parse_str` accepts every form the crate writes.
#[verifier::external_body]
pub(crate) fn format_uuid(b: [u8; 16]) -> (s: String)
    ensures
        s@ == uuid_hyphenated(b@),
        uuid_parse(s@) == Some(b),
{
    uuid::Uuid::from_bytes(b).to_string()
}

} // verus!
