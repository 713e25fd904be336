//! Identifiers: 128-bit values drawn at random, and their canonical text.

use vstd::prelude::*;

verus! {

/// Lower-case hexadecimal digits, indexed by value.
pub open spec fn hex_alphabet() -> Seq<char> {
    seq!['0', '1', '2', '3', '4', '5', '6', '7', '8', '9', 'a', 'b', 'c', 'd', 'e', 'f']
}

/// The lowest `n` hexadecimal digits of `v`, most significant first.
pub open spec fn hex_digits(v: nat, n: nat) -> Seq<char>
    decreases n,
{
    if n == 0 {
        seq![]
    } else {
        hex_digits(v / 16, (n - 1) as nat).push(hex_alphabet()[(v % 16) as int])
    }
}

/// The hyphenated form of an identifier: 32 lower-case hex digits in
/// groups of 8, 4, 4, 4 and 12.
pub open spec fn id_text_of(v: u128) -> Seq<char> {
    let h = hex_digits(v as nat, 32);
    h.subrange(0, 8) + seq!['-'] + h.subrange(8, 12) + seq!['-'] + h.subrange(12, 16) + seq![
        '-',
    ] + h.subrange(16, 20) + seq!['-'] + h.subrange(20, 32)
}

/// What `uuid::Uuid::parse_str` makes of a text, as the identifier's 128-bit value.
pub uninterp spec fn parsed_id(s: Seq<char>) -> Option<u128>;

/// Relies on uuid's `Uuid::new_v4`: a random version-4 identifier, read back
/// as its big-endian 128-bit value by `Uuid::as_u128`.
#[verifier::external_body]
pub(crate) fn fresh_id() -> (r: u128) {
    uuid::Uuid::new_v4().as_u128()
}

/// Relies on uuid's `Uuid::from_u128` and its `Display`, which writes the
/// hyphenated lower-case form; `Uuid::parse_str` accepts that form and
/// gives back the same identifier.
#[verifier::external_body]
pub(crate) fn id_text(id: u128) -> (r: String)
    ensures
        r@ == id_text_of(id),
        parsed_id(r@) == Some(id),
{
    uuid::Uuid::from_u128(id).to_string()
}

/// Relies on uuid's `Uuid::parse_str`: `None` where the text is not an
/// identifier in one of the forms that it accepts.
#[verifier::external_body]
pub(crate) fn parse_id(s: &str) -> (r: Option<u128>)
    ensures
        r == parsed_id(s@),
{
    uuid::Uuid::parse_str(s).ok().map(|u| u.as_u128())
}

} // verus!
