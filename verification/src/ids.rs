//! Identifiers of records: UUIDs, held as their 128-bit numbers.

use vstd::prelude::*;

verus! {

/// The identifier of a project, environment, secret, variant or operation.
pub type Id = u128;

/// The lowercase hexadecimal digit with the given value.
pub open spec fn hex_digit(n: u128) -> char {
    if n < 10 {
        (48 + n) as u8 as char
    } else {
        (87 + n) as u8 as char
    }
}

/// The hyphenated lowercase text of an identifier: 32 hexadecimal digits in groups of
/// 8, 4, 4, 4 and 12.
pub open spec fn id_text(id: Id) -> Seq<char> {
    Seq::new(
        36,
        |i: int|
            if i == 8 || i == 13 || i == 18 || i == 23 {
                '-'
            } else {
                let hyphens: int = if i < 8 {
                    0
                } else if i < 13 {
                    1
                } else if i < 18 {
                    2
                } else if i < 23 {
                    3
                } else {
                    4
                };
                hex_digit((id >> ((124 - 4 * (i - hyphens)) as u128)) & 0xf)
            },
    )
}

/// The identifier that `uuid` reads in a text (`Uuid::parse_str`).
pub uninterp spec fn id_of_text(text: Seq<char>) -> Option<Id>;

/// Whether an identifier has the version and variant bits of a random UUID.
pub open spec fn random_form(id: Id) -> bool {
    (id >> 76) & 0xf == 4 && (id >> 62) & 0x3 == 2
}

/// Draws a random identifier with `uuid::Uuid::new_v4`. Any identifier of that form may
/// come out.
#[verifier::external_body]
pub(crate) fn new_id() -> (r: Id)
    ensures
        random_form(r),
{
    uuid::Uuid::new_v4().as_u128()
}

/// Writes an identifier with the `Display` of `uuid::Uuid`, from which `Uuid::parse_str`
/// reads the same identifier back.
#[verifier::external_body]
pub(crate) fn write_id(id: Id) -> (r: String)
    ensures
        r@ == id_text(id),
        id_of_text(r@) == Some(id),
{
    uuid::Uuid::from_u128(id).to_string()
}

/// Reads an identifier with `uuid::Uuid::parse_str`.
#[verifier::external_body]
pub(crate) fn read_id(text: &str) -> (r: Option<Id>)
    ensures
        r == id_of_text(text@),
{
    uuid::Uuid::parse_str(text).map(|id| id.as_u128()).ok()
}

} // verus!
