use vstd::prelude::*;

verus! {

/// Whether `id` has the version and variant bits of a random (version 4) UUID.
pub open spec fn is_v4(id: u128) -> bool {
    id & 0xF000_C000_0000_0000_0000u128 == 0x4000_8000_0000_0000_0000u128
}

/// Draws a fresh random identifier with `uuid::Uuid::new_v4`, as its 128-bit
/// big-endian value (`Uuid::as_u128`). The value is random; the crate's source
/// fixes only its version and variant bits, which is all this contract claims.
#[verifier::external_body]
pub(crate) fn new_id() -> (id: u128)
    ensures
        is_v4(id),
{
    uuid::Uuid::new_v4().as_u128()
}

/// Lowercase hexadecimal digit for `n < 16`.
pub open spec fn hex_char(n: u128) -> char {
    if n < 10 {
        (n + 48) as char
    } else {
        (n + 87) as char
    }
}

/// The `k`-th hexadecimal digit of `id`, most significant first (`k < 32`).
pub open spec fn nibble(id: u128, k: int) -> u128 {
    (id >> ((4 * (31 - k)) as u128)) & 0xfu128
}

/// Number of hyphens before position `j` of the hyphenated form.
pub open spec fn hyphens_before(j: int) -> int {
    if j <= 8 {
        0
    } else if j <= 13 {
        1
    } else if j <= 18 {
        2
    } else if j <= 23 {
        3
    } else {
        4
    }
}

/// The hyphenated lowercase form of a UUID: 32 hexadecimal digits in groups
/// of 8-4-4-4-12 separated by `'-'`.
pub open spec fn uuid_text(id: u128) -> Seq<char> {
    Seq::new(
        36,
        |j: int|
            if j == 8 || j == 13 || j == 18 || j == 23 {
                '-'
            } else {
                hex_char(nibble(id, j - hyphens_before(j)))
            },
    )
}

/// Formats an identifier as `uuid::Uuid::from_u128(id).to_string()` does: the
/// uuid crate's `Display` writes the hyphenated lowercase form, which the
/// contract states digit by digit.
#[verifier::external_body]
pub(crate) fn id_to_string(id: u128) -> (s: String)
    ensures
        s@ == uuid_text(id),
{
    uuid::Uuid::from_u128(id).to_string()
}

/// The hyphenated lowercase text of an identifier, e.g.
/// `"67e55044-10b1-426f-9247-bb680e5fe0c8"`.
pub fn id_text(id: u128) -> (s: String)
    ensures
        s@ == uuid_text(id),
{
    id_to_string(id)
}

} // verus!
