//! What the operating system's random source gives.
use rand_core::{OsRng, RngCore};
use uuid::Uuid;
use vstd::prelude::*;

verus! {

/// `OsRng::next_u32`: some number. It panics only where the operating system has no randomness to
/// give.
#[verifier::external_body]
pub(crate) fn random_u32() -> (number: u32) {
    OsRng.next_u32()
}

/// `OsRng::fill_bytes`: as many bytes as asked for, whichever they are. It panics only where the
/// operating system has no randomness to give.
#[verifier::external_body]
pub(crate) fn random_bytes(len: usize) -> (bytes: Vec<u8>)
    ensures
        bytes@.len() == len,
{
    let mut bytes = vec![0u8; len];
    OsRng.fill_bytes(&mut bytes);
    bytes
}

/// Whether the character is a digit of a lower-case hexadecimal number.
pub open spec fn is_hex_digit(c: char) -> bool {
    '0' <= c <= '9' || 'a' <= c <= 'f'
}

/// The form of a random UUID in text: lower-case hexadecimal digits in groups of eight, four, four,
/// four and twelve, parted by hyphens, with the version digit 4 at the head of the third group.
pub open spec fn is_uuid_text(text: Seq<char>) -> bool {
    &&& text.len() == 36
    &&& text[8] == '-' && text[13] == '-' && text[18] == '-' && text[23] == '-'
    &&& text[14] == '4'
    &&& forall|i: int|
        0 <= i < 36 && i != 8 && i != 13 && i != 18 && i != 23 ==> is_hex_digit(#[trigger] text[i])
}

/// `Uuid::new_v4` and its text by `Uuid::to_string`: some text in the form of a random UUID.
#[verifier::external_body]
pub(crate) fn new_uuid() -> (text: String)
    ensures
        is_uuid_text(text@),
{
    Uuid::new_v4().to_string()
}

/// `Uuid::new_v4` and its bytes by `Uuid::into_bytes`: some bytes, with the version 4 in the upper
/// half of the seventh.
#[verifier::external_body]
pub(crate) fn new_uuid_bytes() -> (bytes: [u8; 16])
    ensures
        bytes@[6] / 16 == 4,
{
    Uuid::new_v4().into_bytes()
}

} // verus!
