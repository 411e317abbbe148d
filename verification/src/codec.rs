//! Encodings and digests.
use base64::engine::general_purpose::STANDARD;
use base64::Engine;
use data_encoding::BASE32_NOPAD;
use hmac::{Hmac, Mac};
use sha1::Sha1;
use sha2::{Digest, Sha256};
use vstd::prelude::*;

use crate::text;

verus! {

/// What `Engine::encode` of the standard Base64 engine makes of bytes.
pub uninterp spec fn base64_encoded(bytes: Seq<u8>) -> Seq<char>;

/// What `Engine::decode` of the standard Base64 engine makes of a text: the bytes, or the error in
/// words.
pub uninterp spec fn base64_decoded(text: Seq<char>) -> Result<Seq<u8>, Seq<char>>;

/// What `Encoding::encode` of unpadded Base32 makes of bytes.
pub uninterp spec fn base32_encoded(bytes: Seq<u8>) -> Seq<char>;

/// What `Encoding::decode` of unpadded Base32 makes of the bytes of a text.
pub uninterp spec fn base32_decoded(text: Seq<u8>) -> Option<Seq<u8>>;

/// What `Sha256::digest` makes of bytes.
pub uninterp spec fn sha256_of(bytes: Seq<u8>) -> Seq<u8>;

/// What the `hmac` crate makes of a key and bytes with SHA-1.
pub uninterp spec fn hmac_sha1_of(key: Seq<u8>, bytes: Seq<u8>) -> Seq<u8>;

/// `Engine::encode` of the standard Base64 engine. The text is ASCII, four characters for every
/// three bytes begun, and decodes to the bytes again.
#[verifier::external_body]
pub(crate) fn base64_encode(bytes: &[u8]) -> (text: String)
    ensures
        text@ == base64_encoded(bytes@),
        (base64_decoded(text@) == Ok::<Seq<u8>, Seq<char>>(bytes@)),
        vstd::utf8::is_ascii_chars(text@),
        text@.len() == (bytes@.len() + 2) / 3 * 4,
{
    STANDARD.encode(bytes)
}

/// `Engine::decode` of the standard Base64 engine.
#[verifier::external_body]
pub(crate) fn base64_decode(text: &str) -> (bytes: Result<Vec<u8>, String>)
    ensures
        match bytes {
            Ok(bytes) => base64_decoded(text@) == Ok::<Seq<u8>, Seq<char>>(bytes@),
            Err(words) => base64_decoded(text@) == Err::<Seq<u8>, Seq<char>>(words@),
        },
{
    STANDARD.decode(text).map_err(|error| error.to_string())
}

/// `Encoding::encode` of unpadded Base32, which gives back the bytes when it is decoded. The crate
/// panics on bytes too many to count the text's length.
#[verifier::external_body]
pub(crate) fn base32_encode(bytes: &[u8]) -> (text: String)
    requires
        bytes@.len() <= usize::MAX / 512,
    ensures
        text@ == base32_encoded(bytes@),
        base32_decoded(text::utf8(text@)) == Some(bytes@),
{
    BASE32_NOPAD.encode(bytes)
}

/// `Encoding::decode` of unpadded Base32. The crate panics on a text of more than an eighth of the
/// address space.
#[verifier::external_body]
pub(crate) fn base32_decode(text: &str) -> (bytes: Option<Vec<u8>>)
    requires
        text::utf8(text@).len() <= usize::MAX / 8,
    ensures
        match bytes {
            Some(bytes) => base32_decoded(text::utf8(text@)) == Some(bytes@),
            None => base32_decoded(text::utf8(text@)) is None,
        },
{
    BASE32_NOPAD.decode(text.as_bytes()).ok()
}

/// `Sha256::digest`.
#[verifier::external_body]
pub(crate) fn sha256(bytes: &[u8]) -> (digest: [u8; 32])
    ensures
        digest@ == sha256_of(bytes@),
{
    Sha256::digest(bytes).into()
}

/// `Hmac::<Sha1>`, fed with the bytes at once. A key of any length is accepted.
#[verifier::external_body]
pub(crate) fn hmac_sha1(key: &[u8], bytes: &[u8]) -> (digest: Option<[u8; 20]>)
    ensures
        digest is Some,
        digest->0@ == hmac_sha1_of(key@, bytes@),
{
    let mac = Hmac::<Sha1>::new_from_slice(key).ok()?;
    Some(mac.chain_update(bytes).finalize().into_bytes().into())
}

} // verus!
