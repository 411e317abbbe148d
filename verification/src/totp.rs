//! One-time codes that follow from a shared secret and the time.
use vstd::prelude::*;

use crate::bytes;
use crate::codec;
use crate::random;
use crate::text;

verus! {

/// How long one code is good, in seconds.
pub const TOTP_PERIOD_SECS: i64 = 30;

/// How many random bytes a new secret is made of.
pub const MFA_SECRET_LEN: usize = 20;

/// The longest secret that the machine can decode, in bytes.
pub open spec fn decodable(secret: Seq<char>) -> bool {
    text::utf8(secret).len() <= usize::MAX / 8
}

/// The number in a digest that a code is made of: the four bytes from the place that the digest's
/// last half byte names, without the highest bit, and of that the last six decimal digits.
pub open spec fn code_number(digest: Seq<u8>) -> nat {
    let place = (digest[19] % 16) as int;
    bytes::be32_value(digest.subrange(place, place + 4)) % 0x8000_0000 % 1_000_000
}

/// The code of a digest.
pub fn code_of(digest: &[u8; 20]) -> (code: u32)
    ensures
        code == code_number(digest@),
        code < 1_000_000,
{
    let last = digest[19];
    assert(last & 0x0f == last % 16) by (bit_vector);
    let place = (last & 0x0f) as usize;
    let value = bytes::be32_at(digest.as_slice(), place);
    assert(value & 0x7fff_ffff == value % 0x8000_0000) by (bit_vector);
    (value & 0x7fff_ffff) % 1_000_000
}

/// The code of a secret, given in Base32, for a count of periods.
pub open spec fn totp_code(secret: Seq<char>, counter: u64) -> Option<Seq<char>> {
    if !decodable(secret) {
        None
    } else {
        match codec::base32_decoded(text::utf8(secret)) {
            Some(key) => Some(
                text::six_digits(
                    code_number(codec::hmac_sha1_of(key, bytes::be64_bytes(counter))),
                ),
            ),
            None => None,
        }
    }
}

/// The code of a secret, given in Base32, for a count of periods; none where the secret is not
/// Base32, or longer than the machine can decode.
pub fn totp(secret: &str, counter: u64) -> (code: Option<String>)
    ensures
        text::optional(code) == totp_code(secret@, counter),
{
    if secret.as_bytes().len() > usize::MAX / 8 {
        return None;
    }
    let key = match codec::base32_decode(secret) {
        Some(key) => key,
        None => return None,
    };
    let mut message: Vec<u8> = Vec::new();
    bytes::push_be64(&mut message, counter);
    assert(message@ =~= bytes::be64_bytes(counter));
    match codec::hmac_sha1(key.as_slice(), message.as_slice()) {
        Some(digest) => Some(text::six_digit_text(code_of(&digest))),
        None => None,
    }
}

/// Whether the text has the form of a code: six digits.
pub open spec fn is_code(code: Seq<char>) -> bool {
    code.len() == 6 && forall|i: int| 0 <= i < 6 ==> text::is_digit(#[trigger] code[i])
}

/// Whether the code is that of the secret at that time, or of the period before or after.
pub open spec fn totp_accepts(secret: Seq<char>, code: Seq<char>, now_ms: i64) -> bool {
    let code = text::trim(code);
    let current = now_ms as int / 1000 / 30;
    &&& is_code(code)
    &&& {
        ||| totp_code(secret, (current - 1) as u64) == Some(code)
        ||| totp_code(secret, current as u64) == Some(code)
        ||| totp_code(secret, (current + 1) as u64) == Some(code)
    }
}

fn has_code_form(code: &str) -> (yes: bool)
    ensures
        yes == is_code(code@),
{
    let chars = text::chars_of(code);
    if chars.len() != 6 {
        return false;
    }
    let mut i: usize = 0;
    while i < 6
        invariant
            i <= 6,
            chars@.len() == 6,
            chars@ == code@,
            forall|j: int| 0 <= j < i ==> text::is_digit(#[trigger] code@[j]),
        decreases 6 - i,
    {
        if !text::digit(chars[i]) {
            assert(!text::is_digit(code@[i as int]));
            return false;
        }
        i += 1;
    }
    true
}

fn matches_at(secret: &str, counter: u64, code: &str) -> (matches: bool)
    ensures
        matches == (totp_code(secret@, counter) == Some(code@)),
{
    match totp(secret, counter) {
        Some(expected) => text::same_text(expected.as_str(), code),
        None => false,
    }
}

/// Tells whether the code is that of the secret at that time, or of the period before or after.
pub fn verify_totp(secret: &str, code: &str, now_ms: i64) -> (accepts: bool)
    requires
        now_ms >= 0,
    ensures
        accepts == totp_accepts(secret@, code@, now_ms),
{
    let code = text::trimmed_text(code);
    if !has_code_form(code.as_str()) {
        return false;
    }
    let current = now_ms / 1000 / 30;
    #[verifier::truncate]
    let before = (current - 1) as u64;
    matches_at(secret, before, code.as_str()) || matches_at(
        secret,
        current as u64,
        code.as_str(),
    ) || matches_at(secret, (current + 1) as u64, code.as_str())
}

/// A code is accepted in its own period and in the two next to it, with white space around it or
/// without.
pub proof fn law_code_is_accepted(secret: Seq<char>, counter: u64, now_ms: i64, code: Seq<char>)
    requires
        now_ms >= 0,
        -1 <= now_ms as int / 1000 / 30 - counter <= 1,
        totp_code(secret, counter) == Some(text::trim(code)),
    ensures
        totp_accepts(secret, code, now_ms),
{
    let digest = codec::hmac_sha1_of(
        codec::base32_decoded(text::utf8(secret))->0,
        bytes::be64_bytes(counter),
    );
    text::lemma_six_digits(code_number(digest));
}

/// A new secret in Base32. It decodes to as many bytes as a secret is made of.
pub fn random_mfa_secret() -> (secret: String)
    ensures
        codec::base32_decoded(text::utf8(secret@)) is Some,
        codec::base32_decoded(text::utf8(secret@))->0.len() == MFA_SECRET_LEN,
{
    let bytes = random::random_bytes(MFA_SECRET_LEN);
    assert(MFA_SECRET_LEN <= usize::MAX / 512);
    codec::base32_encode(bytes.as_slice())
}

/// The last half byte of a digest names the place of four bytes, which as a number without its
/// highest bit have the code as their last six decimal digits.
pub proof fn law_code_number(digest: Seq<u8>)
    requires
        digest.len() == 20,
    ensures
        ({
            let place = digest[19] as int % 16;
            let number = (((digest[place] % 128) * 256 + digest[place + 1]) * 256 + digest[place
                + 2]) * 256 + digest[place + 3];
            code_number(digest) == number % 1_000_000
        }),
        code_number(digest) < 1_000_000,
{
    let place = digest[19] as int % 16;
    let four = digest.subrange(place, place + 4);
    let high = digest[place];
    assert(four[0] == high && four[1] == digest[place + 1] && four[2] == digest[place + 2]
        && four[3] == digest[place + 3]);
    assert(high == high / 128 * 128 + high % 128) by (bit_vector);
    assert(high / 128 == 0 || high / 128 == 1) by (bit_vector);
    let low = (((high % 128) * 256 + digest[place + 1]) * 256 + digest[place + 2]) * 256
        + digest[place + 3];
    assert(bytes::be32_value(four) == (high / 128) * 0x8000_0000 + low);
    assert(0 <= low < 0x8000_0000);
    assert(bytes::be32_value(four) % 0x8000_0000 == low);
}

/// The code of a secret for a count of periods is six digits that spell the code of the digest of
/// the count, in eight bytes, under the secret's key; a secret that cannot be read has none.
pub proof fn law_totp_code(secret: Seq<char>, counter: u64, key: Seq<u8>, message: Seq<u8>)
    requires
        text::utf8(secret).len() <= usize::MAX / 8,
        message.len() == 8,
        counter == bytes::be32_value(message.take(4)) * 0x1_0000_0000 + bytes::be32_value(
            message.skip(4),
        ),
    ensures
        codec::base32_decoded(text::utf8(secret)) is None ==> totp_code(secret, counter) is None,
        codec::base32_decoded(text::utf8(secret)) == Some(key) ==> {
            &&& totp_code(secret, counter) matches Some(code)
            &&& code.len() == 6
            &&& forall|i: int| 0 <= i < 6 ==> text::is_digit(#[trigger] code[i])
            &&& text::digits_value(code) == code_number(codec::hmac_sha1_of(key, message))
        },
{
    let written = bytes::be64_bytes(counter);
    bytes::law_be64(counter);
    let (a, b) = (message.take(4), message.skip(4));
    let (c, d) = (written.take(4), written.skip(4));
    let (high, low) = (bytes::be32_value(a), bytes::be32_value(b));
    assert(0 <= high < 0x1_0000_0000 && 0 <= low < 0x1_0000_0000);
    assert(0 <= bytes::be32_value(c) < 0x1_0000_0000 && 0 <= bytes::be32_value(d) < 0x1_0000_0000);
    assert(high == bytes::be32_value(c) && low == bytes::be32_value(d));
    bytes::law_be32(high as u32, a);
    bytes::law_be32(high as u32, c);
    bytes::law_be32(low as u32, b);
    bytes::law_be32(low as u32, d);
    assert(a == c && b == d);
    assert(message =~= a + b);
    assert(written =~= c + d);
    let number = code_number(codec::hmac_sha1_of(key, message));
    text::law_six_digits(number);
    text::lemma_six_digits(number);
}

/// A code that is accepted is six digits and the secret's in the period of the time, or in the one
/// before or after it; a period is half a minute.
pub proof fn law_accepted_code(secret: Seq<char>, code: Seq<char>, now_ms: i64)
    requires
        now_ms >= 30_000,
    ensures
        totp_accepts(secret, code, now_ms) ==> {
            &&& text::trim(code).len() == 6
            &&& exists|counter: u64|
                {
                    &&& #[trigger] totp_code(secret, counter) == Some(text::trim(code))
                    &&& (counter - 1) * 30_000 <= now_ms < (counter + 2) * 30_000
                }
        },
{
    if totp_accepts(secret, code, now_ms) {
        let current = now_ms as int / 1000 / 30;
        assert(current * 30_000 <= now_ms < (current + 1) * 30_000);
        assert(1 <= current <= i64::MAX);
        if totp_code(secret, (current - 1) as u64) == Some(text::trim(code)) {
            assert(totp_code(secret, (current - 1) as u64) == Some(text::trim(code)));
        } else if totp_code(secret, current as u64) == Some(text::trim(code)) {
            assert(totp_code(secret, current as u64) == Some(text::trim(code)));
        } else {
            assert(totp_code(secret, (current + 1) as u64) == Some(text::trim(code)));
        }
    }
}

} // verus!
