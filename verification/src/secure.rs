//! Pairing signatures, the short code that both sides show, and the encryption of what is sent to
//! and received from a paired client.
use aes::cipher::block_padding::Pkcs7;
use aes::cipher::{BlockDecryptMut, BlockEncryptMut, KeyIvInit};
use aes::Aes256;
use cbc::{Decryptor, Encryptor};
use p256::ecdh::diffie_hellman;
use p256::ecdsa::signature::{Signer, Verifier};
use p256::ecdsa::{Signature, SigningKey, VerifyingKey};
use p256::elliptic_curve::sec1::ToEncodedPoint;
use p256::pkcs8::{DecodePrivateKey, DecodePublicKey, EncodePrivateKey, EncodePublicKey};
use p256::{PublicKey, SecretKey};
use rand_core::OsRng;
use vstd::pervasive::unreached;
use vstd::prelude::*;

use crate::bytes;
use crate::codec;
use crate::random;
use crate::text;

verus! {

/// What `SecretKey::from_pkcs8_der` reads out of a PKCS#8 document: the secret number of the key, or
/// the error in words.
pub uninterp spec fn pkcs8_secret(der: Seq<u8>) -> Result<Seq<u8>, Seq<char>>;

/// What `SecretKey::to_pkcs8_der` writes for a secret number.
pub uninterp spec fn pkcs8_document(secret: Seq<u8>) -> Option<Seq<u8>>;

/// What `to_public_key_der` writes for the public key of a secret number.
pub uninterp spec fn public_document(secret: Seq<u8>) -> Option<Seq<u8>>;

/// What `PublicKey::from_public_key_der` reads out of a public key document: the point, or the error
/// in words.
pub uninterp spec fn public_point(der: Seq<u8>) -> Result<Seq<u8>, Seq<char>>;

/// What `Signature::from_der` reads out of a signature document: its two numbers, or the error in
/// words.
pub uninterp spec fn signature_numbers(der: Seq<u8>) -> Result<Seq<u8>, Seq<char>>;

/// What `SigningKey::try_sign` makes of a secret number and bytes, as a signature document.
pub uninterp spec fn signature_document(secret: Seq<u8>, data: Seq<u8>) -> Option<Seq<u8>>;

/// What `VerifyingKey::verify` says of a point, bytes and the two numbers of a signature.
pub uninterp spec fn signature_holds(point: Seq<u8>, data: Seq<u8>, numbers: Seq<u8>) -> bool;

/// What `diffie_hellman` makes of a secret number and a point.
pub uninterp spec fn agreed_secret(secret: Seq<u8>, point: Seq<u8>) -> Option<Seq<u8>>;

/// What AES-256 in CBC mode with PKCS#7 padding makes of a key, an initial block and bytes.
pub uninterp spec fn aes_cbc_encrypted(key: Seq<u8>, iv: Seq<u8>, data: Seq<u8>) -> Seq<u8>;

/// What AES-256 in CBC mode with PKCS#7 padding gives back of encrypted bytes.
pub uninterp spec fn aes_cbc_decrypted(key: Seq<u8>, iv: Seq<u8>, data: Seq<u8>) -> Option<Seq<u8>>;

/// The point of the public key that belongs to a secret number.
pub open spec fn point_of(secret: Seq<u8>) -> Option<Seq<u8>> {
    match public_document(secret) {
        Some(document) => match public_point(document) {
            Ok(point) => Some(point),
            Err(_) => None,
        },
        None => None,
    }
}

/// Whether a number is good as the secret of a key: it has 32 bytes, it can be kept as a document, it
/// has a public key, and it agrees on a secret with every public key that can be read.
pub open spec fn is_key_secret(secret: Seq<u8>) -> bool {
    &&& secret.len() == 32
    &&& pkcs8_document(secret) is Some
    &&& point_of(secret) is Some
    &&& forall|der: Seq<u8>|
        (#[trigger] public_point(der)) matches Ok(point) ==> agreed_secret(secret, point) is Some
}

/// `SecretKey::random` with the operating system's random source: some secret number, whichever it
/// is. It is a scalar of the curve other than zero, so that `SecretKey::from_slice` takes it, and
/// nothing that is then made of it fails: neither its two documents nor `diffie_hellman` with the
/// point of a public key.
#[verifier::external_body]
fn random_secret() -> (secret: [u8; 32])
    ensures
        is_key_secret(secret@),
{
    SecretKey::random(&mut OsRng).to_bytes().into()
}

/// `SecretKey::from_pkcs8_der`. What it reads is a scalar of the curve other than zero, as with
/// `SecretKey::random`.
#[verifier::external_body]
fn secret_from_pkcs8(der: &[u8]) -> (secret: Result<[u8; 32], String>)
    ensures
        match secret {
            Ok(secret) => pkcs8_secret(der@) == Ok::<Seq<u8>, Seq<char>>(secret@) && is_key_secret(
                secret@,
            ),
            Err(words) => pkcs8_secret(der@) == Err::<Seq<u8>, Seq<char>>(words@),
        },
{
    SecretKey::from_pkcs8_der(der)
        .map(|key| key.to_bytes().into())
        .map_err(|error| error.to_string())
}

/// `SecretKey::to_pkcs8_der`. The document reads back as the secret number.
#[verifier::external_body]
fn secret_to_pkcs8(secret: &[u8; 32]) -> (der: Option<Vec<u8>>)
    ensures
        match der {
            Some(der) => pkcs8_document(secret@) == Some(der@) && pkcs8_secret(der@) == Ok::<
                Seq<u8>,
                Seq<char>,
            >(secret@),
            None => pkcs8_document(secret@) is None,
        },
{
    let key = SecretKey::from_slice(secret).ok()?;
    key.to_pkcs8_der().ok().map(|document| document.as_bytes().to_vec())
}

/// `to_public_key_der` of the public key that belongs to a secret number. The document reads as a
/// point.
#[verifier::external_body]
fn public_der(secret: &[u8; 32]) -> (der: Option<Vec<u8>>)
    ensures
        match der {
            Some(der) => public_document(secret@) == Some(der@) && public_point(der@) is Ok,
            None => public_document(secret@) is None,
        },
{
    let key = SecretKey::from_slice(secret).ok()?;
    key.public_key().to_public_key_der().ok().map(|document| document.as_bytes().to_vec())
}

/// `PublicKey::from_public_key_der`; the point is held in its uncompressed SEC1 form.
#[verifier::external_body]
fn point_from_der(der: &[u8]) -> (point: Result<Vec<u8>, String>)
    ensures
        match point {
            Ok(point) => public_point(der@) == Ok::<Seq<u8>, Seq<char>>(point@),
            Err(words) => public_point(der@) == Err::<Seq<u8>, Seq<char>>(words@),
        },
{
    let key = PublicKey::from_public_key_der(der).map_err(|error| error.to_string())?;
    Ok(key.to_encoded_point(false).as_bytes().to_vec())
}

/// `Signature::from_der`; the two numbers are held side by side in their fixed width.
#[verifier::external_body]
fn numbers_from_der(der: &[u8]) -> (numbers: Result<Vec<u8>, String>)
    ensures
        match numbers {
            Ok(numbers) => signature_numbers(der@) == Ok::<Seq<u8>, Seq<char>>(numbers@),
            Err(words) => signature_numbers(der@) == Err::<Seq<u8>, Seq<char>>(words@),
        },
{
    Signature::from_der(der)
        .map(|signature| signature.to_vec())
        .map_err(|error| error.to_string())
}

/// `Signer::try_sign` with the secret number, as a signature document. The ephemeral number of the
/// signature is derived from the secret and the bytes, so that the same two give the same
/// signature. The document reads back, and the signature holds under the secret's public key.
#[verifier::external_body]
fn sign_der(secret: &[u8; 32], data: &[u8]) -> (der: Option<Vec<u8>>)
    ensures
        match der {
            Some(der) => {
                &&& signature_document(secret@, data@) == Some(der@)
                &&& signature_numbers(der@) is Ok
                &&& point_of(secret@) matches Some(point) ==> signature_holds(
                    point,
                    data@,
                    signature_numbers(der@)->Ok_0,
                )
            },
            None => signature_document(secret@, data@) is None,
        },
{
    let key = SigningKey::from_slice(secret).ok()?;
    let signature: Signature = key.try_sign(data).ok()?;
    Some(signature.to_der().as_bytes().to_vec())
}

/// `Verifier::verify` with the key of the point and the signature of the two numbers.
#[verifier::external_body]
fn verify_numbers(point: &[u8], data: &[u8], numbers: &[u8]) -> (holds: bool)
    ensures
        holds == signature_holds(point@, data@, numbers@),
{
    match (VerifyingKey::from_sec1_bytes(point), Signature::from_slice(numbers)) {
        (Ok(key), Ok(signature)) => key.verify(data, &signature).is_ok(),
        _ => false,
    }
}

/// `diffie_hellman`: the raw secret that a secret number and a point agree on. It is the one that
/// the holder of the point's secret number agrees on with the public key of this secret number.
#[verifier::external_body]
fn agree(secret: &[u8; 32], point: &[u8]) -> (key: Option<[u8; 32]>)
    ensures
        match key {
            Some(key) => {
                &&& agreed_secret(secret@, point@) == Some(key@)
                &&& forall|other: Seq<u8>|
                    other.len() == 32 && #[trigger] point_of(other) == Some(point@) && point_of(
                        secret@,
                    ) is Some ==> agreed_secret(other, point_of(secret@)->0) == Some(key@)
            },
            None => agreed_secret(secret@, point@) is None,
        },
{
    let secret = SecretKey::from_slice(secret).ok()?;
    let public = PublicKey::from_sec1_bytes(point).ok()?;
    let shared = diffie_hellman(secret.to_nonzero_scalar(), public.as_affine());
    Some((*shared.raw_secret_bytes()).into())
}

/// AES-256 in CBC mode with PKCS#7 padding, as the `cbc` crate encrypts. What it gives is whole
/// blocks, one more than the bytes fill, and decrypts to the bytes.
#[verifier::external_body]
fn aes_cbc_encrypt(key: &[u8; 32], iv: &[u8], data: &[u8]) -> (encrypted: Vec<u8>)
    requires
        iv@.len() == 16,
    ensures
        encrypted@ == aes_cbc_encrypted(key@, iv@, data@),
        encrypted@.len() == data@.len() / 16 * 16 + 16,
        aes_cbc_decrypted(key@, iv@, encrypted@) == Some(data@),
{
    Encryptor::<Aes256>::new(key.into(), iv.into()).encrypt_padded_vec_mut::<Pkcs7>(data)
}

/// AES-256 in CBC mode with PKCS#7 padding, as the `cbc` crate decrypts; nothing where the padding
/// or the length is not that of encrypted bytes.
#[verifier::external_body]
fn aes_cbc_decrypt(key: &[u8; 32], iv: &[u8], data: &[u8]) -> (decrypted: Option<Vec<u8>>)
    requires
        iv@.len() == 16,
    ensures
        match decrypted {
            Some(decrypted) => aes_cbc_decrypted(key@, iv@, data@) == Some(decrypted@),
            None => aes_cbc_decrypted(key@, iv@, data@) is None,
        },
{
    Decryptor::<Aes256>::new(key.into(), iv.into()).decrypt_padded_vec_mut::<Pkcs7>(data).ok()
}

/// What can go wrong with a key, a signature or an encrypted payload. Where something cannot be read,
/// the words say why.
#[derive(Debug, Clone, PartialEq, Eq)]
pub enum SecureError {
    /// A text is not Base64.
    Base64(String),
    /// Bytes are not the document of a private key.
    PrivateKey(String),
    /// Bytes are not the document of a public key.
    PublicKey(String),
    /// Bytes are not the document of a signature.
    Signature(String),
    /// The signature came out as none.
    Signing,
    /// An encrypted payload is shorter than its initial block.
    CiphertextTooShort,
    /// An encrypted payload is not padded as one.
    Padding,
}

/// A [`SecureError`] with its words by their characters.
#[verifier::ext_equal]
pub enum SecureErrorView {
    Base64(Seq<char>),
    PrivateKey(Seq<char>),
    PublicKey(Seq<char>),
    Signature(Seq<char>),
    Signing,
    CiphertextTooShort,
    Padding,
}

impl View for SecureError {
    type V = SecureErrorView;

    open spec fn view(&self) -> SecureErrorView {
        match self {
            SecureError::Base64(words) => SecureErrorView::Base64(words@),
            SecureError::PrivateKey(words) => SecureErrorView::PrivateKey(words@),
            SecureError::PublicKey(words) => SecureErrorView::PublicKey(words@),
            SecureError::Signature(words) => SecureErrorView::Signature(words@),
            SecureError::Signing => SecureErrorView::Signing,
            SecureError::CiphertextTooShort => SecureErrorView::CiphertextTooShort,
            SecureError::Padding => SecureErrorView::Padding,
        }
    }
}

impl SecureErrorView {
    /// The error in words.
    pub open spec fn words(self) -> Seq<char> {
        match self {
            SecureErrorView::Base64(words) => words,
            SecureErrorView::PrivateKey(words) => words,
            SecureErrorView::PublicKey(words) => words,
            SecureErrorView::Signature(words) => words,
            SecureErrorView::Signing => "signature operation failed"@,
            SecureErrorView::CiphertextTooShort => "ciphertext too short"@,
            SecureErrorView::Padding => "invalid encrypted payload padding"@,
        }
    }
}

impl SecureError {
    /// The error in words.
    pub fn message(&self) -> (text: String)
        ensures
            text@ == self@.words(),
    {
        match self {
            SecureError::Base64(words) => words.clone(),
            SecureError::PrivateKey(words) => words.clone(),
            SecureError::PublicKey(words) => words.clone(),
            SecureError::Signature(words) => words.clone(),
            SecureError::Signing => "signature operation failed".to_owned(),
            SecureError::CiphertextTooShort => "ciphertext too short".to_owned(),
            SecureError::Padding => "invalid encrypted payload padding".to_owned(),
        }
    }
}

/// What a client signs to pair with a token.
#[derive(Debug, Clone)]
pub struct PairingRequest {
    pub sign_public_key: String,
    pub crypt_public_key: String,
    pub token: u32,
    pub timestamp: i64,
}

/// What the server signs in answer to a pairing with a token.
#[derive(Debug, Clone)]
pub struct PairingResponse {
    pub sign_public_key: String,
    pub crypt_public_key: String,
    pub timestamp: i64,
}

/// A pairing request with its signature.
#[derive(Debug, Clone)]
pub struct TrustRequest {
    pub pairing_request: PairingRequest,
    pub signature: String,
}

/// A pairing response with its signature.
#[derive(Debug, Clone)]
pub struct TrustResponse {
    pub pairing_response: PairingResponse,
    pub signature: String,
}

/// The public keys of a client that starts a pairing by short code.
#[derive(Debug, Clone)]
pub struct KeyExchangeRequest {
    pub sign_public_key: String,
    pub crypt_public_key: String,
    pub timestamp: i64,
    pub signature: String,
}

/// The public keys of the server in a pairing by short code.
#[derive(Debug, Clone)]
pub struct KeyExchangeResponse {
    pub sign_public_key: String,
    pub crypt_public_key: String,
    pub timestamp: i64,
    pub signature: String,
}

/// What a client signs to confirm a pairing by short code.
#[derive(Debug, Clone)]
pub struct TrustConfirmRequest {
    pub timestamp: i64,
    pub signature: String,
}

/// What the server signs to confirm a pairing by short code.
#[derive(Debug, Clone)]
pub struct TrustConfirmResponse {
    pub timestamp: i64,
    pub signature: String,
}

/// The two secret numbers of the server: one signs, the other agrees on keys with clients.
pub struct ServerKeys {
    sign_key: [u8; 32],
    crypt_key: [u8; 32],
}

/// The text under which the public key of a secret number is handed out.
pub open spec fn public_key_text(secret: Seq<u8>) -> Option<Seq<char>> {
    match public_document(secret) {
        Some(document) => Some(codec::base64_encoded(document)),
        None => None,
    }
}

/// The text of the signature that a secret number puts under bytes.
pub open spec fn signature_text(secret: Seq<u8>, data: Seq<u8>) -> Option<Seq<char>> {
    match signature_document(secret, data) {
        Some(document) => Some(codec::base64_encoded(document)),
        None => None,
    }
}

/// What is said of a signature: the key's text and the signature's text have to be read first.
pub open spec fn verification(key: Seq<char>, signature: Seq<char>, data: Seq<u8>) -> Result<
    bool,
    SecureErrorView,
> {
    match codec::base64_decoded(key) {
        Err(words) => Err(SecureErrorView::Base64(words)),
        Ok(key) => match public_point(key) {
            Err(words) => Err(SecureErrorView::PublicKey(words)),
            Ok(point) => match codec::base64_decoded(signature) {
                Err(words) => Err(SecureErrorView::Base64(words)),
                Ok(signature) => match signature_numbers(signature) {
                    Err(words) => Err(SecureErrorView::Signature(words)),
                    Ok(numbers) => Ok(signature_holds(point, data, numbers)),
                },
            },
        },
    }
}

/// Whether a signature of bytes is accepted under the public key of a secret number, wherever the
/// key is given as text.
pub open spec fn is_accepted(secret: Seq<u8>, signature: Seq<char>, data: Seq<u8>) -> bool {
    forall|key: Seq<char>|
        codec::base64_decoded(key) is Ok && public_document(secret) == Some(
            codec::base64_decoded(key)->Ok_0,
        ) && public_point(codec::base64_decoded(key)->Ok_0) is Ok ==> #[trigger] verification(
            key,
            signature,
            data,
        ) == Ok::<bool, SecureErrorView>(true)
}

/// The key that a secret number and a public key document agree on.
pub open spec fn shared_key_of(secret: Seq<u8>, public_key: Seq<u8>) -> Result<
    Seq<u8>,
    SecureErrorView,
> {
    match public_point(public_key) {
        Ok(point) => Ok(agreed_secret(secret, point)->0),
        Err(words) => Err(SecureErrorView::PublicKey(words)),
    }
}

/// A payload that was sealed under a key with an initial block: the block, and then the encrypted
/// bytes.
pub open spec fn sealed(key: Seq<u8>, iv: Seq<u8>, plaintext: Seq<u8>) -> Seq<u8> {
    iv + aes_cbc_encrypted(key, iv, plaintext)
}

/// What comes of opening a payload, where there is a key.
pub open spec fn opened(key: Result<Seq<u8>, SecureErrorView>, payload: Seq<u8>) -> Result<
    Seq<u8>,
    SecureErrorView,
> {
    if payload.len() < 16 {
        Err(SecureErrorView::CiphertextTooShort)
    } else {
        match key {
            Err(error) => Err(error),
            Ok(key) => match aes_cbc_decrypted(key, payload.take(16), payload.skip(16)) {
                None => Err(SecureErrorView::Padding),
                Some(plaintext) => Ok(plaintext),
            },
        }
    }
}

/// A result with its error by its view.
pub open spec fn error_view<T, E: View>(result: Result<T, E>) -> Result<T, E::V> {
    match result {
        Ok(value) => Ok(value),
        Err(error) => Err(error@),
    }
}

/// Bytes or an error, both by their views.
pub open spec fn bytes_or<E: View>(result: Result<Vec<u8>, E>) -> Result<Seq<u8>, E::V> {
    match result {
        Ok(bytes) => Ok(bytes@),
        Err(error) => Err(error@),
    }
}

/// Text or an error, both by their views.
pub open spec fn text_or<E: View>(result: Result<String, E>) -> Result<Seq<char>, E::V> {
    match result {
        Ok(text) => Ok(text@),
        Err(error) => Err(error@),
    }
}

/// The value, or an error where there is none.
pub open spec fn some_or<T, E>(value: Option<T>, error: E) -> Result<T, E> {
    match value {
        Some(value) => Ok(value),
        None => Err(error),
    }
}

/// Seals bytes under a key with a given initial block. The payload opens to the bytes again.
pub fn seal_with(key: &[u8; 32], iv: &[u8], plaintext: &[u8]) -> (payload: Vec<u8>)
    requires
        iv@.len() == 16,
    ensures
        payload@ == sealed(key@, iv@, plaintext@),
        payload@.len() == plaintext@.len() / 16 * 16 + 32,
        (opened(Ok(key@), payload@) == Ok::<Seq<u8>, SecureErrorView>(plaintext@)),
{
    let encrypted = aes_cbc_encrypt(key, iv, plaintext);
    let mut payload = bytes::copy(iv);
    bytes::extend(&mut payload, encrypted.as_slice());
    assert(payload@.take(16) =~= iv@);
    assert(payload@.skip(16) =~= encrypted@);
    payload
}

/// Opens a payload under a key.
pub fn open_with(key: &[u8; 32], payload: &[u8]) -> (plaintext: Result<Vec<u8>, SecureError>)
    ensures
        bytes_or(plaintext) == opened(Ok(key@), payload@),
{
    if payload.len() < 16 {
        return Err(SecureError::CiphertextTooShort);
    }
    let iv = bytes::part(payload, 0, 16);
    let data = bytes::part(payload, 16, payload.len());
    assert(iv@ =~= payload@.take(16));
    assert(data@ =~= payload@.skip(16));
    match aes_cbc_decrypt(key, iv, data) {
        Some(plaintext) => Ok(plaintext),
        None => Err(SecureError::Padding),
    }
}

impl Clone for ServerKeys {
    fn clone(&self) -> (keys: Self)
        ensures
            keys == *self,
    {
        proof {
            use_type_invariant(self);
        }
        ServerKeys { sign_key: self.sign_key, crypt_key: self.crypt_key }
    }
}

impl ServerKeys {
    /// The secret number that signs.
    pub closed spec fn sign_secret(&self) -> Seq<u8> {
        self.sign_key@
    }

    /// The secret number that agrees on keys.
    pub closed spec fn crypt_secret(&self) -> Seq<u8> {
        self.crypt_key@
    }

    /// The key shared with the client that has this public key document.
    pub open spec fn shared_with(&self, public_key: Seq<u8>) -> Result<Seq<u8>, SecureErrorView> {
        shared_key_of(self.crypt_secret(), public_key)
    }

    /// Whether both secret numbers are good as the secret of a key.
    pub open spec fn are_good(&self) -> bool {
        is_key_secret(self.sign_secret()) && is_key_secret(self.crypt_secret())
    }

    /// Two fresh secret numbers.
    pub fn generate() -> (keys: Self)
        ensures
            keys.are_good(),
    {
        ServerKeys { sign_key: random_secret(), crypt_key: random_secret() }
    }

    #[verifier::type_invariant]
    spec fn holds_good_secrets(self) -> bool {
        is_key_secret(self.sign_key@) && is_key_secret(self.crypt_key@)
    }

    /// The keys of two PKCS#8 documents.
    pub fn from_pkcs8(sign_key_der: &[u8], crypt_key_der: &[u8]) -> (keys: Result<Self, SecureError>)
        ensures
            match keys {
                Ok(keys) => {
                    &&& are_documents_of(keys, sign_key_der@, crypt_key_der@)
                    &&& keys.are_good()
                },
                Err(error) => unreadable_document(sign_key_der@, crypt_key_der@) == Some(error@),
            },
    {
        match secret_from_pkcs8(sign_key_der) {
            Ok(sign_key) => match secret_from_pkcs8(crypt_key_der) {
                Ok(crypt_key) => Ok(ServerKeys { sign_key, crypt_key }),
                Err(words) => Err(SecureError::PrivateKey(words)),
            },
            Err(words) => Err(SecureError::PrivateKey(words)),
        }
    }

    /// The two secret numbers as PKCS#8 documents, which read back as the same keys.
    pub fn private_keys_pkcs8(&self) -> (documents: Result<(Vec<u8>, Vec<u8>), SecureError>)
        ensures
            documents matches Ok((sign, crypt)) && {
                &&& pkcs8_document(self.sign_secret()) == Some(sign@)
                &&& pkcs8_document(self.crypt_secret()) == Some(crypt@)
                &&& are_documents_of(*self, sign@, crypt@)
            },
    {
        proof {
            use_type_invariant(self);
        }
        match (secret_to_pkcs8(&self.sign_key), secret_to_pkcs8(&self.crypt_key)) {
            (Some(sign), Some(crypt)) => Ok((sign, crypt)),
            _ => unreached(),
        }
    }

    /// The public key that checks the server's signatures, in Base64.
    pub fn sign_public_key_der_b64(&self) -> (key: Result<String, SecureError>)
        ensures
            key matches Ok(key) && is_public_key_text(self.sign_secret(), key@),
    {
        proof {
            use_type_invariant(self);
        }
        match public_der(&self.sign_key) {
            Some(der) => Ok(codec::base64_encode(der.as_slice())),
            None => unreached(),
        }
    }

    /// The public key that clients agree on keys with, in Base64.
    pub fn crypt_public_key_der_b64(&self) -> (key: Result<String, SecureError>)
        ensures
            key matches Ok(key) && is_public_key_text(self.crypt_secret(), key@),
    {
        proof {
            use_type_invariant(self);
        }
        match public_der(&self.crypt_key) {
            Some(der) => Ok(codec::base64_encode(der.as_slice())),
            None => unreached(),
        }
    }

    /// The server's signature under bytes, in Base64. It holds under the server's public key.
    pub fn sign(&self, data: &[u8]) -> (signature: Result<String, SecureError>)
        ensures
            text_or(signature) == some_or(
                signature_text(self.sign_secret(), data@),
                SecureErrorView::Signing,
            ),
            signature matches Ok(signature) ==> is_accepted(
                self.sign_secret(),
                signature@,
                data@,
            ),
    {
        match sign_der(&self.sign_key, data) {
            Some(der) => Ok(codec::base64_encode(der.as_slice())),
            None => Err(SecureError::Signing),
        }
    }

    fn shared_key(&self, client_crypt_public_key_der: &[u8]) -> (key: Result<[u8; 32], SecureError>)
        ensures
            match key {
                Ok(key) => self.shared_with(client_crypt_public_key_der@) == Ok::<
                    Seq<u8>,
                    SecureErrorView,
                >(key@),
                Err(error) => self.shared_with(client_crypt_public_key_der@) == Err::<
                    Seq<u8>,
                    SecureErrorView,
                >(error@),
            },
            point_of(self.crypt_secret()) is Some,
            self.shares_with_owner(client_crypt_public_key_der@),
    {
        proof {
            use_type_invariant(self);
        }
        match point_from_der(client_crypt_public_key_der) {
            Ok(point) => match agree(&self.crypt_key, point.as_slice()) {
                Some(key) => {
                    assert forall|client: Seq<u8>|
                        client.len() == 32 && #[trigger] public_document(client) == Some(
                            client_crypt_public_key_der@,
                        ) && point_of(client) is Some implies shared_key_of(
                        client,
                        public_document(self.crypt_secret())->0,
                    ) == self.shared_with(client_crypt_public_key_der@) by {
                        assert(point_of(client) == Some(point@));
                    }
                    Ok(key)
                },
                None => unreached(),
            },
            Err(words) => Err(SecureError::PublicKey(words)),
        }
    }

    /// Whether the holder of the secret number behind a public key document agrees with the server
    /// on the same key.
    spec fn shares_with_owner(&self, document: Seq<u8>) -> bool {
        forall|client: Seq<u8>|
            client.len() == 32 && #[trigger] public_document(client) == Some(document) && point_of(
                client,
            ) is Some ==> shared_key_of(client, public_document(self.crypt_secret())->0)
                == self.shared_with(document)
    }

    /// Encrypts bytes for the client that has this public key document, under a fresh initial
    /// block. The server opens the payload to the same bytes, and so does the client, with its own
    /// secret number and the server's public key.
    pub fn encrypt_for_client(
        &self,
        client_crypt_public_key_der: &[u8],
        plaintext: &[u8],
    ) -> (payload: Result<Vec<u8>, SecureError>)
        ensures
            match payload {
                Ok(payload) => {
                    let key = self.shared_with(client_crypt_public_key_der@);
                    &&& key is Ok
                    &&& payload@.len() == plaintext@.len() / 16 * 16 + 32
                    &&& payload@ == sealed(key->Ok_0, payload@.take(16), plaintext@)
                    &&& opened(key, payload@) == Ok::<Seq<u8>, SecureErrorView>(plaintext@)
                    &&& forall|client: Seq<u8>|
                        client.len() == 32 && #[trigger] public_document(client) == Some(
                            client_crypt_public_key_der@,
                        ) ==> opened(
                            shared_key_of(client, public_document(self.crypt_secret())->0),
                            payload@,
                        ) == Ok::<Seq<u8>, SecureErrorView>(plaintext@)
                },
                Err(error) => self.shared_with(client_crypt_public_key_der@) == Err::<
                    Seq<u8>,
                    SecureErrorView,
                >(error@),
            },
    {
        match self.shared_key(client_crypt_public_key_der) {
            Ok(key) => {
                let iv = random::random_bytes(16);
                let payload = seal_with(&key, iv.as_slice(), plaintext);
                assert(payload@.take(16) =~= iv@);
                Ok(payload)
            },
            Err(error) => Err(error),
        }
    }

    /// Opens what the client that has this public key document encrypted: what the client itself
    /// opens to some bytes, with its own secret number and the server's public key, the server opens
    /// to the same bytes.
    pub fn decrypt_from_client(
        &self,
        client_crypt_public_key_der: &[u8],
        ciphertext: &[u8],
    ) -> (plaintext: Result<Vec<u8>, SecureError>)
        ensures
            bytes_or(plaintext) == opened(
                self.shared_with(client_crypt_public_key_der@),
                ciphertext@,
            ),
            forall|client: Seq<u8>|
                client.len() == 32 && #[trigger] public_document(client) == Some(
                    client_crypt_public_key_der@,
                ) && point_of(client) is Some ==> bytes_or(plaintext) == opened(
                    shared_key_of(client, public_document(self.crypt_secret())->0),
                    ciphertext@,
                ),
    {
        let key = self.shared_key(client_crypt_public_key_der);
        if ciphertext.len() < 16 {
            return Err(SecureError::CiphertextTooShort);
        }
        match key {
            Ok(key) => open_with(&key, ciphertext),
            Err(error) => Err(error),
        }
    }
}

/// Whether the two PKCS#8 documents are those of the keys.
pub open spec fn are_documents_of(keys: ServerKeys, sign: Seq<u8>, crypt: Seq<u8>) -> bool {
    &&& pkcs8_secret(sign) == Ok::<Seq<u8>, Seq<char>>(keys.sign_secret())
    &&& pkcs8_secret(crypt) == Ok::<Seq<u8>, Seq<char>>(keys.crypt_secret())
}

/// Why the first of two PKCS#8 documents that cannot be read cannot be read, if there is one.
pub open spec fn unreadable_document(sign: Seq<u8>, crypt: Seq<u8>) -> Option<SecureErrorView> {
    match (pkcs8_secret(sign), pkcs8_secret(crypt)) {
        (Err(words), _) => Some(SecureErrorView::PrivateKey(words)),
        (_, Err(words)) => Some(SecureErrorView::PrivateKey(words)),
        _ => None,
    }
}

/// Whether this is the text under which the public key of a secret number is handed out. It reads
/// back as the document, and the document as a point.
pub open spec fn is_public_key_text(secret: Seq<u8>, key: Seq<char>) -> bool {
    &&& public_key_text(secret) == Some(key)
    &&& codec::base64_decoded(key) is Ok
    &&& public_document(secret) == Some(codec::base64_decoded(key)->Ok_0)
    &&& point_of(secret) is Some
}

/// Says whether the signature, in Base64, holds under the public key, in Base64.
fn verify_signature(key: &str, signature: &str, data: &[u8]) -> (holds: Result<bool, SecureError>)
    ensures
        error_view(holds) == verification(key@, signature@, data@),
{
    let key = match codec::base64_decode(key) {
        Ok(key) => key,
        Err(words) => return Err(SecureError::Base64(words)),
    };
    let point = match point_from_der(key.as_slice()) {
        Ok(point) => point,
        Err(words) => return Err(SecureError::PublicKey(words)),
    };
    let signature = match codec::base64_decode(signature) {
        Ok(signature) => signature,
        Err(words) => return Err(SecureError::Base64(words)),
    };
    match numbers_from_der(signature.as_slice()) {
        Ok(numbers) => Ok(verify_numbers(point.as_slice(), data, numbers.as_slice())),
        Err(words) => Err(SecureError::Signature(words)),
    }
}

/// The bytes that the signature of a pairing request is put under.
pub open spec fn pairing_request_data(request: PairingRequest) -> Seq<u8> {
    text::utf8(
        request.sign_public_key@ + request.crypt_public_key@ + text::decimal(request.token as int)
            + text::decimal(request.timestamp as int),
    )
}

/// The bytes that a signature over two public keys and a time is put under.
pub open spec fn keys_data(sign_key: Seq<char>, crypt_key: Seq<char>, timestamp: i64) -> Seq<u8> {
    text::utf8(sign_key + crypt_key + text::decimal(timestamp as int))
}

/// The bytes that a signature over a time is put under.
pub open spec fn time_data(timestamp: i64) -> Seq<u8> {
    text::utf8(text::decimal(timestamp as int))
}

/// The bytes that the signature of a pairing request is put under.
pub fn pairing_request_sign_data(request: &PairingRequest) -> (data: Vec<u8>)
    ensures
        data@ == pairing_request_data(*request),
{
    let mut signed = request.sign_public_key.clone();
    signed.append(request.crypt_public_key.as_str());
    signed.append(text::unsigned_text(request.token as u64).as_str());
    signed.append(text::signed_text(request.timestamp).as_str());
    bytes::copy(signed.as_str().as_bytes())
}

fn keys_sign_data(sign_key: &str, crypt_key: &str, timestamp: i64) -> (data: Vec<u8>)
    ensures
        data@ == keys_data(sign_key@, crypt_key@, timestamp),
{
    let mut signed = sign_key.to_owned();
    signed.append(crypt_key);
    signed.append(text::signed_text(timestamp).as_str());
    bytes::copy(signed.as_str().as_bytes())
}

/// The bytes that the signature of a pairing response is put under.
pub fn pairing_response_sign_data(response: &PairingResponse) -> (data: Vec<u8>)
    ensures
        data@ == keys_data(
            response.sign_public_key@,
            response.crypt_public_key@,
            response.timestamp,
        ),
{
    keys_sign_data(
        response.sign_public_key.as_str(),
        response.crypt_public_key.as_str(),
        response.timestamp,
    )
}

/// Says whether a pairing request is signed with the key that it names.
pub fn verify_pairing_request(request: &TrustRequest) -> (holds: Result<bool, SecureError>)
    ensures
        error_view(holds) == verification(
            request.pairing_request.sign_public_key@,
            request.signature@,
            pairing_request_data(request.pairing_request),
        ),
{
    let data = pairing_request_sign_data(&request.pairing_request);
    verify_signature(
        request.pairing_request.sign_public_key.as_str(),
        request.signature.as_str(),
        data.as_slice(),
    )
}

/// The server's signature under a pairing response. It holds under the server's public key.
pub fn sign_pairing_response(keys: &ServerKeys, response: &PairingResponse) -> (signature: Result<
    String,
    SecureError,
>)
    ensures
        text_or(signature) == some_or(
            signature_text(
                keys.sign_secret(),
                keys_data(
                    response.sign_public_key@,
                    response.crypt_public_key@,
                    response.timestamp,
                ),
            ),
            SecureErrorView::Signing,
        ),
        signature matches Ok(signature) ==> is_accepted(
            keys.sign_secret(),
            signature@,
            keys_data(
                response.sign_public_key@,
                response.crypt_public_key@,
                response.timestamp,
            ),
        ),
{
    let data = pairing_response_sign_data(response);
    keys.sign(data.as_slice())
}

/// The public key document of the client that asks to pair.
pub fn client_crypt_public_key(request: &TrustRequest) -> (key: Result<Vec<u8>, SecureError>)
    ensures
        bytes_or(key) == decoded_key(request.pairing_request.crypt_public_key@),
{
    decode_public_key_b64(request.pairing_request.crypt_public_key.as_str())
}

/// What a public key's text stands for.
pub open spec fn decoded_key(encoded: Seq<char>) -> Result<Seq<u8>, SecureErrorView> {
    match codec::base64_decoded(encoded) {
        Ok(key) => Ok(key),
        Err(words) => Err(SecureErrorView::Base64(words)),
    }
}

/// The bytes of a public key's text.
pub fn decode_public_key_b64(encoded: &str) -> (key: Result<Vec<u8>, SecureError>)
    ensures
        bytes_or(key) == decoded_key(encoded@),
{
    match codec::base64_decode(encoded) {
        Ok(key) => Ok(key),
        Err(words) => Err(SecureError::Base64(words)),
    }
}

/// Says whether a key exchange request is signed with the key that it names.
pub fn verify_key_exchange_request(request: &KeyExchangeRequest) -> (holds: Result<
    bool,
    SecureError,
>)
    ensures
        error_view(holds) == verification(
            request.sign_public_key@,
            request.signature@,
            keys_data(request.sign_public_key@, request.crypt_public_key@, request.timestamp),
        ),
{
    let data = keys_sign_data(
        request.sign_public_key.as_str(),
        request.crypt_public_key.as_str(),
        request.timestamp,
    );
    verify_signature(request.sign_public_key.as_str(), request.signature.as_str(), data.as_slice())
}

/// The server's part of a key exchange: its two public keys and the time, signed. The signature
/// holds under the key that the response names.
pub fn build_key_exchange_response(keys: &ServerKeys, now_ms: i64) -> (response: Result<
    KeyExchangeResponse,
    SecureError,
>)
    ensures
        match response {
            Ok(response) => {
                let data = keys_data(
                    response.sign_public_key@,
                    response.crypt_public_key@,
                    now_ms,
                );
                &&& public_key_text(keys.sign_secret()) == Some(response.sign_public_key@)
                &&& public_key_text(keys.crypt_secret()) == Some(response.crypt_public_key@)
                &&& response.timestamp == now_ms
                &&& signature_text(keys.sign_secret(), data) == Some(response.signature@)
                &&& verification(response.sign_public_key@, response.signature@, data) == Ok::<
                    bool,
                    SecureErrorView,
                >(true)
            },
            Err(error) => {
                &&& error@ == SecureErrorView::Signing
                &&& public_key_text(keys.sign_secret()) is Some
                &&& public_key_text(keys.crypt_secret()) is Some
                &&& signature_text(
                    keys.sign_secret(),
                    keys_data(
                        public_key_text(keys.sign_secret())->0,
                        public_key_text(keys.crypt_secret())->0,
                        now_ms,
                    ),
                ) is None
            },
        },
{
    let sign_public_key = match keys.sign_public_key_der_b64() {
        Ok(key) => key,
        Err(error) => return Err(error),
    };
    let crypt_public_key = match keys.crypt_public_key_der_b64() {
        Ok(key) => key,
        Err(error) => return Err(error),
    };
    let data = keys_sign_data(sign_public_key.as_str(), crypt_public_key.as_str(), now_ms);
    match keys.sign(data.as_slice()) {
        Ok(signature) => Ok(
            KeyExchangeResponse { sign_public_key, crypt_public_key, timestamp: now_ms, signature },
        ),
        Err(error) => Err(error),
    }
}

/// Says whether a confirmation is signed with the key.
pub fn verify_trust_confirm(sign_public_key: &str, request: &TrustConfirmRequest) -> (holds: Result<
    bool,
    SecureError,
>)
    ensures
        error_view(holds) == verification(
            sign_public_key@,
            request.signature@,
            time_data(request.timestamp),
        ),
{
    let time = text::signed_text(request.timestamp);
    verify_signature(sign_public_key, request.signature.as_str(), time.as_str().as_bytes())
}

/// The server's confirmation: the time, signed.
pub fn build_trust_confirm_response(keys: &ServerKeys, now_ms: i64) -> (response: Result<
    TrustConfirmResponse,
    SecureError,
>)
    ensures
        match response {
            Ok(response) => {
                &&& response.timestamp == now_ms
                &&& signature_text(keys.sign_secret(), time_data(now_ms)) == Some(
                    response.signature@,
                )
                &&& is_accepted(keys.sign_secret(), response.signature@, time_data(now_ms))
            },
            Err(error) => {
                &&& error@ == SecureErrorView::Signing
                &&& signature_text(keys.sign_secret(), time_data(now_ms)) is None
            },
        },
{
    let time = text::signed_text(now_ms);
    match keys.sign(time.as_str().as_bytes()) {
        Ok(signature) => Ok(TrustConfirmResponse { timestamp: now_ms, signature }),
        Err(error) => Err(error),
    }
}

/// The short code of a digest: its first four bytes as a number, without the highest bit, and of
/// that the last six decimal digits.
pub open spec fn short_code(digest: Seq<u8>) -> nat {
    bytes::be32_value(digest) % 0x8000_0000 % 1_000_000
}

/// The short code that two public keys agree on, whichever side works it out.
pub open spec fn sas_of(local: Seq<u8>, remote: Seq<u8>) -> nat {
    if bytes::bytes_le(local, remote) {
        short_code(codec::sha256_of(local + remote))
    } else {
        short_code(codec::sha256_of(remote + local))
    }
}

/// Both sides of a pairing show the same code, and it has at most six digits.
pub proof fn law_sas_agrees(local: Seq<u8>, remote: Seq<u8>)
    ensures
        sas_of(local, remote) == sas_of(remote, local),
        sas_of(local, remote) < 1_000_000,
{
    bytes::lemma_bytes_le_total(local, remote);
}

/// The short code of a digest.
pub fn code_of_digest(digest: &[u8; 32]) -> (code: u32)
    ensures
        code == short_code(digest@),
{
    let value = bytes::be32_at(digest.as_slice(), 0);
    assert(value & 0x7fff_ffff == value % 0x8000_0000) by (bit_vector);
    (value & 0x7fff_ffff) % 1_000_000
}

/// The short code that two public keys agree on.
pub fn compute_sas(local_public_key: &[u8], remote_public_key: &[u8]) -> (code: u32)
    ensures
        code == sas_of(local_public_key@, remote_public_key@),
        code < 1_000_000,
{
    let (first, second) = if bytes::not_after(local_public_key, remote_public_key) {
        (local_public_key, remote_public_key)
    } else {
        (remote_public_key, local_public_key)
    };
    let mut both = bytes::copy(first);
    bytes::extend(&mut both, second);
    let digest = codec::sha256(both.as_slice());
    code_of_digest(&digest)
}

/// Of two public key documents the one that stands first, byte by byte, is hashed before the other,
/// whichever side works out the code. The code is the first four bytes of the hash as a number, the
/// most significant first and without its highest bit, and of that the last six decimal digits.
pub proof fn law_sas_of_ordered_keys(first: Seq<u8>, second: Seq<u8>, place: int)
    requires
        0 <= place <= first.len(),
        place <= second.len(),
        forall|i: int| 0 <= i < place ==> first[i] == second[i],
        place == first.len() || (place < second.len() && first[place] < second[place]),
    ensures
        ({
            let digest = codec::sha256_of(first + second);
            let number = (((digest[0] % 128) * 256 + digest[1]) * 256 + digest[2]) * 256 + digest[3];
            &&& sas_of(first, second) == number % 1_000_000
            &&& sas_of(second, first) == number % 1_000_000
        }),
{
    bytes::law_order(first, second, place);
    let digest = codec::sha256_of(first + second);
    let high = digest[0];
    assert(high == high / 128 * 128 + high % 128) by (bit_vector);
    let low = (((high % 128) * 256 + digest[1]) * 256 + digest[2]) * 256 + digest[3];
    assert(bytes::be32_value(digest) == (high / 128) * 0x8000_0000 + low);
    assert(0 <= low < 0x8000_0000);
    assert(high / 128 == 0 || high / 128 == 1) by (bit_vector);
    assert(bytes::be32_value(digest) % 0x8000_0000 == low);
}

proof fn lemma_same_utf8(a: Seq<char>, b: Seq<char>)
    requires
        text::utf8(a) == text::utf8(b),
    ensures
        a == b,
{
    vstd::utf8::encode_utf8_decode_utf8(a);
    vstd::utf8::encode_utf8_decode_utf8(b);
}

/// What a client signs to pair by token is its two keys, then the token in decimal, then the time in
/// decimal, and nothing else. So under the same keys a signature for one token or one time is none
/// for another.
pub proof fn law_pairing_request_data(request: PairingRequest, other: PairingRequest)
    ensures
        ({
            let data = pairing_request_data(request);
            let keys = text::utf8(request.sign_public_key@) + text::utf8(request.crypt_public_key@);
            let token = text::utf8(text::decimal(request.token as int));
            let time = text::utf8(text::decimal(request.timestamp as int));
            &&& data.len() == keys.len() + token.len() + time.len()
            &&& data.take(keys.len() as int) == keys
            &&& data.subrange(keys.len() as int, (keys.len() + token.len()) as int) == token
            &&& data.skip((keys.len() + token.len()) as int) == time
        }),
        pairing_request_data(request) == pairing_request_data(other) && request.sign_public_key@
            == other.sign_public_key@ && request.crypt_public_key@ == other.crypt_public_key@ ==> (
        request.token == other.token <==> request.timestamp == other.timestamp),
{
    let sign = request.sign_public_key@;
    let crypt = request.crypt_public_key@;
    let token = text::decimal(request.token as int);
    let time = text::decimal(request.timestamp as int);
    text::lemma_utf8_concat(sign, crypt);
    text::lemma_utf8_concat(sign + crypt, token);
    text::lemma_utf8_concat(sign + crypt + token, time);
    let data = pairing_request_data(request);
    let keys = text::utf8(sign) + text::utf8(crypt);
    assert(data =~= keys + text::utf8(token) + text::utf8(time));
    assert(data.take(keys.len() as int) =~= keys);
    assert(data.subrange(keys.len() as int, (keys.len() + text::utf8(token).len()) as int) =~= text::utf8(
        token,
    ));
    assert(data.skip((keys.len() + text::utf8(token).len()) as int) =~= text::utf8(time));
    if pairing_request_data(other) == data && sign == other.sign_public_key@ && crypt
        == other.crypt_public_key@ {
        let other_token = text::decimal(other.token as int);
        let other_time = text::decimal(other.timestamp as int);
        let whole = sign + crypt + token + time;
        let other_whole = sign + crypt + other_token + other_time;
        lemma_same_utf8(whole, other_whole);
        let start = (sign + crypt).len() as int;
        text::law_decimal(request.token as int);
        text::law_decimal(request.timestamp as int);
        if request.timestamp == other.timestamp {
            assert(token =~= whole.subrange(start, start + token.len()));
            assert(other_token =~= other_whole.subrange(start, start + other_token.len()));
            assert(text::decimal(other.token as int) == text::decimal(request.token as int));
        }
        if request.token == other.token {
            assert(time =~= whole.skip(start + token.len()));
            assert(other_time =~= other_whole.skip(start + token.len()));
            assert(text::decimal(other.timestamp as int) == text::decimal(
                request.timestamp as int,
            ));
        }
    }
}

/// What is signed in an exchange of keys is the key that checks signatures, then the other key, then
/// the time in decimal, and nothing else; what is signed to confirm is the time in decimal. A
/// signature for one time is none for another.
pub proof fn law_keys_data(sign_key: Seq<char>, crypt_key: Seq<char>, timestamp: i64, other: i64)
    ensures
        ({
            let data = keys_data(sign_key, crypt_key, timestamp);
            let sign = text::utf8(sign_key);
            let crypt = text::utf8(crypt_key);
            &&& data.len() == sign.len() + crypt.len() + time_data(timestamp).len()
            &&& data.take(sign.len() as int) == sign
            &&& data.subrange(sign.len() as int, (sign.len() + crypt.len()) as int) == crypt
            &&& data.skip((sign.len() + crypt.len()) as int) == time_data(timestamp)
        }),
        vstd::utf8::decode_utf8(time_data(timestamp)) == text::decimal(timestamp as int),
        time_data(timestamp) == time_data(other) ==> timestamp == other,
        keys_data(sign_key, crypt_key, timestamp) == keys_data(sign_key, crypt_key, other)
            ==> timestamp == other,
{
    let time = text::decimal(timestamp as int);
    text::lemma_utf8_concat(sign_key, crypt_key);
    text::lemma_utf8_concat(sign_key + crypt_key, time);
    text::lemma_utf8_concat(sign_key + crypt_key, text::decimal(other as int));
    let data = keys_data(sign_key, crypt_key, timestamp);
    let sign = text::utf8(sign_key);
    let crypt = text::utf8(crypt_key);
    assert(data =~= sign + crypt + time_data(timestamp));
    assert(data.take(sign.len() as int) =~= sign);
    assert(data.subrange(sign.len() as int, (sign.len() + crypt.len()) as int) =~= crypt);
    assert(data.skip((sign.len() + crypt.len()) as int) =~= time_data(timestamp));
    vstd::utf8::encode_utf8_decode_utf8(time);
    text::law_decimal(timestamp as int);
    if time_data(timestamp) == time_data(other) {
        lemma_same_utf8(time, text::decimal(other as int));
    }
    if data == keys_data(sign_key, crypt_key, other) {
        assert(data.skip((sign.len() + crypt.len()) as int) =~= time_data(other));
        lemma_same_utf8(time, text::decimal(other as int));
    }
}

/// A signature is checked with the point of the key's document and the numbers of the signature's
/// document; where one of the four cannot be read, nothing is said of the signature.
pub proof fn law_verification(
    key: Seq<char>,
    signature: Seq<char>,
    data: Seq<u8>,
    key_document: Seq<u8>,
    point: Seq<u8>,
    signature_document: Seq<u8>,
    numbers: Seq<u8>,
)
    ensures
        codec::base64_decoded(key) == Ok::<Seq<u8>, Seq<char>>(key_document) && public_point(
            key_document,
        ) == Ok::<Seq<u8>, Seq<char>>(point) && codec::base64_decoded(signature) == Ok::<
            Seq<u8>,
            Seq<char>,
        >(signature_document) && signature_numbers(signature_document) == Ok::<Seq<u8>, Seq<char>>(
            numbers,
        ) ==> (verification(key, signature, data) matches Ok(holds) && (holds <==> signature_holds(
            point,
            data,
            numbers,
        ))),
        codec::base64_decoded(key) is Err || codec::base64_decoded(signature) is Err
            ==> verification(key, signature, data) is Err,
        codec::base64_decoded(key) == Ok::<Seq<u8>, Seq<char>>(key_document) && public_point(
            key_document,
        ) is Err ==> verification(key, signature, data) is Err,
        codec::base64_decoded(signature) == Ok::<Seq<u8>, Seq<char>>(signature_document)
            && signature_numbers(signature_document) is Err ==> verification(key, signature, data)
            is Err,
{
}

/// A sealed payload begins with its initial block of 16 bytes; what follows is decrypted under the
/// key with that block. Anything shorter is no payload.
pub proof fn law_opened(key: Seq<u8>, iv: Seq<u8>, data: Seq<u8>, plaintext: Seq<u8>)
    ensures
        iv.len() == 16 ==> {
            &&& sealed(key, iv, plaintext).take(16) == iv
            &&& sealed(key, iv, plaintext).skip(16) == aes_cbc_encrypted(key, iv, plaintext)
            &&& aes_cbc_decrypted(key, iv, data) == Some(plaintext) ==> (opened(
                Ok(key),
                iv + data,
            ) matches Ok(read) && read == plaintext)
            &&& aes_cbc_decrypted(key, iv, data) is None ==> opened(Ok(key), iv + data) is Err
        },
        iv.len() < 16 ==> opened(Ok(key), iv) is Err,
{
    if iv.len() == 16 {
        assert((iv + data).take(16) =~= iv);
        assert((iv + data).skip(16) =~= data);
        assert(sealed(key, iv, plaintext).take(16) =~= iv);
        assert(sealed(key, iv, plaintext).skip(16) =~= aes_cbc_encrypted(key, iv, plaintext));
    }
}

/// The key that is shared with a client is what the secret number and the point of the client's
/// document agree on; there is none where the document cannot be read.
pub proof fn law_shared_key(secret: Seq<u8>, document: Seq<u8>, point: Seq<u8>)
    ensures
        public_point(document) == Ok::<Seq<u8>, Seq<char>>(point) ==> (shared_key_of(
            secret,
            document,
        ) matches Ok(key) && (agreed_secret(secret, point) matches Some(agreed) ==> key == agreed)),
        public_point(document) is Err ==> shared_key_of(secret, document) is Err,
{
}

/// A public key and a signature are handed out as the Base64 of their documents.
pub proof fn law_key_texts(secret: Seq<u8>, data: Seq<u8>, document: Seq<u8>)
    ensures
        public_document(secret) == Some(document) ==> (public_key_text(secret) matches Some(key)
            && key == codec::base64_encoded(document)),
        signature_document(secret, data) == Some(document) ==> (signature_text(
            secret,
            data,
        ) matches Some(signature) && signature == codec::base64_encoded(document)),
{
}

/// A signature that is accepted under the key of a secret number holds wherever that key is given as
/// text.
pub proof fn law_accepted_signature(
    secret: Seq<u8>,
    signature: Seq<char>,
    data: Seq<u8>,
    key: Seq<char>,
    document: Seq<u8>,
)
    requires
        is_accepted(secret, signature, data),
    ensures
        codec::base64_decoded(key) == Ok::<Seq<u8>, Seq<char>>(document) && public_document(secret)
            == Some(document) && public_point(document) is Ok ==> verification(key, signature, data)
            == Ok::<bool, SecureErrorView>(true),
{
}

/// Good keys have 32 bytes, can be kept and handed out, and agree on a secret with every client whose
/// key can be read.
pub proof fn law_good_keys(keys: ServerKeys, document: Seq<u8>)
    requires
        keys.are_good(),
    ensures
        keys.sign_secret().len() == 32,
        keys.crypt_secret().len() == 32,
        pkcs8_document(keys.sign_secret()) is Some,
        pkcs8_document(keys.crypt_secret()) is Some,
        public_key_text(keys.sign_secret()) is Some,
        public_key_text(keys.crypt_secret()) is Some,
        public_point(document) is Ok ==> keys.shared_with(document) is Ok && agreed_secret(
            keys.crypt_secret(),
            public_point(document)->Ok_0,
        ) == Some(keys.shared_with(document)->Ok_0),
{
}

/// Two documents give keys exactly where both can be read: the first signs, and the second agrees on
/// keys. Where one cannot, the first that cannot is named.
pub proof fn law_key_documents(keys: ServerKeys, sign: Seq<u8>, crypt: Seq<u8>)
    ensures
        are_documents_of(keys, sign, crypt) <==> {
            &&& pkcs8_secret(sign) is Ok && pkcs8_secret(sign)->Ok_0 == keys.sign_secret()
            &&& pkcs8_secret(crypt) is Ok && pkcs8_secret(crypt)->Ok_0 == keys.crypt_secret()
        },
        unreadable_document(sign, crypt) is None <==> pkcs8_secret(sign) is Ok && pkcs8_secret(
            crypt,
        ) is Ok,
        pkcs8_secret(sign) matches Err(words) ==> unreadable_document(sign, crypt) == Some(
            SecureErrorView::PrivateKey(words),
        ),
        pkcs8_secret(sign) is Ok ==> (pkcs8_secret(crypt) matches Err(words)
            ==> unreadable_document(sign, crypt) == Some(SecureErrorView::PrivateKey(words))),
{
}

/// An error about something that cannot be read has the words of what reads it.
pub proof fn law_secure_words(words: Seq<char>)
    ensures
        SecureErrorView::Base64(words).words() == words,
        SecureErrorView::PrivateKey(words).words() == words,
        SecureErrorView::PublicKey(words).words() == words,
        SecureErrorView::Signature(words).words() == words,
{
}

/// A result tells its value or its error, and neither is exchanged for the other.
pub proof fn law_result_views(
    bytes: Result<Vec<u8>, SecureError>,
    text: Result<String, SecureError>,
    holds: Result<bool, SecureError>,
    value: Option<Seq<char>>,
    error: SecureErrorView,
)
    ensures
        bytes matches Ok(read) ==> bytes_or(bytes) is Ok && bytes_or(bytes)->Ok_0 == read@,
        bytes matches Err(reason) ==> bytes_or(bytes) is Err && bytes_or(bytes)->Err_0 == reason@,
        text matches Ok(read) ==> text_or(text) is Ok && text_or(text)->Ok_0 == read@,
        text matches Err(reason) ==> text_or(text) is Err && text_or(text)->Err_0 == reason@,
        holds matches Ok(read) ==> error_view(holds) is Ok && error_view(holds)->Ok_0 == read,
        holds matches Err(reason) ==> error_view(holds) is Err && error_view(holds)->Err_0
            == reason@,
        some_or(value, error) is Ok <==> value is Some,
        value matches Some(read) ==> some_or(value, error)->Ok_0 == read,
        value is None ==> some_or(value, error)->Err_0 == error,
{
}

} // verus!
