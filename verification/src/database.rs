//! What the server keeps, and the rules by which it does: accounts and their passwords, paired
//! clients, settings and logs.
use argon2::password_hash::rand_core::OsRng;
use argon2::password_hash::{PasswordHash, PasswordHasher, PasswordVerifier, SaltString};
use argon2::Argon2;
use vstd::prelude::*;

use crate::secure;
use crate::secure::{decode_public_key_b64, SecureError, SecureErrorView, ServerKeys};
use crate::text;

verus! {

/// The account that a new server has.
pub const DEFAULT_ADMIN_USERNAME: &'static str = "admin";

/// The password of that account, which has to be changed first of all.
pub const DEFAULT_ADMIN_PASSWORD: &'static str = "CrossPaste@123";

/// How many bytes a password that can be hashed has at most.
pub const MAX_HASHED_BYTES: u64 = 4_294_967_295;

/// What is said of a password that cannot be hashed.
pub const PASSWORD_INVALID: &'static str = "invalid password";

/// How many request log entries are kept where the settings do not say.
pub const DEFAULT_LOG_RETENTION: usize = 10_000;

/// How many request log entries are read at once at most.
pub const MAX_LOG_PAGE: usize = 1000;

/// The settings of a new server.
pub const DEFAULT_SETTINGS: [(&'static str, &'static str); 12] = [
    ("encrypt_sync", "true"),
    ("limit_file_size", "true"),
    ("max_file_size_mb", "512"),
    ("clipboard_relay", "true"),
    ("sync_text", "true"),
    ("sync_url", "true"),
    ("sync_html", "true"),
    ("sync_rtf", "true"),
    ("sync_image", "true"),
    ("sync_file", "true"),
    ("sync_color", "true"),
    ("log_retention_count", "10000"),
];

/// A paired client as it is kept.
#[derive(Debug)]
pub struct StoredClient {
    pub app_instance_id: String,
    pub paired_at_ms: i64,
    pub crypt_public_key: Vec<u8>,
    pub sync_info_json: Option<String>,
    pub last_seen_ms: Option<i64>,
}

/// A [`StoredClient`] with its texts by their characters.
#[verifier::ext_equal]
pub struct StoredClientView {
    pub app_instance_id: Seq<char>,
    pub paired_at_ms: i64,
    pub crypt_public_key: Seq<u8>,
    pub sync_info_json: Option<Seq<char>>,
    pub last_seen_ms: Option<i64>,
}

impl View for StoredClient {
    type V = StoredClientView;

    open spec fn view(&self) -> StoredClientView {
        StoredClientView {
            app_instance_id: self.app_instance_id@,
            paired_at_ms: self.paired_at_ms,
            crypt_public_key: self.crypt_public_key@,
            sync_info_json: text::optional(self.sync_info_json),
            last_seen_ms: self.last_seen_ms,
        }
    }
}

/// An account.
#[derive(Debug)]
pub struct AdminUser {
    pub username: String,
    pub must_change_password: bool,
    pub mfa_enabled: bool,
}

/// An [`AdminUser`] with its texts by their characters.
#[verifier::ext_equal]
pub struct AdminUserView {
    pub username: Seq<char>,
    pub must_change_password: bool,
    pub mfa_enabled: bool,
}

impl View for AdminUser {
    type V = AdminUserView;

    open spec fn view(&self) -> AdminUserView {
        AdminUserView {
            username: self.username@,
            must_change_password: self.must_change_password,
            mfa_enabled: self.mfa_enabled,
        }
    }
}

impl Clone for AdminUser {
    fn clone(&self) -> (copy: Self)
        ensures
            copy == *self,
    {
        AdminUser {
            username: self.username.clone(),
            must_change_password: self.must_change_password,
            mfa_enabled: self.mfa_enabled,
        }
    }
}

/// An account with what only the server knows of it.
#[derive(Debug)]
pub struct AdminUserSecret {
    pub user: AdminUser,
    pub password_hash: String,
    pub mfa_secret: Option<String>,
}

/// An entry of the audit log.
#[derive(Debug)]
pub struct AuditLog {
    pub id: i64,
    pub username: Option<String>,
    pub action: String,
    pub detail: String,
    pub remote_addr: Option<String>,
    pub created_at_ms: i64,
}

/// An entry of the request log.
#[derive(Debug)]
pub struct RequestLog {
    pub id: i64,
    pub method: String,
    pub path: String,
    pub status: u16,
    pub remote_addr: String,
    pub client_id: Option<String>,
    pub target_id: Option<String>,
    pub secure: bool,
    pub elapsed_ms: i64,
    pub created_at_ms: i64,
}

/// Whether `Argon2::verify_password` accepts the password under a hash, parsed by
/// `PasswordHash::new`.
pub uninterp spec fn password_matches(password: Seq<char>, hash: Seq<char>) -> bool;

/// How the text of an Argon2id hash begins.
pub const ARGON2ID_PREFIX: &'static str = "$argon2id$";

/// Whether the text is an Argon2id hash under which the password is accepted.
pub open spec fn is_hash_of(hash: Seq<char>, password: Seq<char>) -> bool {
    &&& text::stands_at(hash, 0, ARGON2ID_PREFIX@)
    &&& password_matches(password, hash)
}

/// Whether a password is short enough to be hashed.
pub open spec fn can_be_hashed(password: Seq<char>) -> bool {
    text::utf8(password).len() <= MAX_HASHED_BYTES
}

/// `Argon2::hash_password` with the default parameters, under a salt of `SaltString::generate`: some
/// hash, whose text names Argon2id first of all, and under which the password is accepted again. The
/// salt is random. Only a password that is too long is refused, and it is called invalid.
#[verifier::external_body]
pub fn hash_password(password: &str) -> (hash: Result<String, String>)
    ensures
        hash is Ok <==> can_be_hashed(password@),
        match hash {
            Ok(hash) => is_hash_of(hash@, password@),
            Err(words) => words@ == PASSWORD_INVALID@,
        },
{
    match Argon2::default()
        .hash_password(password.as_bytes(), &SaltString::generate(&mut OsRng)) {
        Ok(hash) => Ok(hash.to_string()),
        Err(error) => Err(error.to_string()),
    }
}

/// `Argon2::verify_password` under a hash, parsed by `PasswordHash::new`; a text that is no hash
/// accepts nothing.
#[verifier::external_body]
pub fn verify_password(password: &str, hash: &str) -> (matches: bool)
    ensures
        matches == password_matches(password@, hash@),
{
    PasswordHash::new(hash).is_ok_and(
        |parsed| Argon2::default().verify_password(password.as_bytes(), &parsed).is_ok(),
    )
}

/// How many request log entries are kept, given the setting.
pub open spec fn retention(setting: Option<Seq<char>>) -> usize {
    match setting {
        Some(value) => match text::parse_nat(value) {
            Some(count) if count <= usize::MAX => count as usize,
            _ => DEFAULT_LOG_RETENTION,
        },
        None => DEFAULT_LOG_RETENTION,
    }
}

/// How many request log entries are kept, given the setting.
pub fn log_retention(setting: Option<&str>) -> (count: usize)
    ensures
        count == retention(text::optional_str(setting)),
{
    match setting {
        Some(value) => match text::parse_unsigned(value, usize::MAX as u64) {
            Some(count) => count as usize,
            None => DEFAULT_LOG_RETENTION,
        },
        None => DEFAULT_LOG_RETENTION,
    }
}

/// How many request log entries are read at once, given how many are asked for.
pub fn log_page(limit: usize) -> (count: usize)
    ensures
        count == if limit < MAX_LOG_PAGE {
            limit
        } else {
            MAX_LOG_PAGE
        },
{
    if limit < MAX_LOG_PAGE {
        limit
    } else {
        MAX_LOG_PAGE
    }
}

/// The account that is put in where there is none: its password has to be changed first of all.
pub fn default_admin() -> (account: Result<AdminUserSecret, String>)
    ensures
        account is Ok,
        account matches Ok(account) ==> {
            &&& account.user@ == (AdminUserView {
                username: DEFAULT_ADMIN_USERNAME@,
                must_change_password: true,
                mfa_enabled: false,
            })
            &&& is_hash_of(account.password_hash@, DEFAULT_ADMIN_PASSWORD@)
            &&& account.mfa_secret is None
        },
{
    proof {
        reveal_strlit("CrossPaste@123");
        vstd::utf8::is_ascii_chars_encode_utf8(DEFAULT_ADMIN_PASSWORD@);
    }
    match hash_password(DEFAULT_ADMIN_PASSWORD) {
        Ok(password_hash) => Ok(
            AdminUserSecret {
                user: AdminUser {
                    username: DEFAULT_ADMIN_USERNAME.to_owned(),
                    must_change_password: true,
                    mfa_enabled: false,
                },
                password_hash,
                mfa_secret: None,
            },
        ),
        Err(words) => Err(words),
    }
}

/// The account with another password, which then need not be changed any more. Only a password that
/// cannot be hashed is refused.
pub fn with_new_password(account: &AdminUserSecret, password: &str) -> (updated: Result<
    AdminUserSecret,
    String,
>)
    ensures
        updated is Ok <==> can_be_hashed(password@),
        match updated {
            Ok(updated) => {
                &&& updated.user@ == (AdminUserView {
                    must_change_password: false,
                    ..account.user@
                })
                &&& is_hash_of(updated.password_hash@, password@)
                &&& text::optional(updated.mfa_secret) == text::optional(account.mfa_secret)
            },
            Err(words) => words@ == PASSWORD_INVALID@,
        },
{
    match hash_password(password) {
        Ok(password_hash) => Ok(
            AdminUserSecret {
                user: AdminUser {
                    username: account.user.username.clone(),
                    must_change_password: false,
                    mfa_enabled: account.user.mfa_enabled,
                },
                password_hash,
                mfa_secret: text::copy_optional(&account.mfa_secret),
            },
        ),
        Err(words) => Err(words),
    }
}

/// Whether a session that lasts until then is good at that time.
pub fn session_is_live(expires_at_ms: i64, now_ms: i64) -> (live: bool)
    ensures
        live == (expires_at_ms >= now_ms),
{
    expires_at_ms >= now_ms
}

/// Two private keys as PKCS#8 documents: the one that signs, and the one that agrees on keys.
#[derive(Debug)]
pub struct KeyDocuments {
    pub sign: Vec<u8>,
    pub crypt: Vec<u8>,
}

/// The server's keys, and the documents that are yet to be kept, if any.
pub struct KeyChoice {
    pub keys: ServerKeys,
    pub to_save: Option<KeyDocuments>,
}

/// The server's keys: those of the documents that are kept, or else new ones, which are then to be
/// kept. What is to be kept reads back as the same keys, and the keys are good either way.
pub fn load_or_create_server_keys(kept: Option<KeyDocuments>) -> (choice: Result<
    KeyChoice,
    SecureError,
>)
    ensures
        match kept {
            Some(documents) => match choice {
                Ok(choice) => {
                    &&& choice.to_save is None
                    &&& secure::are_documents_of(choice.keys, documents.sign@, documents.crypt@)
                    &&& choice.keys.are_good()
                },
                Err(error) => secure::unreadable_document(documents.sign@, documents.crypt@)
                    == Some(error@),
            },
            None => {
                &&& choice matches Ok(choice)
                &&& choice.to_save matches Some(documents)
                &&& secure::are_documents_of(choice.keys, documents.sign@, documents.crypt@)
                &&& choice.keys.are_good()
            },
        },
{
    match kept {
        Some(documents) => match ServerKeys::from_pkcs8(
            documents.sign.as_slice(),
            documents.crypt.as_slice(),
        ) {
            Ok(keys) => Ok(KeyChoice { keys, to_save: None }),
            Err(error) => Err(error),
        },
        None => {
            let keys = ServerKeys::generate();
            match keys.private_keys_pkcs8() {
                Ok((sign, crypt)) => Ok(
                    KeyChoice { keys, to_save: Some(KeyDocuments { sign, crypt }) },
                ),
                Err(error) => Err(error),
            }
        },
    }
}

/// The state file of servers that had no database.
#[derive(Debug)]
pub struct LegacyHub {
    pub sign_private_key: String,
    pub crypt_private_key: String,
    pub clients: Vec<LegacyClient>,
}

/// A paired client in that file.
#[derive(Debug)]
pub struct LegacyClient {
    pub app_instance_id: String,
    pub paired_at_ms: i64,
    pub crypt_public_key: String,
}

/// Whether the state file is taken over: only by a server that has no keys yet.
pub fn takes_over_legacy(has_keys: bool, file_exists: bool) -> (takes: bool)
    ensures
        takes == (!has_keys && file_exists),
{
    !has_keys && file_exists
}

/// The private keys in the state file.
pub fn legacy_keys(legacy: &LegacyHub) -> (documents: Result<KeyDocuments, SecureError>)
    ensures
        match documents {
            Ok(documents) => {
                &&& secure::decoded_key(legacy.sign_private_key@) == Ok::<
                    Seq<u8>,
                    SecureErrorView,
                >(documents.sign@)
                &&& secure::decoded_key(legacy.crypt_private_key@) == Ok::<
                    Seq<u8>,
                    SecureErrorView,
                >(documents.crypt@)
            },
            Err(error) => match secure::decoded_key(legacy.sign_private_key@) {
                Err(unreadable) => error@ == unreadable,
                Ok(_) => secure::decoded_key(legacy.crypt_private_key@) == Err::<
                    Seq<u8>,
                    SecureErrorView,
                >(error@),
            },
        },
{
    match decode_public_key_b64(legacy.sign_private_key.as_str()) {
        Ok(sign) => match decode_public_key_b64(legacy.crypt_private_key.as_str()) {
            Ok(crypt) => Ok(KeyDocuments { sign, crypt }),
            Err(error) => Err(error),
        },
        Err(error) => Err(error),
    }
}

/// A paired client of the state file as it is kept from then on.
pub fn legacy_client(client: &LegacyClient) -> (stored: Result<StoredClient, SecureError>)
    ensures
        match stored {
            Ok(stored) => {
                &&& stored@ == (StoredClientView {
                    app_instance_id: client.app_instance_id@,
                    paired_at_ms: client.paired_at_ms,
                    crypt_public_key: stored.crypt_public_key@,
                    sync_info_json: None,
                    last_seen_ms: None,
                })
                &&& secure::decoded_key(client.crypt_public_key@) == Ok::<Seq<u8>, SecureErrorView>(
                    stored.crypt_public_key@,
                )
            },
            Err(error) => secure::decoded_key(client.crypt_public_key@) == Err::<
                Seq<u8>,
                SecureErrorView,
            >(error@),
        },
{
    match decode_public_key_b64(client.crypt_public_key.as_str()) {
        Ok(crypt_public_key) => Ok(
            StoredClient {
                app_instance_id: client.app_instance_id.clone(),
                paired_at_ms: client.paired_at_ms,
                crypt_public_key,
                sync_info_json: None,
                last_seen_ms: None,
            },
        ),
        Err(error) => Err(error),
    }
}

/// As many request log entries are kept as the setting says in decimal; where it says no number, ten
/// thousand are.
pub proof fn law_retention(count: usize, other: Seq<char>)
    ensures
        retention(Some(text::decimal(count as int))) == count,
        retention(None) == 10_000,
        text::parse_nat(other) is None ==> retention(Some(other)) == 10_000,
        text::parse_nat(other) matches Some(number) ==> (number <= usize::MAX ==> retention(
            Some(other),
        ) == number),
{
    text::law_decimal(count as int);
}

/// A kept hash names Argon2id first of all and accepts the password that it was made of; a password
/// can be hashed where its bytes can be counted in 32 bits.
pub proof fn law_hash(hash: Seq<char>, password: Seq<char>)
    ensures
        is_hash_of(hash, password) ==> hash.len() >= 10 && hash.take(10) == "$argon2id$"@
            && password_matches(password, hash),
        can_be_hashed(password) <==> text::utf8(password).len() < 0x1_0000_0000,
{
    reveal_strlit("$argon2id$");
}

} // verus!
