//! Administration: who gets in, what is accepted, and what is shown.
use vstd::prelude::*;

use crate::codec;
use crate::database;
use crate::database::{
    verify_password, AdminUser, AdminUserSecret, AdminUserView, StoredClient, StoredClientView,
    DEFAULT_ADMIN_PASSWORD,
};
use crate::headers;
use crate::headers::{Header, HeaderView};
use crate::hub::{Hub, HubView, PAIRING_TOKEN_TTL_MS};
use crate::protocol::DevicePublicInfo;
use crate::qr;
use crate::qr::render_qr_png;
use crate::random;
use crate::registry::{DeviceSession, DeviceSessionView, Registry, RegistryView};
use crate::sort;
use crate::sort::Ordered;
use crate::sync_info;
use crate::sync_info::{encode_qr_payload, HostInfo, HostInfoView, SyncInfo, SyncInfoView};
use crate::text;
use crate::totp;
use crate::totp::verify_totp;

verus! {

/// The cookie that holds the token of a session.
pub const SESSION_COOKIE: &'static str = "crosspaste_admin_session";

/// How long a session lasts, in milliseconds.
pub const SESSION_TTL_MS: i64 = 43_200_000;

/// How long after it was last heard of a client counts as online, in milliseconds.
pub const CLIENT_ONLINE_WINDOW_MS: i64 = 45_000;

/// How many random bytes the token of a session is made of.
pub const SESSION_TOKEN_LEN: usize = 32;

/// The shortest password, in characters.
pub const MIN_PASSWORD_LEN: usize = 12;

/// The longest password, in characters.
pub const MAX_PASSWORD_LEN: usize = 128;

/// The cookie that ends a session.
pub const CLEARED_COOKIE: &'static str =
    "crosspaste_admin_session=; Path=/; HttpOnly; SameSite=Strict; Max-Age=0";

/// What is wrong with a new password.
#[derive(Debug, Clone, Copy, PartialEq, Eq, Structural)]
pub enum PasswordFlaw {
    Mismatch,
    Length,
    Guessable,
    Simple,
}

/// What is wrong with settings.
#[derive(Debug, Clone, Copy, PartialEq, Eq, Structural)]
pub enum SettingsFlaw {
    UnknownKey,
    FileSize,
    LogRetention,
    Switch,
}

/// Why a request of an administrator is refused.
#[derive(Debug, Clone, Copy, PartialEq, Eq, Structural)]
pub enum AdminError {
    BadCredentials,
    BadMfaCode,
    InvalidLogin,
    WrongPassword,
    NewPassword(PasswordFlaw),
    SamePassword,
    NoMfaSecret,
    WrongCode,
    WrongPasswordOrCode,
    NotLoggedIn,
    SessionExpired,
    MustChangePassword,
    NewSettings(SettingsFlaw),
}

impl AdminError {
    /// The HTTP status of the refusal.
    pub open spec fn http_status(self) -> u16 {
        match self {
            AdminError::BadCredentials => 401,
            AdminError::BadMfaCode => 401,
            AdminError::InvalidLogin => 401,
            AdminError::NotLoggedIn => 401,
            AdminError::SessionExpired => 401,
            AdminError::MustChangePassword => 403,
            _ => 400,
        }
    }

    /// The refusal in words.
    pub open spec fn words(self) -> Seq<char> {
        match self {
            AdminError::BadCredentials => "用户名或密码错误"@,
            AdminError::BadMfaCode => "MFA 验证码错误"@,
            AdminError::InvalidLogin => "登录状态无效"@,
            AdminError::WrongPassword => "当前密码错误"@,
            AdminError::NewPassword(PasswordFlaw::Mismatch) => "两次输入的新密码不一致"@,
            AdminError::NewPassword(PasswordFlaw::Length) => {
                "密码长度必须为 12 到 128 个字符"@
            },
            AdminError::NewPassword(PasswordFlaw::Guessable) => {
                "密码不能使用默认密码或包含用户名"@
            },
            AdminError::NewPassword(PasswordFlaw::Simple) => {
                "密码必须同时包含大小写字母、数字和特殊字符"@
            },
            AdminError::SamePassword => "新密码不能与当前密码相同"@,
            AdminError::NoMfaSecret => "请先生成 MFA 密钥"@,
            AdminError::WrongCode => "验证码错误"@,
            AdminError::WrongPasswordOrCode => "密码或验证码错误"@,
            AdminError::NotLoggedIn => "请先登录"@,
            AdminError::SessionExpired => "登录已过期"@,
            AdminError::MustChangePassword => "首次登录必须修改密码"@,
            AdminError::NewSettings(SettingsFlaw::UnknownKey) => "包含未知设置项"@,
            AdminError::NewSettings(SettingsFlaw::FileSize) => {
                "最大文件大小必须在 1 到 102400 MB 之间"@
            },
            AdminError::NewSettings(SettingsFlaw::LogRetention) => {
                "日志存储上限必须在 1000 到 1000000 条之间"@
            },
            AdminError::NewSettings(SettingsFlaw::Switch) => "开关值必须为 true 或 false"@,
        }
    }

    /// The HTTP status of the refusal.
    pub fn status(&self) -> (status: u16)
        ensures
            status == self.http_status(),
    {
        match self {
            AdminError::BadCredentials => 401,
            AdminError::BadMfaCode => 401,
            AdminError::InvalidLogin => 401,
            AdminError::NotLoggedIn => 401,
            AdminError::SessionExpired => 401,
            AdminError::MustChangePassword => 403,
            _ => 400,
        }
    }

    /// The refusal in words.
    pub fn message(&self) -> (words: &'static str)
        ensures
            words@ == self.words(),
    {
        match self {
            AdminError::BadCredentials => "用户名或密码错误",
            AdminError::BadMfaCode => "MFA 验证码错误",
            AdminError::InvalidLogin => "登录状态无效",
            AdminError::WrongPassword => "当前密码错误",
            AdminError::NewPassword(PasswordFlaw::Mismatch) => "两次输入的新密码不一致",
            AdminError::NewPassword(PasswordFlaw::Length) => {
                "密码长度必须为 12 到 128 个字符"
            },
            AdminError::NewPassword(PasswordFlaw::Guessable) => {
                "密码不能使用默认密码或包含用户名"
            },
            AdminError::NewPassword(PasswordFlaw::Simple) => {
                "密码必须同时包含大小写字母、数字和特殊字符"
            },
            AdminError::SamePassword => "新密码不能与当前密码相同",
            AdminError::NoMfaSecret => "请先生成 MFA 密钥",
            AdminError::WrongCode => "验证码错误",
            AdminError::WrongPasswordOrCode => "密码或验证码错误",
            AdminError::NotLoggedIn => "请先登录",
            AdminError::SessionExpired => "登录已过期",
            AdminError::MustChangePassword => "首次登录必须修改密码",
            AdminError::NewSettings(SettingsFlaw::UnknownKey) => "包含未知设置项",
            AdminError::NewSettings(SettingsFlaw::FileSize) => {
                "最大文件大小必须在 1 到 102400 MB 之间"
            },
            AdminError::NewSettings(SettingsFlaw::LogRetention) => {
                "日志存储上限必须在 1000 到 1000000 条之间"
            },
            AdminError::NewSettings(SettingsFlaw::Switch) => "开关值必须为 true 或 false",
        }
    }
}

/// Whether a character with that property is in the text.
pub open spec fn has_any(text: Seq<char>, property: spec_fn(char) -> bool) -> bool {
    exists|i: int| 0 <= i < text.len() && property(#[trigger] text[i])
}

/// What is wrong with a new password for that account, if anything.
pub open spec fn password_flaw(
    username: Seq<char>,
    password: Seq<char>,
    confirmation: Seq<char>,
) -> Option<PasswordFlaw> {
    let len = password.len();
    if password != confirmation {
        Some(PasswordFlaw::Mismatch)
    } else if len < MIN_PASSWORD_LEN || len > MAX_PASSWORD_LEN {
        Some(PasswordFlaw::Length)
    } else if password == DEFAULT_ADMIN_PASSWORD@ || text::has_part(
        text::lower_text(password),
        text::lower_text(username),
    ) {
        Some(PasswordFlaw::Guessable)
    } else if has_any(password, |c: char| text::is_lower(c)) && has_any(
        password,
        |c: char| text::is_upper(c),
    ) && has_any(password, |c: char| text::is_digit(c)) && has_any(
        password,
        |c: char| !text::is_alphanumeric(c),
    ) {
        None
    } else {
        Some(PasswordFlaw::Simple)
    }
}

/// Which sorts of characters a text holds.
#[derive(Clone, Copy)]
struct Mixture {
    lower: bool,
    upper: bool,
    digit: bool,
    special: bool,
}

fn mixture(password: &str) -> (found: Mixture)
    ensures
        found.lower == has_any(password@, |c: char| text::is_lower(c)),
        found.upper == has_any(password@, |c: char| text::is_upper(c)),
        found.digit == has_any(password@, |c: char| text::is_digit(c)),
        found.special == has_any(password@, |c: char| !text::is_alphanumeric(c)),
{
    let chars = text::chars_of(password);
    let mut found = Mixture { lower: false, upper: false, digit: false, special: false };
    let mut i: usize = 0;
    while i < chars.len()
        invariant
            i <= chars@.len(),
            chars@ == password@,
            found.lower == exists|j: int| 0 <= j < i && text::is_lower(#[trigger] password@[j]),
            found.upper == exists|j: int| 0 <= j < i && text::is_upper(#[trigger] password@[j]),
            found.digit == exists|j: int| 0 <= j < i && text::is_digit(#[trigger] password@[j]),
            found.special == exists|j: int|
                0 <= j < i && !text::is_alphanumeric(#[trigger] password@[j]),
        decreases chars@.len() - i,
    {
        let c = chars[i];
        assert(c == password@[i as int]);
        if text::lower_case(c) {
            found.lower = true;
        }
        if text::upper(c) {
            found.upper = true;
        }
        if text::digit(c) {
            found.digit = true;
        }
        if !text::alphanumeric(c) {
            found.special = true;
        }
        i += 1;
    }
    found
}

/// Says whether a new password for that account is accepted.
pub fn validate_password(username: &str, password: &str, confirmation: &str) -> (outcome: Result<
    (),
    PasswordFlaw,
>)
    ensures
        (outcome == match password_flaw(username@, password@, confirmation@) {
            Some(flaw) => Err::<(), PasswordFlaw>(flaw),
            None => Ok::<(), PasswordFlaw>(()),
        }),
{
    if !text::same_text(password, confirmation) {
        return Err(PasswordFlaw::Mismatch);
    }
    let len = text::chars_of(password).len();
    if len < MIN_PASSWORD_LEN || len > MAX_PASSWORD_LEN {
        return Err(PasswordFlaw::Length);
    }
    let lowered = text::lower_chars(password);
    let name = text::lower_chars(username);
    if text::same_text(password, DEFAULT_ADMIN_PASSWORD) || text::has_part_in(
        lowered.as_slice(),
        name.as_slice(),
    ) {
        return Err(PasswordFlaw::Guessable);
    }
    let found = mixture(password);
    if found.lower && found.upper && found.digit && found.special {
        Ok(())
    } else {
        Err(PasswordFlaw::Simple)
    }
}

/// The keys that settings may have.
pub const SETTING_KEYS: [&'static str; 12] = [
    "encrypt_sync",
    "limit_file_size",
    "max_file_size_mb",
    "clipboard_relay",
    "sync_text",
    "sync_url",
    "sync_html",
    "sync_rtf",
    "sync_image",
    "sync_file",
    "sync_color",
    "log_retention_count",
];

/// The key of the largest file size, in megabytes.
pub const KEY_FILE_SIZE: &'static str = "max_file_size_mb";

/// The key of how many request log entries are kept.
pub const KEY_LOG_RETENTION: &'static str = "log_retention_count";

/// Whether settings may have that key.
pub open spec fn is_setting(key: Seq<char>) -> bool {
    exists|i: int| 0 <= i < 12 && (#[trigger] SETTING_KEYS@[i])@ == key
}

/// Whether the text is a whole number within those bounds.
pub open spec fn is_number_within(value: Seq<char>, low: nat, high: nat) -> bool {
    text::parse_nat(value) is Some && low <= text::parse_nat(value)->0 <= high
}

/// A setting with its texts by their characters.
pub open spec fn setting_views(settings: Seq<(String, String)>) -> Seq<(Seq<char>, Seq<char>)> {
    settings.map_values(|setting: (String, String)| (setting.0@, setting.1@))
}

/// What is wrong with one setting, whatever the others are.
pub open spec fn setting_flaw(key: Seq<char>, value: Seq<char>) -> Option<SettingsFlaw> {
    if !is_setting(key) {
        Some(SettingsFlaw::UnknownKey)
    } else if key == KEY_FILE_SIZE@ {
        if is_number_within(value, 1, 102_400) {
            None
        } else {
            Some(SettingsFlaw::FileSize)
        }
    } else if key == KEY_LOG_RETENTION@ {
        if is_number_within(value, 1000, 1_000_000) {
            None
        } else {
            Some(SettingsFlaw::LogRetention)
        }
    } else if value == "true"@ || value == "false"@ {
        None
    } else {
        Some(SettingsFlaw::Switch)
    }
}

/// Whether some setting has that flaw.
pub open spec fn some_setting_has(
    settings: Seq<(Seq<char>, Seq<char>)>,
    flaw: SettingsFlaw,
) -> bool {
    exists|i: int|
        0 <= i < settings.len() && setting_flaw((#[trigger] settings[i]).0, settings[i].1) == Some(
            flaw,
        )
}

/// What is wrong with settings, if anything; of several flaws the gravest is named.
pub open spec fn settings_flaw(settings: Seq<(Seq<char>, Seq<char>)>) -> Option<SettingsFlaw> {
    if some_setting_has(settings, SettingsFlaw::UnknownKey) {
        Some(SettingsFlaw::UnknownKey)
    } else if some_setting_has(settings, SettingsFlaw::FileSize) {
        Some(SettingsFlaw::FileSize)
    } else if some_setting_has(settings, SettingsFlaw::LogRetention) {
        Some(SettingsFlaw::LogRetention)
    } else if some_setting_has(settings, SettingsFlaw::Switch) {
        Some(SettingsFlaw::Switch)
    } else {
        None
    }
}

fn known_key(key: &str) -> (known: bool)
    ensures
        known == is_setting(key@),
{
    let keys = SETTING_KEYS;
    let mut i: usize = 0;
    while i < 12
        invariant
            i <= 12,
            keys == SETTING_KEYS,
            forall|j: int| 0 <= j < i ==> (#[trigger] keys@[j])@ != key@,
        decreases 12 - i,
    {
        if text::same_text(keys[i], key) {
            assert(SETTING_KEYS@[i as int]@ == key@);
            return true;
        }
        i += 1;
    }
    false
}

fn number_within(value: &str, low: u64, high: u64) -> (yes: bool)
    ensures
        yes == is_number_within(value@, low as nat, high as nat),
{
    match text::parse_unsigned(value, high) {
        Some(number) => low <= number,
        None => false,
    }
}

fn flaw_of(key: &str, value: &str) -> (flaw: Option<SettingsFlaw>)
    ensures
        flaw == setting_flaw(key@, value@),
{
    if !known_key(key) {
        Some(SettingsFlaw::UnknownKey)
    } else if text::same_text(key, KEY_FILE_SIZE) {
        if number_within(value, 1, 102_400) {
            None
        } else {
            Some(SettingsFlaw::FileSize)
        }
    } else if text::same_text(key, KEY_LOG_RETENTION) {
        if number_within(value, 1000, 1_000_000) {
            None
        } else {
            Some(SettingsFlaw::LogRetention)
        }
    } else if text::same_text(value, "true") || text::same_text(value, "false") {
        None
    } else {
        Some(SettingsFlaw::Switch)
    }
}

/// Says whether settings are accepted.
pub fn validate_settings(settings: &[(String, String)]) -> (outcome: Result<(), SettingsFlaw>)
    ensures
        (outcome == match settings_flaw(setting_views(settings@)) {
            Some(flaw) => Err::<(), SettingsFlaw>(flaw),
            None => Ok::<(), SettingsFlaw>(()),
        }),
{
    let ghost all = setting_views(settings@);
    let mut unknown = false;
    let mut file_size = false;
    let mut retention = false;
    let mut switch = false;
    let mut i: usize = 0;
    while i < settings.len()
        invariant
            i <= settings@.len(),
            all == setting_views(settings@),
            unknown == some_setting_has(all.take(i as int), SettingsFlaw::UnknownKey),
            file_size == some_setting_has(all.take(i as int), SettingsFlaw::FileSize),
            retention == some_setting_has(all.take(i as int), SettingsFlaw::LogRetention),
            switch == some_setting_has(all.take(i as int), SettingsFlaw::Switch),
        decreases settings@.len() - i,
    {
        let flaw = flaw_of(settings[i].0.as_str(), settings[i].1.as_str());
        proof {
            lemma_one_more_setting(all, i as int, SettingsFlaw::UnknownKey);
            lemma_one_more_setting(all, i as int, SettingsFlaw::FileSize);
            lemma_one_more_setting(all, i as int, SettingsFlaw::LogRetention);
            lemma_one_more_setting(all, i as int, SettingsFlaw::Switch);
        }
        match flaw {
            Some(SettingsFlaw::UnknownKey) => unknown = true,
            Some(SettingsFlaw::FileSize) => file_size = true,
            Some(SettingsFlaw::LogRetention) => retention = true,
            Some(SettingsFlaw::Switch) => switch = true,
            None => {},
        }
        i += 1;
    }
    assert(all.take(i as int) =~= all);
    if unknown {
        Err(SettingsFlaw::UnknownKey)
    } else if file_size {
        Err(SettingsFlaw::FileSize)
    } else if retention {
        Err(SettingsFlaw::LogRetention)
    } else if switch {
        Err(SettingsFlaw::Switch)
    } else {
        Ok(())
    }
}

proof fn lemma_one_more_setting(
    settings: Seq<(Seq<char>, Seq<char>)>,
    i: int,
    flaw: SettingsFlaw,
)
    requires
        0 <= i < settings.len(),
    ensures
        some_setting_has(settings.take(i + 1), flaw) == (some_setting_has(settings.take(i), flaw)
            || setting_flaw(settings[i].0, settings[i].1) == Some(flaw)),
{
    let shorter = settings.take(i);
    let longer = settings.take(i + 1);
    if some_setting_has(shorter, flaw) {
        let j = choose|j: int|
            0 <= j < shorter.len() && setting_flaw((#[trigger] shorter[j]).0, shorter[j].1) == Some(
                flaw,
            );
        assert(longer[j] == shorter[j]);
    }
    if some_setting_has(longer, flaw) {
        let j = choose|j: int|
            0 <= j < longer.len() && setting_flaw((#[trigger] longer[j]).0, longer[j].1) == Some(
                flaw,
            );
        if j < i {
            assert(shorter[j] == longer[j]);
        }
    }
    assert(longer[i] == settings[i]);
}

/// The bytes in lower-case hexadecimal digits.
pub fn hex(bytes: &[u8]) -> (digits: String)
    ensures
        digits@ == text::hex_text(bytes@),
{
    text::hex(bytes)
}

/// A text with all that is not plain in a URL escaped.
pub fn url_encode(value: &str) -> (encoded: String)
    ensures
        encoded@ == text::percent_text(text::utf8(value@)),
{
    text::percent_encode(value)
}

/// Whether the text is the hexadecimal form of so many bytes.
pub open spec fn is_hex_of(digits: Seq<char>, len: nat) -> bool {
    exists|bytes: Seq<u8>| bytes.len() == len && digits == #[trigger] text::hex_text(bytes)
}

/// A new token for a session.
pub fn random_token() -> (token: String)
    ensures
        is_hex_of(token@, SESSION_TOKEN_LEN as nat),
{
    let bytes = random::random_bytes(SESSION_TOKEN_LEN);
    let token = hex(bytes.as_slice());
    assert(token@ == text::hex_text(bytes@));
    token
}

/// What is kept of the token of a session: its digest, in hexadecimal digits.
pub open spec fn token_digest(token: Seq<char>) -> Seq<char> {
    text::hex_text(codec::sha256_of(text::utf8(token)))
}

/// What is kept of the token of a session.
pub fn token_hash(token: &str) -> (digest: String)
    ensures
        digest@ == token_digest(token@),
{
    let digest = codec::sha256(token.as_bytes());
    hex(digest.as_slice())
}

/// The value of a `name=value` pair with white space around it, if it has that name.
pub open spec fn pair_value(part: Seq<char>, name: Seq<char>) -> Option<Seq<char>> {
    let pair = text::trim(part);
    let place = text::place_of_char(pair, '=');
    if place < pair.len() && pair.take(place) == name {
        Some(pair.skip(place + 1))
    } else {
        None
    }
}

/// The value of the first cookie of that name in the text of a cookie header.
pub open spec fn cookie_in(cookies: Seq<char>, name: Seq<char>) -> Option<Seq<char>>
    decreases cookies.len(),
{
    let end = text::place_of_char(cookies, ';');
    match pair_value(cookies.take(end), name) {
        Some(value) => Some(value),
        None => if 0 <= end < cookies.len() {
            cookie_in(cookies.skip(end + 1), name)
        } else {
            None
        },
    }
}

/// The value of the cookie of that name that a request carries.
pub open spec fn cookie_of(request: Seq<HeaderView>, name: Seq<char>) -> Option<Seq<char>> {
    match headers::text_of(request, "cookie"@) {
        Some(cookies) => cookie_in(cookies, name),
        None => None,
    }
}

fn value_of_pair(part: &[char], name: &str) -> (value: Option<String>)
    ensures
        text::optional(value) == pair_value(part@, name@),
{
    let pair = text::trimmed(part);
    let chars = text::chars_of(pair.as_str());
    assert(chars@.skip(0) =~= chars@);
    let place = text::find_char(chars.as_slice(), 0, '=');
    if place < chars.len() {
        let key = text::text_of(chars.as_slice(), 0, place);
        assert(key@ =~= chars@.take(place as int));
        if text::same_text(key.as_str(), name) {
            let value = text::text_of(chars.as_slice(), place + 1, chars.len());
            assert(value@ =~= chars@.skip(place + 1));
            return Some(value);
        }
    }
    None
}

/// The value of the cookie of that name that a request carries.
pub fn cookie(request: &[Header], name: &str) -> (value: Option<String>)
    ensures
        text::optional(value) == cookie_of(headers::views(request@), name@),
{
    let cookies = match headers::value(request, "cookie") {
        Some(cookies) => cookies,
        None => return None,
    };
    let chars = text::chars_of(cookies);
    let ghost all = cookies@;
    let mut start: usize = 0;
    assert(all.skip(0) =~= all);
    loop
        invariant
            start <= chars@.len(),
            chars@ == all,
            all == cookies@,
            cookie_in(all.skip(start as int), name@) == cookie_in(all, name@),
            headers::text_of(headers::views(request@), "cookie"@) == Some(all),
        decreases chars@.len() - start,
    {
        let ghost rest = all.skip(start as int);
        let end = text::find_char(chars.as_slice(), start, ';');
        let part = vstd::slice::slice_subrange(chars.as_slice(), start, end);
        assert(part@ =~= rest.take(end - start));
        if let Some(value) = value_of_pair(part, name) {
            return Some(value);
        }
        if end >= chars.len() {
            return None;
        }
        assert(rest.skip(end - start + 1) =~= all.skip(end + 1));
        start = end + 1;
    }
}

/// The cookie that begins a session with that token.
pub open spec fn session_cookie_text(token: Seq<char>) -> Seq<char> {
    SESSION_COOKIE@ + "="@ + token + "; Path=/; HttpOnly; SameSite=Strict; Max-Age="@
        + text::decimal(SESSION_TTL_MS as int / 1000)
}

/// The cookie that begins a session with that token.
pub fn set_session_cookie(token: &str) -> (cookie: String)
    ensures
        cookie@ == session_cookie_text(token@),
{
    SESSION_COOKIE.to_owned().concat("=").concat(token).concat(
        "; Path=/; HttpOnly; SameSite=Strict; Max-Age=",
    ).concat(text::signed_text(SESSION_TTL_MS / 1000).as_str())
}

/// The digest of the session's token that a request carries, by which the session is looked up.
pub fn session_digest(request: &[Header]) -> (digest: Result<String, AdminError>)
    ensures
        match digest {
            Ok(digest) => {
                let token = cookie_of(headers::views(request@), SESSION_COOKIE@);
                token is Some && digest@ == token_digest(token->0)
            },
            Err(error) => {
                &&& cookie_of(headers::views(request@), SESSION_COOKIE@) is None
                &&& error == AdminError::NotLoggedIn
            },
        },
{
    match cookie(request, SESSION_COOKIE) {
        Some(token) => Ok(token_hash(token.as_str())),
        None => Err(AdminError::NotLoggedIn),
    }
}

/// Who a request comes from, given the account of the session that was found.
pub fn authenticated(found: Option<AdminUser>) -> (user: Result<AdminUser, AdminError>)
    ensures
        (user == match found {
            Some(user) => Ok::<AdminUser, AdminError>(user),
            None => Err::<AdminUser, AdminError>(AdminError::SessionExpired),
        }),
{
    match found {
        Some(user) => Ok(user),
        None => Err(AdminError::SessionExpired),
    }
}

/// Who a request comes from, given the account of the session that was found. As long as the
/// password has to be changed nothing else is granted.
pub fn require_ready_user(found: Option<AdminUser>) -> (user: Result<AdminUser, AdminError>)
    ensures
        (user == match found {
            Some(user) => if user.must_change_password {
                Err::<AdminUser, AdminError>(AdminError::MustChangePassword)
            } else {
                Ok::<AdminUser, AdminError>(user)
            },
            None => Err::<AdminUser, AdminError>(AdminError::SessionExpired),
        }),
{
    match authenticated(found) {
        Ok(user) => if user.must_change_password {
            Err(AdminError::MustChangePassword)
        } else {
            Ok(user)
        },
        Err(error) => Err(error),
    }
}

/// An entry for the audit log.
#[derive(Debug)]
pub struct AuditEntry {
    pub username: Option<String>,
    pub action: String,
    pub detail: String,
}

/// An [`AuditEntry`] with its texts by their characters.
#[verifier::ext_equal]
pub struct AuditEntryView {
    pub username: Option<Seq<char>>,
    pub action: Seq<char>,
    pub detail: Seq<char>,
}

impl View for AuditEntry {
    type V = AuditEntryView;

    open spec fn view(&self) -> AuditEntryView {
        AuditEntryView {
            username: text::optional(self.username),
            action: self.action@,
            detail: self.detail@,
        }
    }
}

/// What an administrator did that the audit log is told.
#[derive(Debug)]
pub enum AdminAct {
    PasswordChanged,
    MfaEnabled,
    MfaDisabled,
    /// The settings were changed to these, given as JSON.
    SettingsUpdated(String),
    /// The client with that id was removed.
    ClientRemoved(String),
}

impl AdminAct {
    /// The name of the act in the audit log.
    pub open spec fn action(self) -> Seq<char> {
        match self {
            AdminAct::PasswordChanged => "password_changed"@,
            AdminAct::MfaEnabled => "mfa_enabled"@,
            AdminAct::MfaDisabled => "mfa_disabled"@,
            AdminAct::SettingsUpdated(_) => "settings_updated"@,
            AdminAct::ClientRemoved(_) => "client_removed"@,
        }
    }

    /// What the audit log says of the act besides.
    pub open spec fn detail(self) -> Seq<char> {
        match self {
            AdminAct::PasswordChanged => "password updated"@,
            AdminAct::MfaEnabled => "TOTP enabled"@,
            AdminAct::MfaDisabled => "TOTP disabled"@,
            AdminAct::SettingsUpdated(json) => json@,
            AdminAct::ClientRemoved(id) => id@,
        }
    }

    /// What the audit log is told when that administrator did it.
    pub fn entry(self, username: &str) -> (entry: AuditEntry)
        ensures
            entry@ == (AuditEntryView {
                username: Some(username@),
                action: self.action(),
                detail: self.detail(),
            }),
    {
        let (action, detail) = match self {
            AdminAct::PasswordChanged => ("password_changed", "password updated".to_owned()),
            AdminAct::MfaEnabled => ("mfa_enabled", "TOTP enabled".to_owned()),
            AdminAct::MfaDisabled => ("mfa_disabled", "TOTP disabled".to_owned()),
            AdminAct::SettingsUpdated(json) => ("settings_updated", json),
            AdminAct::ClientRemoved(id) => ("client_removed", id),
        };
        AuditEntry { username: Some(username.to_owned()), action: action.to_owned(), detail }
    }
}

/// What comes of names, passwords and codes that someone logs in with.
#[derive(Debug)]
pub enum LoginCheck {
    /// Refused; what the audit log is told, if anything.
    Denied { error: AdminError, audit: Option<AuditEntry> },
    /// The account asks for a code, and none was given.
    CodeNeeded,
    /// Let in.
    Passed,
}

/// A [`LoginCheck`] with its texts by their characters.
#[verifier::ext_equal]
pub enum LoginCheckView {
    Denied { error: AdminError, audit: Option<AuditEntryView> },
    CodeNeeded,
    Passed,
}

impl View for LoginCheck {
    type V = LoginCheckView;

    open spec fn view(&self) -> LoginCheckView {
        match self {
            LoginCheck::Denied { error, audit } => LoginCheckView::Denied {
                error: *error,
                audit: match audit {
                    Some(entry) => Some(entry@),
                    None => None,
                },
            },
            LoginCheck::CodeNeeded => LoginCheckView::CodeNeeded,
            LoginCheck::Passed => LoginCheckView::Passed,
        }
    }
}

/// What the audit log is told of a failed login.
pub open spec fn failed_login(username: Option<Seq<char>>, detail: Seq<char>) -> AuditEntryView {
    AuditEntryView { username, action: "login_failed"@, detail }
}

/// What comes of a login to that account, if there is one, given whether the password is right and
/// whether the code is.
pub open spec fn login_rule(
    account: Option<AdminUserView>,
    password_matches: bool,
    code: Option<Seq<char>>,
    code_matches: bool,
) -> LoginCheckView {
    match account {
        None => LoginCheckView::Denied {
            error: AdminError::BadCredentials,
            audit: Some(failed_login(None, "unknown username"@)),
        },
        Some(user) => if !password_matches {
            LoginCheckView::Denied {
                error: AdminError::BadCredentials,
                audit: Some(failed_login(Some(user.username), "invalid password"@)),
            }
        } else if !user.mfa_enabled {
            LoginCheckView::Passed
        } else if code is None || text::trim(code->0).len() == 0 {
            LoginCheckView::CodeNeeded
        } else if code_matches {
            LoginCheckView::Passed
        } else {
            LoginCheckView::Denied { error: AdminError::BadMfaCode, audit: None }
        },
    }
}

/// The account by its view.
pub open spec fn account_view(account: Option<&AdminUserSecret>) -> Option<AdminUserView> {
    match account {
        Some(account) => Some(account.user@),
        None => None,
    }
}

/// Whether the code is the account's at that time.
pub open spec fn account_code(
    account: AdminUserSecret,
    code: Seq<char>,
    now_ms: i64,
) -> bool {
    account.mfa_secret is Some && totp::totp_accepts(account.mfa_secret->0@, code, now_ms)
}

fn code_matches(account: &AdminUserSecret, code: &str, now_ms: i64) -> (matches: bool)
    requires
        now_ms >= 0,
    ensures
        matches == account_code(*account, code@, now_ms),
{
    match &account.mfa_secret {
        Some(secret) => verify_totp(secret.as_str(), code, now_ms),
        None => false,
    }
}

/// The name by which an account is looked up.
pub fn login_name(username: &str) -> (name: String)
    ensures
        name@ == text::trim(username@),
{
    text::trimmed_text(username)
}

/// What comes of a login at that time to the account that was found, if any.
pub fn check_login(
    account: Option<&AdminUserSecret>,
    password: &str,
    mfa_code: Option<&str>,
    now_ms: i64,
) -> (check: LoginCheck)
    requires
        now_ms >= 0,
    ensures
        check@ == login_rule(
            account_view(account),
            account is Some && database::password_matches(
                password@,
                account->0.password_hash@,
            ),
            text::optional_str(mfa_code),
            account is Some && mfa_code is Some && account_code(
                *account->0,
                mfa_code->0@,
                now_ms,
            ),
        ),
{
    let account = match account {
        Some(account) => account,
        None => {
            let entry = AuditEntry {
                username: None,
                action: "login_failed".to_owned(),
                detail: "unknown username".to_owned(),
            };
            return LoginCheck::Denied {
                error: AdminError::BadCredentials,
                audit: Some(entry),
            };
        },
    };
    if !verify_password(password, account.password_hash.as_str()) {
        let entry = AuditEntry {
            username: Some(account.user.username.clone()),
            action: "login_failed".to_owned(),
            detail: "invalid password".to_owned(),
        };
        return LoginCheck::Denied { error: AdminError::BadCredentials, audit: Some(entry) };
    }
    if account.user.mfa_enabled {
        let code = match mfa_code {
            Some(code) => code,
            None => return LoginCheck::CodeNeeded,
        };
        if text::trimmed_text(code).as_str().is_empty() {
            return LoginCheck::CodeNeeded;
        }
        if !code_matches(account, code, now_ms) {
            return LoginCheck::Denied { error: AdminError::BadMfaCode, audit: None };
        }
    }
    LoginCheck::Passed
}

/// Nobody gets in without the password of an account, nor, where the account asks for a code,
/// without a code; and nobody is refused who gives what the account asks for.
pub proof fn law_login(
    account: Option<AdminUserView>,
    password_matches: bool,
    code: Option<Seq<char>>,
    code_matches: bool,
)
    ensures
        login_rule(account, password_matches, code, code_matches) is Passed <==> {
            &&& account is Some
            &&& password_matches
            &&& account->0.mfa_enabled ==> code is Some && text::trim(code->0).len() > 0
                && code_matches
        },
{
}

/// A session that is to be kept.
#[derive(Debug)]
pub struct NewSession {
    pub username: String,
    pub token_hash: String,
    pub expires_at_ms: i64,
}

/// A session that begins: what is kept of it, the token that only the administrator holds, and what
/// the audit log is told.
#[derive(Debug)]
pub struct LoginGrant {
    pub session: NewSession,
    pub token: String,
    pub audit: AuditEntry,
}

/// Begins a session under that token for an account that is let in.
pub fn begin_session(username: &str, token: String, now_ms: i64) -> (grant: LoginGrant)
    requires
        now_ms <= i64::MAX - SESSION_TTL_MS,
    ensures
        grant.token@ == token@,
        grant.session.username@ == username@,
        grant.session.token_hash@ == token_digest(token@),
        grant.session.expires_at_ms == now_ms + SESSION_TTL_MS,
        grant.audit@ == (AuditEntryView {
            username: Some(username@),
            action: "login"@,
            detail: "admin login"@,
        }),
{
    let session = NewSession {
        username: username.to_owned(),
        token_hash: token_hash(token.as_str()),
        expires_at_ms: now_ms + SESSION_TTL_MS,
    };
    let audit = AuditEntry {
        username: Some(username.to_owned()),
        action: "login".to_owned(),
        detail: "admin login".to_owned(),
    };
    LoginGrant { session, token, audit }
}

/// Begins a session under a new token for an account that is let in.
pub fn grant_login(username: &str, now_ms: i64) -> (grant: LoginGrant)
    requires
        now_ms <= i64::MAX - SESSION_TTL_MS,
    ensures
        is_hex_of(grant.token@, SESSION_TOKEN_LEN as nat),
        grant.session.username@ == username@,
        grant.session.token_hash@ == token_digest(grant.token@),
        grant.session.expires_at_ms == now_ms + SESSION_TTL_MS,
        grant.audit@ == (AuditEntryView {
            username: Some(username@),
            action: "login"@,
            detail: "admin login"@,
        }),
{
    begin_session(username, random_token(), now_ms)
}

/// What comes of the wish to change a password: first the old one has to be right, then the new one
/// has to be a good one, and another.
pub open spec fn change_rule(
    known: bool,
    current_matches: bool,
    flaw: Option<PasswordFlaw>,
    same: bool,
) -> Result<(), AdminError> {
    if !known {
        Err(AdminError::InvalidLogin)
    } else if !current_matches {
        Err(AdminError::WrongPassword)
    } else {
        match flaw {
            Some(flaw) => Err(AdminError::NewPassword(flaw)),
            None => if same {
                Err(AdminError::SamePassword)
            } else {
                Ok(())
            },
        }
    }
}

/// Says whether an account's password may be changed to the new one.
pub fn change_password(
    account: Option<&AdminUserSecret>,
    username: &str,
    current_password: &str,
    new_password: &str,
    confirm_password: &str,
) -> (outcome: Result<(), AdminError>)
    ensures
        outcome == change_rule(
            account is Some,
            account is Some && database::password_matches(
                current_password@,
                account->0.password_hash@,
            ),
            password_flaw(username@, new_password@, confirm_password@),
            account is Some && database::password_matches(
                new_password@,
                account->0.password_hash@,
            ),
        ),
{
    let account = match account {
        Some(account) => account,
        None => return Err(AdminError::InvalidLogin),
    };
    if !verify_password(current_password, account.password_hash.as_str()) {
        return Err(AdminError::WrongPassword);
    }
    if let Err(flaw) = validate_password(username, new_password, confirm_password) {
        return Err(AdminError::NewPassword(flaw));
    }
    if verify_password(new_password, account.password_hash.as_str()) {
        return Err(AdminError::SamePassword);
    }
    Ok(())
}

/// Says whether the account's codes may be asked for from now on, given a code of the secret that
/// was made for it.
pub fn mfa_enable(secret: Option<&str>, code: &str, now_ms: i64) -> (outcome: Result<
    (),
    AdminError,
>)
    requires
        now_ms >= 0,
    ensures
        (outcome == match secret {
            None => Err::<(), AdminError>(AdminError::NoMfaSecret),
            Some(secret) => if totp::totp_accepts(secret@, code@, now_ms) {
                Ok::<(), AdminError>(())
            } else {
                Err::<(), AdminError>(AdminError::WrongCode)
            },
        }),
{
    match secret {
        None => Err(AdminError::NoMfaSecret),
        Some(secret) => if verify_totp(secret, code, now_ms) {
            Ok(())
        } else {
            Err(AdminError::WrongCode)
        },
    }
}

/// Says whether the account's codes are no longer to be asked for, given its password and a code.
pub fn mfa_disable(
    account: Option<&AdminUserSecret>,
    password: &str,
    code: &str,
    now_ms: i64,
) -> (outcome: Result<(), AdminError>)
    requires
        now_ms >= 0,
    ensures
        (outcome == match account {
            None => Err::<(), AdminError>(AdminError::InvalidLogin),
            Some(account) => if database::password_matches(password@, account.password_hash@)
                && account_code(*account, code@, now_ms) {
                Ok::<(), AdminError>(())
            } else {
                Err::<(), AdminError>(AdminError::WrongPasswordOrCode)
            },
        }),
{
    match account {
        None => Err(AdminError::InvalidLogin),
        Some(account) => if verify_password(password, account.password_hash.as_str())
            && code_matches(account, code, now_ms) {
            Ok(())
        } else {
            Err(AdminError::WrongPasswordOrCode)
        },
    }
}

/// The address that authenticator applications read a secret from.
pub open spec fn otpauth_uri(username: Seq<char>, secret: Seq<char>) -> Seq<char> {
    "otpauth://totp/"@ + text::percent_text(text::utf8("CrossPaste Server:"@ + username))
        + "?secret="@ + secret
        + "&issuer=CrossPaste%20Server&algorithm=SHA1&digits=6&period=30"@
}

/// A picture of a code to scan as a data URI, or the error in words.
pub open spec fn qr_data_uri(data: Seq<char>) -> Result<Seq<char>, Seq<char>> {
    match qr::qr_picture(data, qr::QR_MIN_SIZE) {
        Err(words) => Err(words),
        Ok((width, height, pixels)) => match qr::png_file(width, height, pixels) {
            Err(words) => Err(words),
            Ok(png) => Ok("data:image/png;base64,"@ + codec::base64_encoded(png)),
        },
    }
}

/// A text or an error in words, both by their characters.
pub open spec fn text_result(result: Result<String, String>) -> Result<Seq<char>, Seq<char>> {
    match result {
        Ok(value) => Ok(value@),
        Err(words) => Err(words@),
    }
}

fn data_uri(data: &str) -> (uri: Result<String, String>)
    ensures
        text_result(uri) == qr_data_uri(data@),
{
    match render_qr_png(data) {
        Ok(png) => Ok(
            "data:image/png;base64,".to_owned().concat(
                codec::base64_encode(png.as_slice()).as_str(),
            ),
        ),
        Err(words) => Err(words),
    }
}

/// What an administrator needs to have codes made by an authenticator application.
#[derive(Debug)]
pub struct MfaSetup {
    pub secret: String,
    pub otpauth_uri: String,
    pub qr_data_uri: String,
}

/// What the administrator of that account needs to have codes made of that secret.
pub fn mfa_setup(username: &str, secret: String) -> (setup: Result<MfaSetup, String>)
    ensures
        match setup {
            Ok(setup) => {
                &&& setup.secret@ == secret@
                &&& setup.otpauth_uri@ == otpauth_uri(username@, secret@)
                &&& qr_data_uri(otpauth_uri(username@, secret@)) == Ok::<Seq<char>, Seq<char>>(
                    setup.qr_data_uri@,
                )
            },
            Err(words) => qr_data_uri(otpauth_uri(username@, secret@)) == Err::<
                Seq<char>,
                Seq<char>,
            >(words@),
        },
{
    let account = url_encode("CrossPaste Server:".to_owned().concat(username).as_str());
    let uri = "otpauth://totp/".to_owned().concat(account.as_str()).concat("?secret=").concat(
        secret.as_str(),
    ).concat("&issuer=CrossPaste%20Server&algorithm=SHA1&digits=6&period=30");
    match data_uri(uri.as_str()) {
        Ok(qr_data_uri) => Ok(MfaSetup { secret, otpauth_uri: uri, qr_data_uri }),
        Err(words) => Err(words),
    }
}

/// A pairing that an administrator opened: the token in six digits, and the code to scan.
#[derive(Debug)]
pub struct CreatedPairing {
    pub code: String,
    pub expires_at_ms: i64,
    pub qr_data_uri: String,
    pub audit: AuditEntry,
}

/// Whether this is the pairing that was opened with that token.
pub open spec fn is_pairing(
    pairing: CreatedPairing,
    username: Seq<char>,
    token: u32,
    json: Seq<u8>,
    now_ms: i64,
) -> bool {
    &&& pairing.code@ == text::six_digits(token as nat)
    &&& pairing.expires_at_ms == now_ms + PAIRING_TOKEN_TTL_MS
    &&& qr_data_uri(codec::base64_encoded(sync_info::qr_bytes(json, token))) == Ok::<
        Seq<char>,
        Seq<char>,
    >(pairing.qr_data_uri@)
    &&& pairing.audit@ == AuditEntryView {
        username: Some(username),
        action: "pairing_code_created"@,
        detail: "token "@ + text::six_digits(token as nat),
    }
}

/// What an administrator is shown of a pairing with that token, given the JSON of what the server
/// tells clients.
pub fn show_pairing(username: &str, token: u32, json: &[u8], now_ms: i64) -> (pairing: Result<
    CreatedPairing,
    String,
>)
    requires
        now_ms <= i64::MAX - PAIRING_TOKEN_TTL_MS,
    ensures
        match pairing {
            Ok(pairing) => is_pairing(pairing, username@, token, json@, now_ms),
            Err(words) => qr_data_uri(
                codec::base64_encoded(sync_info::qr_bytes(json@, token)),
            ) == Err::<Seq<char>, Seq<char>>(words@),
        },
{
    let payload = encode_qr_payload(json, token);
    match data_uri(payload.as_str()) {
        Err(words) => Err(words),
        Ok(qr_data_uri) => {
            let code = text::six_digit_text(token);
            let audit = AuditEntry {
                username: Some(username.to_owned()),
                action: "pairing_code_created".to_owned(),
                detail: "token ".to_owned().concat(code.as_str()),
            };
            Ok(
                CreatedPairing {
                    code,
                    expires_at_ms: now_ms + PAIRING_TOKEN_TTL_MS,
                    qr_data_uri,
                    audit,
                },
            )
        },
    }
}

/// Opens a pairing with a new token, given the JSON of what the server tells clients.
pub fn create_pairing(hub: &mut Hub, username: &str, json: &[u8], now_ms: i64) -> (pairing: Result<
    CreatedPairing,
    String,
>)
    requires
        now_ms <= i64::MAX - PAIRING_TOKEN_TTL_MS,
    ensures
        final(hub).server_keys() == old(hub).server_keys(),
        ({
            let token = final(hub)@.pairing_token.value;
            &&& 100_000 <= token <= 999_999
            &&& final(hub)@ == old(hub)@.with_token(token, None, now_ms)
            &&& match pairing {
                Ok(pairing) => is_pairing(pairing, username@, token, json@, now_ms),
                Err(words) => qr_data_uri(
                    codec::base64_encoded(sync_info::qr_bytes(json@, token)),
                ) == Err::<Seq<char>, Seq<char>>(words@),
            }
        }),
{
    let token = hub.issue_pairing_token(now_ms);
    show_pairing(username, token, json, now_ms)
}

/// The time from which on a client must have been heard of to count as online.
pub fn active_since(now_ms: i64) -> (since: i64)
    requires
        now_ms >= i64::MIN + CLIENT_ONLINE_WINDOW_MS,
    ensures
        since == now_ms - CLIENT_ONLINE_WINDOW_MS,
{
    now_ms - CLIENT_ONLINE_WINDOW_MS
}

/// The ids of devices.
pub open spec fn device_ids(devices: Seq<DevicePublicInfo>) -> Seq<Seq<char>> {
    devices.map_values(|device: DevicePublicInfo| device.app_instance_id@)
}

/// How many clients are online: those heard of lately and those with a tunnel, each once.
pub fn count_online(recent: &Vec<String>, devices: &Vec<DevicePublicInfo>) -> (count: usize)
    ensures
        count == (text::texts(recent@).to_set() + device_ids(devices@).to_set()).len(),
        (text::texts(recent@).to_set() + device_ids(devices@).to_set()).finite(),
{
    let mut distinct: Vec<String> = Vec::new();
    let ghost first = text::texts(recent@);
    let ghost second = device_ids(devices@);
    let mut i: usize = 0;
    assert(text::texts(distinct@).to_set() =~= first.take(0).to_set());
    while i < recent.len()
        invariant
            i <= recent@.len(),
            first == text::texts(recent@),
            text::texts(distinct@).no_duplicates(),
            text::texts(distinct@).to_set() == first.take(i as int).to_set(),
        decreases recent@.len() - i,
    {
        let ghost before = text::texts(distinct@);
        let known = text::has_text(&distinct, recent[i].as_str());
        if !known {
            distinct.push(recent[i].clone());
            assert(text::texts(distinct@) =~= before.push(first[i as int]));
        }
        i += 1;
        proof {
            assert(first.take(i as int) =~= first.take(i - 1).push(first[i - 1]));
            lemma_set_of_push(first.take(i - 1), first[i - 1]);
            lemma_set_of_push(before, first[i - 1]);
            if known {
                assert(before.to_set().contains(first[i - 1]));
                assert(before.to_set().insert(first[i - 1]) =~= before.to_set());
            }
        }
    }
    assert(first.take(i as int) =~= first);
    assert(first.to_set() + second.take(0).to_set() =~= first.to_set());
    let mut j: usize = 0;
    while j < devices.len()
        invariant
            j <= devices@.len(),
            second == device_ids(devices@),
            text::texts(distinct@).no_duplicates(),
            text::texts(distinct@).to_set() == first.to_set() + second.take(j as int).to_set(),
        decreases devices@.len() - j,
    {
        let ghost before = text::texts(distinct@);
        let known = text::has_text(&distinct, devices[j].app_instance_id.as_str());
        if !known {
            distinct.push(devices[j].app_instance_id.clone());
            assert(text::texts(distinct@) =~= before.push(second[j as int]));
        }
        j += 1;
        proof {
            assert(second.take(j as int) =~= second.take(j - 1).push(second[j - 1]));
            lemma_set_of_push(second.take(j - 1), second[j - 1]);
            lemma_set_of_push(before, second[j - 1]);
            if known {
                assert(before.to_set().contains(second[j - 1]));
                assert(before.to_set().insert(second[j - 1]) =~= before.to_set());
            }
            assert(text::texts(distinct@).to_set() =~= first.to_set() + second.take(
                j as int,
            ).to_set());
        }
    }
    proof {
        assert(second.take(j as int) =~= second);
        text::texts(distinct@).unique_seq_to_set();
        vstd::seq_lib::seq_to_set_is_finite(text::texts(distinct@));
    }
    distinct.len()
}

proof fn lemma_set_of_push(list: Seq<Seq<char>>, item: Seq<char>)
    ensures
        list.push(item).to_set() == list.to_set().insert(item),
{
    let longer = list.push(item);
    assert forall|other: Seq<char>| longer.contains(other) <==> list.contains(other) || other
        == item by {
        if list.contains(other) {
            let i = choose|i: int| 0 <= i < list.len() && list[i] == other;
            assert(longer[i] == other);
        }
        assert(longer[list.len() as int] == item);
    }
    assert(longer.to_set() =~= list.to_set().insert(item));
}

/// A device as administrators see it.
#[derive(Debug)]
pub struct AdminClient {
    pub app_instance_id: String,
    pub device_name: String,
    pub device_id: Option<String>,
    pub platform_name: String,
    pub platform_version: String,
    pub architecture: String,
    pub app_version: String,
    pub user_name: Option<String>,
    pub addresses: Vec<String>,
    pub port: Option<i32>,
    pub paired_at_ms: Option<i64>,
    pub last_seen_ms: Option<i64>,
    pub online: bool,
    pub is_server: bool,
}

/// An [`AdminClient`] with its texts by their characters.
#[verifier::ext_equal]
pub struct AdminClientView {
    pub app_instance_id: Seq<char>,
    pub device_name: Seq<char>,
    pub device_id: Option<Seq<char>>,
    pub platform_name: Seq<char>,
    pub platform_version: Seq<char>,
    pub architecture: Seq<char>,
    pub app_version: Seq<char>,
    pub user_name: Option<Seq<char>>,
    pub addresses: Seq<Seq<char>>,
    pub port: Option<i32>,
    pub paired_at_ms: Option<i64>,
    pub last_seen_ms: Option<i64>,
    pub online: bool,
    pub is_server: bool,
}

impl View for AdminClient {
    type V = AdminClientView;

    open spec fn view(&self) -> AdminClientView {
        AdminClientView {
            app_instance_id: self.app_instance_id@,
            device_name: self.device_name@,
            device_id: text::optional(self.device_id),
            platform_name: self.platform_name@,
            platform_version: self.platform_version@,
            architecture: self.architecture@,
            app_version: self.app_version@,
            user_name: text::optional(self.user_name),
            addresses: text::texts(self.addresses@),
            port: self.port,
            paired_at_ms: self.paired_at_ms,
            last_seen_ms: self.last_seen_ms,
            online: self.online,
            is_server: self.is_server,
        }
    }
}

/// The server is listed first, then who is online, and then by name.
impl Ordered for AdminClient {
    open spec fn le(a: AdminClientView, b: AdminClientView) -> bool {
        if a.is_server != b.is_server {
            a.is_server
        } else if a.online != b.online {
            a.online
        } else {
            text::text_le(a.device_name, b.device_name)
        }
    }

    proof fn lemma_total(a: AdminClientView, b: AdminClientView) {
        text::lemma_text_le_total(a.device_name, b.device_name);
    }

    proof fn lemma_transitive(a: AdminClientView, b: AdminClientView, c: AdminClientView) {
        if text::text_le(a.device_name, b.device_name) && text::text_le(
            b.device_name,
            c.device_name,
        ) {
            text::lemma_text_le_transitive(a.device_name, b.device_name, c.device_name);
        }
    }

    fn not_after(&self, other: &Self) -> (le: bool) {
        if self.is_server != other.is_server {
            self.is_server
        } else if self.online != other.online {
            self.online
        } else {
            text::not_after(self.device_name.as_str(), other.device_name.as_str())
        }
    }
}

/// The addresses of hosts.
pub open spec fn addresses_of(hosts: Seq<HostInfoView>) -> Seq<Seq<char>> {
    hosts.map_values(|host: HostInfoView| host.host_address)
}

fn host_addresses(hosts: &Vec<HostInfo>) -> (addresses: Vec<String>)
    ensures
        text::texts(addresses@) == addresses_of(sync_info::host_views(hosts@)),
{
    let mut addresses: Vec<String> = Vec::new();
    let mut i: usize = 0;
    while i < hosts.len()
        invariant
            i <= hosts@.len(),
            addresses@.len() == i,
            forall|j: int|
                0 <= j < i ==> (#[trigger] addresses@[j])@ == hosts@[j].host_address@,
        decreases hosts@.len() - i,
    {
        addresses.push(hosts[i].host_address.clone());
        i += 1;
    }
    assert(text::texts(addresses@) =~= addresses_of(sync_info::host_views(hosts@)));
    addresses
}

/// The server itself as administrators see it.
pub open spec fn server_view(info: SyncInfoView, now_ms: i64) -> AdminClientView {
    AdminClientView {
        app_instance_id: info.app_info.app_instance_id,
        device_name: info.endpoint_info.device_name,
        device_id: Some(info.endpoint_info.device_id),
        platform_name: info.endpoint_info.platform.name,
        platform_version: info.endpoint_info.platform.version,
        architecture: info.endpoint_info.platform.arch,
        app_version: info.app_info.app_version,
        user_name: Some(info.app_info.user_name),
        addresses: addresses_of(info.endpoint_info.host_info_list),
        port: Some(info.endpoint_info.port),
        paired_at_ms: None,
        last_seen_ms: Some(now_ms),
        online: true,
        is_server: true,
    }
}

/// The first of these that is there, or else the last resort.
pub open spec fn first_text(
    first: Option<Seq<char>>,
    second: Option<Seq<char>>,
    last: Seq<char>,
) -> Seq<char> {
    match first {
        Some(value) => value,
        None => match second {
            Some(value) => value,
            None => last,
        },
    }
}

/// A paired client as administrators see it: what it told about itself counts before what is known
/// of its tunnel.
pub open spec fn client_view(
    client: StoredClientView,
    info: Option<SyncInfoView>,
    tunnel: Option<DeviceSessionView>,
    online: bool,
) -> AdminClientView {
    let tunnel_name = match tunnel {
        Some(tunnel) => tunnel.device_name,
        None => None,
    };
    let tunnel_version = match tunnel {
        Some(tunnel) => tunnel.app_version,
        None => None,
    };
    let last_seen_ms = match tunnel {
        Some(tunnel) => Some(tunnel.last_seen_ms),
        None => client.last_seen_ms,
    };
    match info {
        Some(info) => AdminClientView {
            app_instance_id: client.app_instance_id,
            device_name: info.endpoint_info.device_name,
            device_id: Some(info.endpoint_info.device_id),
            platform_name: info.endpoint_info.platform.name,
            platform_version: info.endpoint_info.platform.version,
            architecture: info.endpoint_info.platform.arch,
            app_version: info.app_info.app_version,
            user_name: Some(info.app_info.user_name),
            addresses: addresses_of(info.endpoint_info.host_info_list),
            port: Some(info.endpoint_info.port),
            paired_at_ms: Some(client.paired_at_ms),
            last_seen_ms,
            online,
            is_server: false,
        },
        None => AdminClientView {
            app_instance_id: client.app_instance_id,
            device_name: first_text(tunnel_name, None, client.app_instance_id),
            device_id: None,
            platform_name: "Unknown"@,
            platform_version: Seq::empty(),
            architecture: Seq::empty(),
            app_version: first_text(tunnel_version, None, Seq::empty()),
            user_name: None,
            addresses: Seq::empty(),
            port: None,
            paired_at_ms: Some(client.paired_at_ms),
            last_seen_ms,
            online,
            is_server: false,
        },
    }
}

/// What a device told about itself, if anything.
pub open spec fn info_view(info: Option<SyncInfo>) -> Option<SyncInfoView> {
    match info {
        Some(info) => Some(info@),
        None => None,
    }
}

/// The session of a device, if it has a tunnel.
pub open spec fn tunnel_view(tunnel: Option<&DeviceSession>) -> Option<DeviceSessionView> {
    match tunnel {
        Some(tunnel) => Some(tunnel@),
        None => None,
    }
}

fn text_or_else(first: &Option<String>, last: &str) -> (value: String)
    ensures
        value@ == first_text(text::optional(*first), None, last@),
{
    match first {
        Some(value) => value.clone(),
        None => last.to_owned(),
    }
}

impl AdminClient {
    /// The server itself as administrators see it.
    pub fn server(info: SyncInfo, now_ms: i64) -> (device: Self)
        ensures
            device@ == server_view(info@, now_ms),
    {
        let addresses = host_addresses(&info.endpoint_info.host_info_list);
        AdminClient {
            app_instance_id: info.app_info.app_instance_id,
            device_name: info.endpoint_info.device_name,
            device_id: Some(info.endpoint_info.device_id),
            platform_name: info.endpoint_info.platform.name,
            platform_version: info.endpoint_info.platform.version,
            architecture: info.endpoint_info.platform.arch,
            app_version: info.app_info.app_version,
            user_name: Some(info.app_info.user_name),
            addresses,
            port: Some(info.endpoint_info.port),
            paired_at_ms: None,
            last_seen_ms: Some(now_ms),
            online: true,
            is_server: true,
        }
    }

    /// A paired client as administrators see it.
    pub fn from_client(
        client: &StoredClient,
        info: Option<SyncInfo>,
        tunnel: Option<&DeviceSession>,
        online: bool,
    ) -> (device: Self)
        ensures
            device@ == client_view(client@, info_view(info), tunnel_view(tunnel), online),
    {
        let last_seen_ms = match tunnel {
            Some(tunnel) => Some(tunnel.last_seen_ms),
            None => client.last_seen_ms,
        };
        match info {
            Some(info) => {
                let addresses = host_addresses(&info.endpoint_info.host_info_list);
                AdminClient {
                    app_instance_id: client.app_instance_id.clone(),
                    device_name: info.endpoint_info.device_name,
                    device_id: Some(info.endpoint_info.device_id),
                    platform_name: info.endpoint_info.platform.name,
                    platform_version: info.endpoint_info.platform.version,
                    architecture: info.endpoint_info.platform.arch,
                    app_version: info.app_info.app_version,
                    user_name: Some(info.app_info.user_name),
                    addresses,
                    port: Some(info.endpoint_info.port),
                    paired_at_ms: Some(client.paired_at_ms),
                    last_seen_ms,
                    online,
                    is_server: false,
                }
            },
            None => {
                let (device_name, app_version) = match tunnel {
                    Some(tunnel) => (
                        text_or_else(&tunnel.device_name, client.app_instance_id.as_str()),
                        text_or_else(&tunnel.app_version, ""),
                    ),
                    None => (client.app_instance_id.clone(), String::new()),
                };
                let addresses: Vec<String> = Vec::new();
                proof {
                    reveal_strlit("");
                    assert(""@ =~= Seq::empty());
                    assert(text::texts(addresses@) =~= Seq::empty());
                }
                AdminClient {
                    app_instance_id: client.app_instance_id.clone(),
                    device_name,
                    device_id: None,
                    platform_name: "Unknown".to_owned(),
                    platform_version: String::new(),
                    architecture: String::new(),
                    app_version,
                    user_name: None,
                    addresses,
                    port: None,
                    paired_at_ms: Some(client.paired_at_ms),
                    last_seen_ms,
                    online,
                    is_server: false,
                }
            },
        }
    }
}

/// A client that is kept, and what could be read of what it told about itself.
#[derive(Debug)]
pub struct ListedClient {
    pub client: StoredClient,
    pub info: Option<SyncInfo>,
}

/// Whether a client counts as online: it has a tunnel, or it was heard of lately.
pub open spec fn is_online(has_tunnel: bool, last_seen_ms: Option<i64>, now_ms: i64) -> bool {
    has_tunnel || (last_seen_ms is Some && now_ms - last_seen_ms->0 <= CLIENT_ONLINE_WINDOW_MS)
}

/// A client that is kept as administrators see it at that time. What the hub was told of it counts
/// where nothing could be read.
pub open spec fn listed_view(
    listed: ListedClient,
    hub: HubView,
    registry: RegistryView,
    now_ms: i64,
) -> AdminClientView {
    let client = listed.client@;
    let id = client.app_instance_id;
    let info = match listed.info {
        Some(info) => Some(info@),
        None => if hub.client_sync_infos.contains_key(id) {
            Some(hub.client_sync_infos[id])
        } else {
            None
        },
    };
    let tunnel = if registry.devices.contains_key(id) {
        Some(registry.devices[id])
    } else {
        None
    };
    client_view(client, info, tunnel, is_online(tunnel is Some, client.last_seen_ms, now_ms))
}

/// The devices that administrators are shown: the server and every client that is kept, in order.
pub fn clients(
    server: SyncInfo,
    stored: &[ListedClient],
    hub: &Hub,
    registry: &Registry,
    now_ms: i64,
) -> (devices: Vec<AdminClient>)
    ensures
        sort::views(devices@) == sort::sorted::<AdminClient>(
            seq![server_view(server@, now_ms)] + stored@.map_values(
                |listed: ListedClient| listed_view(listed, hub@, registry@, now_ms),
            ),
        ),
{
    let mut devices: Vec<AdminClient> = Vec::new();
    devices.push(AdminClient::server(server, now_ms));
    let ghost first = seq![server_view(server@, now_ms)];
    let ghost rest = stored@.map_values(
        |listed: ListedClient| listed_view(listed, hub@, registry@, now_ms),
    );
    assert(sort::views(devices@) =~= first + rest.take(0));
    let mut i: usize = 0;
    while i < stored.len()
        invariant
            i <= stored@.len(),
            rest == stored@.map_values(
                |listed: ListedClient| listed_view(listed, hub@, registry@, now_ms),
            ),
            sort::views(devices@) == first + rest.take(i as int),
        decreases stored@.len() - i,
    {
        let ghost before = sort::views(devices@);
        let listed = &stored[i];
        let id = listed.client.app_instance_id.as_str();
        let info = match &listed.info {
            Some(info) => Some(info.clone()),
            None => hub.client_sync_info(id),
        };
        let tunnel = registry.get_device(id);
        let online = tunnel.is_some() || match listed.client.last_seen_ms {
            Some(seen) => now_ms as i128 - seen as i128 <= CLIENT_ONLINE_WINDOW_MS as i128,
            None => false,
        };
        let device = AdminClient::from_client(&listed.client, info, tunnel, online);
        devices.push(device);
        proof {
            assert(device@ == rest[i as int]);
            assert(sort::views(devices@) =~= before.push(device@));
            assert(first + rest.take(i + 1) =~= (first + rest.take(i as int)).push(
                rest[i as int],
            ));
        }
        i += 1;
    }
    assert(rest.take(i as int) =~= rest);
    sort::sort(devices)
}

/// Administrators are shown the server first.
pub proof fn law_server_first(server: AdminClientView, clients: Seq<AdminClientView>)
    requires
        server.is_server,
    ensures
        sort::sorted::<AdminClient>(seq![server] + clients).len() == clients.len() + 1,
        sort::sorted::<AdminClient>(seq![server] + clients)[0].is_server,
{
    broadcast use vstd::seq_lib::group_to_multiset_ensures;

    let all = seq![server] + clients;
    let listed = sort::sorted::<AdminClient>(all);
    sort::law_sorted::<AdminClient>(all);
    assert(all[0] == server);
    assert(all.contains(server));
    assert(listed.to_multiset().contains(server));
    assert(listed.contains(server));
    let place = choose|i: int| 0 <= i < listed.len() && listed[i] == server;
    if place > 0 {
        assert(<AdminClient as Ordered>::le(listed[0], listed[place]));
    }
}

/// A new password is accepted exactly where it was entered twice alike, has 12 to 128 characters, is
/// not the default one, does not hold the name of the account in any case, and mixes small letters,
/// capitals, digits and other characters.
pub proof fn law_accepted_password(
    username: Seq<char>,
    password: Seq<char>,
    confirmation: Seq<char>,
)
    ensures
        password_flaw(username, password, confirmation) is None <==> {
            &&& password == confirmation
            &&& 12 <= password.len() <= 128
            &&& password != "CrossPaste@123"@
            &&& !exists|at: int|
                0 <= at && at + username.len() <= password.len() && #[trigger] text::lower_text(
                    password,
                ).subrange(at, at + username.len()) == text::lower_text(username)
            &&& exists|i: int| 0 <= i < password.len() && 'a' <= #[trigger] password[i] <= 'z'
            &&& exists|i: int| 0 <= i < password.len() && 'A' <= #[trigger] password[i] <= 'Z'
            &&& exists|i: int| 0 <= i < password.len() && '0' <= #[trigger] password[i] <= '9'
            &&& exists|i: int|
                {
                    &&& 0 <= i < password.len()
                    &&& !('a' <= #[trigger] password[i] <= 'z')
                    &&& !('A' <= password[i] <= 'Z')
                    &&& !('0' <= password[i] <= '9')
                }
        },
        password != confirmation ==> password_flaw(username, password, confirmation) == Some(
            PasswordFlaw::Mismatch,
        ),
        password == confirmation && (password.len() < 12 || password.len() > 128)
            ==> password_flaw(username, password, confirmation) == Some(PasswordFlaw::Length),
{
    let low = text::lower_text(password);
    let name = text::lower_text(username);
    assert(low.len() == password.len() && name.len() == username.len());
    if text::has_part(low, name) {
        let at = choose|at: int| text::stands_at(low, at, name);
        assert(low.subrange(at, at + username.len()) == name);
    }
    if exists|at: int|
        0 <= at && at + username.len() <= password.len() && #[trigger] low.subrange(
            at,
            at + username.len(),
        ) == name {
        let at = choose|at: int|
            0 <= at && at + username.len() <= password.len() && #[trigger] low.subrange(
                at,
                at + username.len(),
            ) == name;
        assert(text::stands_at(low, at, name));
    }
    let is_small = |c: char| text::is_lower(c);
    let is_capital = |c: char| text::is_upper(c);
    let is_number = |c: char| text::is_digit(c);
    let is_other = |c: char| !text::is_alphanumeric(c);
    if exists|i: int| 0 <= i < password.len() && 'a' <= #[trigger] password[i] <= 'z' {
        let i = choose|i: int| 0 <= i < password.len() && 'a' <= #[trigger] password[i] <= 'z';
        assert(is_small(password[i]));
    }
    if exists|i: int| 0 <= i < password.len() && 'A' <= #[trigger] password[i] <= 'Z' {
        let i = choose|i: int| 0 <= i < password.len() && 'A' <= #[trigger] password[i] <= 'Z';
        assert(is_capital(password[i]));
    }
    if exists|i: int| 0 <= i < password.len() && '0' <= #[trigger] password[i] <= '9' {
        let i = choose|i: int| 0 <= i < password.len() && '0' <= #[trigger] password[i] <= '9';
        assert(is_number(password[i]));
    }
    if has_any(password, is_small) {
        let i = choose|i: int| 0 <= i < password.len() && is_small(#[trigger] password[i]);
        assert('a' <= password[i] <= 'z');
    }
    if has_any(password, is_capital) {
        let i = choose|i: int| 0 <= i < password.len() && is_capital(#[trigger] password[i]);
        assert('A' <= password[i] <= 'Z');
    }
    if has_any(password, is_number) {
        let i = choose|i: int| 0 <= i < password.len() && is_number(#[trigger] password[i]);
        assert('0' <= password[i] <= '9');
    }
    if has_any(password, is_other) {
        let i = choose|i: int| 0 <= i < password.len() && is_other(#[trigger] password[i]);
        assert(!('a' <= password[i] <= 'z') && !('A' <= password[i] <= 'Z') && !('0' <= password[i]
            <= '9'));
    }
}

/// A setting is accepted where its key is one of those that there are and its value fits: a file
/// size of 1 to 102400 megabytes, 1000 to 1000000 log entries, and `true` or `false` for all others.
pub proof fn law_accepted_setting(key: Seq<char>, value: Seq<char>)
    ensures
        setting_flaw(key, value) is None <==> {
            ||| key == "max_file_size_mb"@ && (text::parse_nat(value) matches Some(size) && 1
                <= size <= 102_400)
            ||| key == "log_retention_count"@ && (text::parse_nat(value) matches Some(count)
                && 1000 <= count <= 1_000_000)
            ||| (key == "encrypt_sync"@ || key == "limit_file_size"@ || key == "clipboard_relay"@
                || key == "sync_text"@ || key == "sync_url"@ || key == "sync_html"@ || key
                == "sync_rtf"@ || key == "sync_image"@ || key == "sync_file"@ || key
                == "sync_color"@) && (value == "true"@ || value == "false"@)
        },
        setting_flaw(key, value) == Some(SettingsFlaw::UnknownKey) <==> !is_setting(key),
{
    reveal_strlit("encrypt_sync");
    reveal_strlit("limit_file_size");
    reveal_strlit("max_file_size_mb");
    reveal_strlit("clipboard_relay");
    reveal_strlit("sync_text");
    reveal_strlit("sync_url");
    reveal_strlit("sync_html");
    reveal_strlit("sync_rtf");
    reveal_strlit("sync_image");
    reveal_strlit("sync_file");
    reveal_strlit("sync_color");
    reveal_strlit("log_retention_count");
    assert(SETTING_KEYS@[0]@ == "encrypt_sync"@);
    assert(SETTING_KEYS@[1]@ == "limit_file_size"@);
    assert(SETTING_KEYS@[2]@ == "max_file_size_mb"@);
    assert(SETTING_KEYS@[3]@ == "clipboard_relay"@);
    assert(SETTING_KEYS@[4]@ == "sync_text"@);
    assert(SETTING_KEYS@[5]@ == "sync_url"@);
    assert(SETTING_KEYS@[6]@ == "sync_html"@);
    assert(SETTING_KEYS@[7]@ == "sync_rtf"@);
    assert(SETTING_KEYS@[8]@ == "sync_image"@);
    assert(SETTING_KEYS@[9]@ == "sync_file"@);
    assert(SETTING_KEYS@[10]@ == "sync_color"@);
    assert(SETTING_KEYS@[11]@ == "log_retention_count"@);
    let size = "max_file_size_mb"@;
    let logs = "log_retention_count"@;
    assert(size.len() == 16 && logs.len() == 19);
    assert("encrypt_sync"@.len() == 12 && "limit_file_size"@.len() == 15
        && "clipboard_relay"@.len() == 15);
    assert("sync_text"@.len() == 9 && "sync_url"@.len() == 8 && "sync_html"@.len() == 9
        && "sync_rtf"@.len() == 8 && "sync_image"@.len() == 10 && "sync_file"@.len() == 9
        && "sync_color"@.len() == 10);
}

/// Settings are accepted exactly where each of them is, and a flaw that is named is one that some
/// setting has.
pub proof fn law_accepted_settings(settings: Seq<(Seq<char>, Seq<char>)>)
    ensures
        settings_flaw(settings) is None <==> forall|i: int|
            0 <= i < settings.len() ==> setting_flaw((#[trigger] settings[i]).0, settings[i].1)
                is None,
        settings_flaw(settings) matches Some(flaw) ==> exists|i: int|
            0 <= i < settings.len() && setting_flaw((#[trigger] settings[i]).0, settings[i].1)
                == Some(flaw),
{
    if settings_flaw(settings) is None {
        assert forall|i: int| 0 <= i < settings.len() implies setting_flaw(
            (#[trigger] settings[i]).0,
            settings[i].1,
        ) is None by {
            match setting_flaw(settings[i].0, settings[i].1) {
                Some(flaw) => {
                    assert(some_setting_has(settings, flaw));
                },
                None => {},
            }
        }
    }
}

/// A pair has the value that follows its first equals sign, under the name before it, whatever white
/// space stands around the pair; under any other name, and without an equals sign, it has none.
pub proof fn law_pair_value(
    part: Seq<char>,
    name: Seq<char>,
    value: Seq<char>,
    other: Seq<char>,
)
    requires
        forall|i: int| 0 <= i < name.len() ==> #[trigger] name[i] != '=',
    ensures
        text::trim(part) == name + seq!['='] + value ==> {
            &&& pair_value(part, name) == Some(value)
            &&& other != name ==> pair_value(part, other) is None
        },
        text::trim(part) == name ==> pair_value(part, other) is None,
{
    let pair = text::trim(part);
    text::law_place_of_char(pair, '=');
    let place = text::place_of_char(pair, '=');
    if pair == name + seq!['='] + value {
        assert(pair[name.len() as int] == '=');
        if place < name.len() {
            assert(pair[place] == name[place]);
        }
        if place > name.len() {
            assert(pair[name.len() as int] != '=');
        }
        assert(pair.take(place) =~= name);
        assert(pair.skip(place + 1) =~= value);
    } else if pair == name && place < pair.len() {
        assert(name[place] == '=');
    }
}

/// Cookies are looked through one after the other: the first that has the name counts.
pub proof fn law_cookie_in(first: Seq<char>, rest: Seq<char>, name: Seq<char>)
    requires
        forall|i: int| 0 <= i < first.len() ==> #[trigger] first[i] != ';',
    ensures
        cookie_in(first, name) == pair_value(first, name),
        pair_value(first, name) is Some ==> cookie_in(first + seq![';'] + rest, name) == pair_value(
            first,
            name,
        ),
        pair_value(first, name) is None ==> cookie_in(first + seq![';'] + rest, name) == cookie_in(
            rest,
            name,
        ),
{
    let whole = first + seq![';'] + rest;
    text::law_place_of_char(first, ';');
    text::law_place_of_char(whole, ';');
    let end = text::place_of_char(first, ';');
    if end < first.len() {
        assert(first[end] == ';');
    }
    assert(first.take(first.len() as int) =~= first);
    let place = text::place_of_char(whole, ';');
    assert(whole[first.len() as int] == ';');
    if place < first.len() {
        assert(whole[place] == first[place]);
    }
    if place > first.len() {
        assert(whole[first.len() as int] != ';');
    }
    assert(whole.take(place) =~= first);
    assert(whole.skip(place + 1) =~= rest);
}

/// The cookie of a session holds the token and nothing else of it, is kept from scripts and from
/// other sites, and lasts twelve hours, as the session does.
pub proof fn law_session_cookie(token: Seq<char>)
    ensures
        ({
            let cookie = session_cookie_text(token);
            let end = 25 + token.len() as int;
            &&& cookie.take(25) == "crosspaste_admin_session="@
            &&& cookie.subrange(25, end) == token
            &&& cookie.skip(end) == "; Path=/; HttpOnly; SameSite=Strict; Max-Age=43200"@
        }),
        SESSION_TTL_MS == 12 * 60 * 60 * 1000,
{
    reveal_strlit("crosspaste_admin_session");
    reveal_strlit("crosspaste_admin_session=");
    reveal_strlit("=");
    reveal_strlit("; Path=/; HttpOnly; SameSite=Strict; Max-Age=");
    reveal_strlit("; Path=/; HttpOnly; SameSite=Strict; Max-Age=43200");
    reveal_with_fuel(text::decimal_nat, 6);
    let cookie = session_cookie_text(token);
    let end = 25 + token.len() as int;
    assert(text::decimal(43_200) =~= seq!['4', '3', '2', '0', '0']);
    assert(cookie.take(25) =~= "crosspaste_admin_session="@);
    assert(cookie.subrange(25, end) =~= token);
    assert(cookie.skip(end) =~= "; Path=/; HttpOnly; SameSite=Strict; Max-Age=43200"@);
}

/// A login that is refused is refused alike for an unknown name and for a wrong password, and the
/// audit log is told which it was; a code is asked for only once the password is right.
pub proof fn law_refused_login(
    account: Option<AdminUserView>,
    password_matches: bool,
    code: Option<Seq<char>>,
    code_matches: bool,
)
    ensures
        ({
            let outcome = login_rule(account, password_matches, code, code_matches);
            let blank = code is None || text::trim(code->0).len() == 0;
            &&& account is None ==> outcome == (LoginCheckView::Denied {
                error: AdminError::BadCredentials,
                audit: Some(
                    AuditEntryView {
                        username: None,
                        action: "login_failed"@,
                        detail: "unknown username"@,
                    },
                ),
            })
            &&& account matches Some(user) ==> {
                &&& !password_matches ==> outcome == (LoginCheckView::Denied {
                    error: AdminError::BadCredentials,
                    audit: Some(
                        AuditEntryView {
                            username: Some(user.username),
                            action: "login_failed"@,
                            detail: "invalid password"@,
                        },
                    ),
                })
                &&& outcome is CodeNeeded <==> password_matches && user.mfa_enabled && blank
                &&& password_matches && user.mfa_enabled && !blank && !code_matches ==> outcome == (
                LoginCheckView::Denied { error: AdminError::BadMfaCode, audit: None })
            }
        }),
{
}

/// A password is changed exactly where the account is there, the current password is right, and the
/// new one is accepted and another.
pub proof fn law_change_password(
    known: bool,
    current_matches: bool,
    flaw: Option<PasswordFlaw>,
    same: bool,
)
    ensures
        change_rule(known, current_matches, flaw, same) is Ok <==> known && current_matches && flaw
            is None && !same,
        known && !current_matches ==> change_rule(known, current_matches, flaw, same) == Err::<
            (),
            AdminError,
        >(AdminError::WrongPassword),
        known && current_matches ==> (flaw matches Some(found) ==> change_rule(
            known,
            current_matches,
            flaw,
            same,
        ) == Err::<(), AdminError>(AdminError::NewPassword(found))),
        known && current_matches && flaw is None && same ==> change_rule(
            known,
            current_matches,
            flaw,
            same,
        ) == Err::<(), AdminError>(AdminError::SamePassword),
        !known ==> change_rule(known, current_matches, flaw, same) == Err::<(), AdminError>(
            AdminError::InvalidLogin,
        ),
{
}

/// A code is an account's only where the account has a secret, and then where the secret accepts it.
pub proof fn law_account_code(account: AdminUserSecret, code: Seq<char>, now_ms: i64)
    ensures
        account.mfa_secret is None ==> !account_code(account, code, now_ms),
        account.mfa_secret matches Some(secret) ==> (account_code(account, code, now_ms)
            <==> totp::totp_accepts(secret@, code, now_ms)),
{
}

/// Whoever is not logged in, or no longer, or gives the wrong name, password or code to log in, is
/// answered as unauthorised; who has to change the password first, as forbidden; any other refusal
/// is one of the request.
pub proof fn law_admin_status(error: AdminError)
    ensures
        error.http_status() == 401 <==> error is BadCredentials || error is BadMfaCode || error
            is InvalidLogin || error is NotLoggedIn || error is SessionExpired,
        error.http_status() == 403 <==> error is MustChangePassword,
        error.http_status() == 400 || error.http_status() == 401 || error.http_status() == 403,
{
}

/// An authenticator application is given the account's name and the secret, and that codes have six
/// digits and change twice a minute.
pub proof fn law_otpauth_uri(username: Seq<char>, secret: Seq<char>)
    ensures
        ({
            let uri = otpauth_uri(username, secret);
            let label = text::percent_text(text::utf8("CrossPaste Server:"@ + username));
            let start = 15 + label.len() as int;
            let end = start + 8 + secret.len() as int;
            &&& uri.take(15) == "otpauth://totp/"@
            &&& uri.subrange(15, start) == label
            &&& uri.subrange(start, start + 8) == "?secret="@
            &&& uri.subrange(start + 8, end) == secret
            &&& uri.skip(end) == "&issuer=CrossPaste%20Server&algorithm=SHA1&digits=6&period=30"@
        }),
{
    reveal_strlit("otpauth://totp/");
    reveal_strlit("?secret=");
    let uri = otpauth_uri(username, secret);
    let label = text::percent_text(text::utf8("CrossPaste Server:"@ + username));
    let start = 15 + label.len() as int;
    let end = start + 8 + secret.len() as int;
    assert(uri.take(15) =~= "otpauth://totp/"@);
    assert(uri.subrange(15, start) =~= label);
    assert(uri.subrange(start, start + 8) =~= "?secret="@);
    assert(uri.subrange(start + 8, end) =~= secret);
    assert(uri.skip(end) =~= "&issuer=CrossPaste%20Server&algorithm=SHA1&digits=6&period=30"@);
}

/// A pairing that an administrator opens shows the token in digits and as a code to scan that holds
/// it, lasts half a minute, and is noted in the audit log under the administrator's name.
pub proof fn law_pairing_shown(
    pairing: CreatedPairing,
    username: Seq<char>,
    token: u32,
    json: Seq<u8>,
    now_ms: i64,
)
    requires
        is_pairing(pairing, username, token, json, now_ms),
    ensures
        pairing.code@.len() >= 6,
        text::digits_value(pairing.code@) == token,
        pairing.expires_at_ms == now_ms + 30_000,
        qr_data_uri(codec::base64_encoded(sync_info::qr_bytes(json, token))) matches Ok(uri) && uri
            == pairing.qr_data_uri@,
        pairing.audit@.username == Some(username),
        pairing.audit@.action == "pairing_code_created"@,
        pairing.audit@.detail.take(6) == "token "@,
        pairing.audit@.detail.skip(6) == pairing.code@,
{
    reveal_strlit("token ");
    text::law_six_digits(token as nat);
    assert(pairing.audit@.detail.take(6) =~= "token "@);
    assert(pairing.audit@.detail.skip(6) =~= pairing.code@);
}

/// Administrators see the server before all others, those who are online before those who are not,
/// and otherwise by name.
pub proof fn law_shown_order(a: AdminClientView, b: AdminClientView)
    ensures
        a.is_server && !b.is_server ==> <AdminClient as Ordered>::le(a, b)
            && !<AdminClient as Ordered>::le(b, a),
        a.is_server == b.is_server && a.online && !b.online ==> <AdminClient as Ordered>::le(a, b)
            && !<AdminClient as Ordered>::le(b, a),
        a.is_server == b.is_server && a.online == b.online ==> (<AdminClient as Ordered>::le(a, b)
            <==> text::text_le(a.device_name, b.device_name)),
{
}

/// A client counts as online where it has a tunnel or was heard of in the last 45 seconds. It is
/// shown with what was kept of what it told about itself, or else with what the hub was told, and as
/// last seen by its tunnel, if it has one.
pub proof fn law_listed(
    listed: ListedClient,
    hub: HubView,
    registry: RegistryView,
    now_ms: i64,
)
    ensures
        ({
            let shown = listed_view(listed, hub, registry, now_ms);
            let client = listed.client@;
            let id = client.app_instance_id;
            let told = listed.info is Some || hub.client_sync_infos.contains_key(id);
            let info = if listed.info is Some {
                listed.info->0@
            } else {
                hub.client_sync_infos[id]
            };
            let tunnel = registry.devices[id];
            &&& shown.app_instance_id == id
            &&& shown.paired_at_ms == Some(client.paired_at_ms)
            &&& !shown.is_server
            &&& shown.online <==> registry.devices.contains_key(id) || (client.last_seen_ms
                is Some && now_ms - client.last_seen_ms->0 <= 45_000)
            &&& registry.devices.contains_key(id) ==> shown.last_seen_ms == Some(
                tunnel.last_seen_ms,
            )
            &&& !registry.devices.contains_key(id) ==> shown.last_seen_ms == client.last_seen_ms
            &&& told ==> {
                &&& shown.device_name == info.endpoint_info.device_name
                &&& shown.device_id == Some(info.endpoint_info.device_id)
                &&& shown.platform_name == info.endpoint_info.platform.name
                &&& shown.platform_version == info.endpoint_info.platform.version
                &&& shown.architecture == info.endpoint_info.platform.arch
                &&& shown.app_version == info.app_info.app_version
                &&& shown.user_name == Some(info.app_info.user_name)
                &&& shown.port == Some(info.endpoint_info.port)
                &&& shown.addresses.len() == info.endpoint_info.host_info_list.len()
                &&& forall|i: int|
                    0 <= i < shown.addresses.len() ==> #[trigger] shown.addresses[i]
                        == info.endpoint_info.host_info_list[i].host_address
            }
            &&& !told ==> {
                &&& shown.platform_name == "Unknown"@
                &&& shown.device_id is None && shown.user_name is None && shown.port is None
                &&& shown.addresses.len() == 0
                &&& registry.devices.contains_key(id) && tunnel.device_name is Some
                    ==> shown.device_name == tunnel.device_name->0
                &&& !registry.devices.contains_key(id) || tunnel.device_name is None
                    ==> shown.device_name == id
                &&& registry.devices.contains_key(id) && tunnel.app_version is Some
                    ==> shown.app_version == tunnel.app_version->0
            }
        }),
{
}

/// The server is shown as what it tells of itself, online and seen now, and as paired with nobody.
pub proof fn law_server_shown(info: SyncInfoView, now_ms: i64)
    ensures
        ({
            let shown = server_view(info, now_ms);
            &&& shown.is_server && shown.online
            &&& shown.app_instance_id == info.app_info.app_instance_id
            &&& shown.device_name == info.endpoint_info.device_name
            &&& shown.device_id == Some(info.endpoint_info.device_id)
            &&& shown.platform_name == info.endpoint_info.platform.name
            &&& shown.platform_version == info.endpoint_info.platform.version
            &&& shown.architecture == info.endpoint_info.platform.arch
            &&& shown.app_version == info.app_info.app_version
            &&& shown.user_name == Some(info.app_info.user_name)
            &&& shown.port == Some(info.endpoint_info.port)
            &&& shown.last_seen_ms == Some(now_ms)
            &&& shown.paired_at_ms is None
            &&& shown.addresses.len() == info.endpoint_info.host_info_list.len()
            &&& forall|i: int|
                0 <= i < shown.addresses.len() ==> #[trigger] shown.addresses[i]
                    == info.endpoint_info.host_info_list[i].host_address
        }),
{
}

/// What is kept of a token is the SHA-256 of its bytes, two hexadecimal digits for each byte.
pub proof fn law_token_digest(token: Seq<char>, place: int)
    ensures
        ({
            let digest = codec::sha256_of(text::utf8(token));
            0 <= place < digest.len() ==> {
                &&& token_digest(token).len() == 2 * digest.len()
                &&& token_digest(token)[2 * place] == "0123456789abcdef"@[digest[place] as int / 16]
                &&& token_digest(token)[2 * place + 1] == "0123456789abcdef"@[digest[place] as int
                    % 16]
            }
        }),
{
    let digest = codec::sha256_of(text::utf8(token));
    if 0 <= place < digest.len() {
        text::law_hex_text(digest, place);
    }
}

/// A picture of a code is told as a data URI: the PNG file in Base64.
pub proof fn law_qr_data_uri(
    data: Seq<char>,
    width: u32,
    height: u32,
    pixels: Seq<u8>,
    png: Seq<u8>,
)
    ensures
        qr::qr_picture(data, 320) is Err ==> qr_data_uri(data) is Err,
        qr::qr_picture(data, 320) == Ok::<(u32, u32, Seq<u8>), Seq<char>>((width, height, pixels))
            ==> {
            &&& qr::png_file(width, height, pixels) is Err ==> qr_data_uri(data) is Err
            &&& qr::png_file(width, height, pixels) == Ok::<Seq<u8>, Seq<char>>(png) ==> {
                &&& qr_data_uri(data) matches Ok(uri)
                &&& uri.take(22) == "data:image/png;base64,"@
                &&& uri.skip(22) == codec::base64_encoded(png)
            }
        },
{
    reveal_strlit("data:image/png;base64,");
    if let Ok(uri) = qr_data_uri(data) {
        if qr::qr_picture(data, 320) == Ok::<(u32, u32, Seq<u8>), Seq<char>>(
            (width, height, pixels),
        ) && qr::png_file(width, height, pixels) == Ok::<Seq<u8>, Seq<char>>(png) {
            assert(uri.take(22) =~= "data:image/png;base64,"@);
            assert(uri.skip(22) =~= codec::base64_encoded(png));
        }
    }
}

/// The cookie of a request is looked for in its first cookie header.
pub proof fn law_cookie_of(request: Seq<HeaderView>, name: Seq<char>)
    ensures
        headers::text_of(request, "cookie"@) matches Some(cookies) ==> cookie_of(request, name)
            == cookie_in(cookies, name),
        headers::text_of(request, "cookie"@) is None ==> cookie_of(request, name) is None,
{
}

/// What administrators do is noted by name, and with the client or the settings that it concerns.
pub proof fn law_audit_details(text: String)
    ensures
        AdminAct::SettingsUpdated(text).detail() == text@,
        AdminAct::SettingsUpdated(text).action() == "settings_updated"@,
        AdminAct::ClientRemoved(text).detail() == text@,
        AdminAct::ClientRemoved(text).action() == "client_removed"@,
{
}

/// The token of a session is 64 digits of a hexadecimal number in lower case.
pub proof fn law_session_token(token: Seq<char>, place: int)
    requires
        is_hex_of(token, SESSION_TOKEN_LEN as nat),
        0 <= place < 64,
    ensures
        token.len() == 64,
        '0' <= token[place] <= '9' || 'a' <= token[place] <= 'f',
{
    let bytes = choose|bytes: Seq<u8>|
        bytes.len() == SESSION_TOKEN_LEN && token == #[trigger] text::hex_text(bytes);
    reveal_strlit("0123456789abcdef");
    text::law_hex_text(bytes, place / 2);
    assert(place == 2 * (place / 2) || place == 2 * (place / 2) + 1);
}

} // verus!
