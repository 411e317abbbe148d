//! Accounts, passwords, codes, sessions and settings.
use base64::engine::general_purpose::STANDARD;
use base64::Engine;
use crosspaste_server::admin::{
    active_since, authenticated, begin_session, change_password, check_login, cookie,
    grant_login, hex, login_name, mfa_disable, mfa_enable, mfa_setup, random_token,
    require_ready_user, session_digest, set_session_cookie, token_hash, url_encode,
    validate_password, validate_settings, AdminAct, AdminError, LoginCheck, PasswordFlaw, SettingsFlaw,
    SESSION_COOKIE,
};
use crosspaste_server::database::{
    default_admin, hash_password, legacy_client, legacy_keys, load_or_create_server_keys,
    log_page, log_retention, session_is_live, takes_over_legacy, verify_password,
    with_new_password, AdminUser, AdminUserSecret, KeyDocuments, LegacyClient, LegacyHub, DEFAULT_ADMIN_PASSWORD, DEFAULT_ADMIN_USERNAME,
    DEFAULT_SETTINGS,
};
use crosspaste_server::headers::Header;
use crosspaste_server::secure::{SecureError, ServerKeys};
use p256::pkcs8::DecodePrivateKey;
use p256::SecretKey;
use crosspaste_server::totp::{code_of, random_mfa_secret, totp, verify_totp};

const SECRET: &str = "GEZDGNBVGY3TQOJQGEZDGNBVGY3TQOJQ";
const STRONG: &str = "A-Strong-New-Pass9!";

fn user(must_change_password: bool) -> AdminUser {
    AdminUser { username: "admin".to_string(), must_change_password, mfa_enabled: false }
}

fn account(password: &str, mfa_enabled: bool) -> AdminUserSecret {
    AdminUserSecret {
        user: AdminUser {
            username: "admin".to_string(),
            must_change_password: false,
            mfa_enabled,
        },
        password_hash: hash_password(password).unwrap(),
        mfa_secret: Some(SECRET.to_string()),
    }
}

fn cookies(value: &str) -> Vec<Header> {
    vec![Header { name: "Cookie".to_string(), text: Some(value.to_string()) }]
}

#[test]
fn password_policy_rejects_default() {
    assert!(validate_password("admin", DEFAULT_ADMIN_PASSWORD, DEFAULT_ADMIN_PASSWORD).is_err());
}

#[test]
fn totp_matches_rfc_vector() {
    assert_eq!(totp("GEZDGNBVGY3TQOJQGEZDGNBVGY3TQOJQ", 1).unwrap(), "287082");
}

#[test]
fn password_policy_names_the_flaw() {
    let check = |password: &str| validate_password("root", password, password);
    assert_eq!(validate_password("root", STRONG, "other"), Err(PasswordFlaw::Mismatch));
    assert_eq!(check("Aa1!汉字汉字"), Err(PasswordFlaw::Length));
    assert_eq!(check("Aa1!汉字汉字汉字汉字"), Ok(()));
    let longest = format!("Aa1!{}", "汉".repeat(124));
    assert_eq!(check(&longest), Ok(()));
    assert_eq!(check(&format!("{longest}x")), Err(PasswordFlaw::Length));
    assert_eq!(check("Short9!aaaa"), Err(PasswordFlaw::Length));
    assert_eq!(check("Short9!aaaab"), Ok(()));
    assert_eq!(check(&format!("A9!{}", "a".repeat(125))), Ok(()));
    assert_eq!(check(&format!("A9!{}", "a".repeat(126))), Err(PasswordFlaw::Length));
    assert_eq!(check(DEFAULT_ADMIN_PASSWORD), Err(PasswordFlaw::Guessable));
    assert_eq!(check("My-RooT-Pass9!"), Err(PasswordFlaw::Guessable));
    assert_eq!(check("no-upper-case-9"), Err(PasswordFlaw::Simple));
    assert_eq!(check("NO-LOWER-CASE-9"), Err(PasswordFlaw::Simple));
    assert_eq!(check("No-Digit-At-All"), Err(PasswordFlaw::Simple));
    assert_eq!(check("NoSpecialSign99"), Err(PasswordFlaw::Simple));
    assert_eq!(check("Umlaut9Only\u{e4}\u{e4}"), Ok(()));
    assert_eq!(check(STRONG), Ok(()));
}

#[test]
fn codes_are_good_for_three_periods() {
    let code = totp(SECRET, 40).unwrap();
    for (now_ms, good) in [
        (38 * 30_000, false),
        (39 * 30_000, true),
        (40 * 30_000, true),
        (42 * 30_000 - 1, true),
        (42 * 30_000, false),
    ] {
        assert_eq!(verify_totp(SECRET, &code, now_ms), good, "{now_ms}");
    }
    assert!(verify_totp(SECRET, &format!(" {code}\n"), 40 * 30_000));
    assert!(!verify_totp(SECRET, &code[..5], 40 * 30_000));
    assert!(!verify_totp(SECRET, "28708a", 30_000));
    assert!(verify_totp(SECRET, "287082", 0));
    assert!(!verify_totp("not base32", "287082", 0));
    assert_eq!(totp("not base32", 1), None);
    assert_eq!(totp(SECRET, 59 / 30).unwrap(), "287082");
    assert_eq!(totp(SECRET, 1_111_111_109 / 30).unwrap(), "081804");
    assert_eq!(totp(SECRET, 20_000_000_000 / 30).unwrap(), "353130");
}

#[test]
fn the_code_is_cut_out_of_the_digest() {
    let mut digest = [0u8; 20];
    digest[19] = 0xa3;
    digest[3] = 0xff;
    digest[6] = 0x2a;
    assert_eq!(code_of(&digest), 0x7f00_002a % 1_000_000);
}

#[test]
fn new_secrets_are_twenty_bytes() {
    let secret = random_mfa_secret();
    assert_eq!(data_encoding::BASE32_NOPAD.decode(secret.as_bytes()).unwrap().len(), 20);
    assert_ne!(secret, random_mfa_secret());
    assert!(totp(&secret, 1).is_some());
}

#[test]
fn passwords_are_kept_as_hashes() {
    let hash = hash_password("correct").unwrap();
    assert!(hash.starts_with("$argon2id$"));
    assert!(hash.starts_with("$argon2id$"));
    assert_ne!(hash, hash_password("correct").unwrap());
    assert!(verify_password("correct", &hash));
    assert!(!verify_password("wrong", &hash));
    assert!(!verify_password("correct", "no hash"));
}

#[test]
fn creates_default_admin_with_forced_password_change() {
    let user = default_admin().unwrap();
    assert_eq!(user.user.username, DEFAULT_ADMIN_USERNAME);
    assert!(user.user.must_change_password);
    assert!(verify_password(DEFAULT_ADMIN_PASSWORD, &user.password_hash));
    let updated = with_new_password(&user, "A-Strong-New-Pass9!").unwrap();
    assert!(!updated.user.must_change_password);
    assert!(verify_password("A-Strong-New-Pass9!", &updated.password_hash));
    assert!(require_ready_user(Some(updated.user)).is_ok());
    assert!(matches!(
        require_ready_user(Some(user.user)),
        Err(AdminError::MustChangePassword)
    ));
}

#[test]
fn sessions_last_until_their_time() {
    assert!(session_is_live(10, 10));
    assert!(!session_is_live(9, 10));
}

#[test]
fn a_login_needs_what_the_account_asks_for() {
    let now = 40 * 30_000;
    let plain = account(STRONG, false);
    assert!(matches!(
        check_login(None, STRONG, None, now),
        LoginCheck::Denied { error: AdminError::BadCredentials, audit: Some(entry) }
            if entry.username.is_none() && entry.action == "login_failed"
                && entry.detail == "unknown username"
    ));
    assert!(matches!(
        check_login(Some(&plain), "wrong", None, now),
        LoginCheck::Denied { error: AdminError::BadCredentials, audit: Some(entry) }
            if entry.username.as_deref() == Some("admin") && entry.detail == "invalid password"
    ));
    assert!(matches!(check_login(Some(&plain), STRONG, None, now), LoginCheck::Passed));
    let guarded = account(STRONG, true);
    let code = totp(SECRET, 40).unwrap();
    assert!(matches!(check_login(Some(&guarded), STRONG, None, now), LoginCheck::CodeNeeded));
    assert!(matches!(
        check_login(Some(&guarded), STRONG, Some(" "), now),
        LoginCheck::CodeNeeded
    ));
    assert!(matches!(
        check_login(Some(&guarded), STRONG, Some("000000x"), now),
        LoginCheck::Denied { error: AdminError::BadMfaCode, audit: None }
    ));
    assert!(matches!(
        check_login(Some(&guarded), STRONG, Some(&code), now),
        LoginCheck::Passed
    ));
    assert_eq!(login_name(" admin\t"), "admin");
}

#[test]
fn a_session_is_kept_by_its_digest() {
    let grant = begin_session("admin", "token".to_string(), 1_000);
    assert_eq!(grant.token, "token");
    assert_eq!(grant.session.username, "admin");
    assert_eq!(
        grant.session.token_hash,
        "3c469e9d6c5875d37a43f353d4f88e61fcf812c66eee3457465a40b0da4153e0"
    );
    assert_eq!(grant.session.expires_at_ms, 43_201_000);
    assert_eq!(grant.audit.action, "login");
    assert_eq!(grant.audit.detail, "admin login");
    let fresh = grant_login("admin", 0);
    assert_eq!(fresh.token.len(), 64);
    assert_eq!(fresh.session.token_hash, token_hash(&fresh.token));
    assert_ne!(random_token(), random_token());
}

#[test]
fn cookies_are_read_and_written() {
    let text = "a=1; crosspaste_admin_session=x=y ;b";
    assert_eq!(cookie(&cookies(text), SESSION_COOKIE).as_deref(), Some("x=y"));
    assert_eq!(cookie(&cookies(text), "a").as_deref(), Some("1"));
    assert_eq!(cookie(&cookies(text), "b"), None);
    assert_eq!(cookie(&cookies("a=1;a=2"), "a").as_deref(), Some("1"));
    assert_eq!(cookie(&cookies("a =1"), "a"), None);
    assert_eq!(cookie(&cookies(""), "a"), None);
    assert_eq!(cookie(&[], "a"), None);
    assert_eq!(
        set_session_cookie("t"),
        "crosspaste_admin_session=t; Path=/; HttpOnly; SameSite=Strict; Max-Age=43200"
    );
    assert_eq!(session_digest(&cookies(text)).unwrap(), token_hash("x=y"));
    assert_eq!(session_digest(&[]), Err(AdminError::NotLoggedIn));
}

#[test]
fn only_a_ready_user_gets_on() {
    assert_eq!(authenticated(Some(user(true))).unwrap().username, "admin");
    assert!(matches!(authenticated(None), Err(AdminError::SessionExpired)));
    assert!(require_ready_user(Some(user(false))).is_ok());
    assert!(matches!(require_ready_user(None), Err(AdminError::SessionExpired)));
}

#[test]
fn a_password_is_changed_by_who_knows_it() {
    let old = account(STRONG, false);
    let change = |current: &str, new: &str| change_password(Some(&old), "admin", current, new, new);
    assert_eq!(
        change_password(None, "admin", STRONG, STRONG, STRONG),
        Err(AdminError::InvalidLogin)
    );
    assert_eq!(change("wrong", "Another-Pass9!"), Err(AdminError::WrongPassword));
    assert_eq!(change(STRONG, "short"), Err(AdminError::NewPassword(PasswordFlaw::Length)));
    assert_eq!(change(STRONG, STRONG), Err(AdminError::SamePassword));
    assert_eq!(change(STRONG, "Another-Pass9!"), Ok(()));
}

#[test]
fn codes_are_switched_on_and_off() {
    let now = 40 * 30_000;
    let code = totp(SECRET, 40).unwrap();
    assert_eq!(mfa_enable(None, &code, now), Err(AdminError::NoMfaSecret));
    assert_eq!(mfa_enable(Some(SECRET), "000000x", now), Err(AdminError::WrongCode));
    assert_eq!(mfa_enable(Some(SECRET), &code, now), Ok(()));
    let guarded = account(STRONG, true);
    assert_eq!(mfa_disable(None, STRONG, &code, now), Err(AdminError::InvalidLogin));
    assert_eq!(
        mfa_disable(Some(&guarded), "wrong", &code, now),
        Err(AdminError::WrongPasswordOrCode)
    );
    assert_eq!(
        mfa_disable(Some(&guarded), STRONG, "000000x", now),
        Err(AdminError::WrongPasswordOrCode)
    );
    assert_eq!(mfa_disable(Some(&guarded), STRONG, &code, now), Ok(()));
    let setup = mfa_setup("ad min", SECRET.to_string()).unwrap();
    assert_eq!(
        setup.otpauth_uri,
        format!(
            "otpauth://totp/CrossPaste%20Server%3Aad%20min?secret={SECRET}\
             &issuer=CrossPaste%20Server&algorithm=SHA1&digits=6&period=30"
        )
    );
    assert!(setup.qr_data_uri.starts_with("data:image/png;base64,iVBORw0KGgo"));
    assert!(mfa_setup(&"x".repeat(4000), SECRET.to_string()).is_err());
}

#[test]
fn settings_are_checked() {
    let one = |key: &str, value: &str| validate_settings(&[(key.to_string(), value.to_string())]);
    let defaults: Vec<(String, String)> =
        DEFAULT_SETTINGS.iter().map(|(key, value)| (key.to_string(), value.to_string())).collect();
    assert_eq!(validate_settings(&defaults), Ok(()));
    assert_eq!(validate_settings(&[]), Ok(()));
    assert_eq!(one("nonsense", "true"), Err(SettingsFlaw::UnknownKey));
    for value in ["0", "102401", "", "-1", "1.5", "18446744073709551616"] {
        assert_eq!(one("max_file_size_mb", value), Err(SettingsFlaw::FileSize), "{value}");
    }
    for value in ["1", "102400", "+7", "2048"] {
        assert_eq!(one("max_file_size_mb", value), Ok(()), "{value}");
    }
    assert_eq!(one("log_retention_count", "999"), Err(SettingsFlaw::LogRetention));
    assert_eq!(one("log_retention_count", "1000000"), Ok(()));
    assert_eq!(one("sync_text", "yes"), Err(SettingsFlaw::Switch));
    assert_eq!(one("sync_text", "false"), Ok(()));
    let both = [
        ("sync_text".to_string(), "yes".to_string()),
        ("max_file_size_mb".to_string(), "0".to_string()),
    ];
    assert_eq!(validate_settings(&both), Err(SettingsFlaw::FileSize));
}

#[test]
fn refusals_of_administrators_have_status_and_words() {
    let cases = [
        (AdminError::BadCredentials, 401, "用户名或密码错误"),
        (AdminError::BadMfaCode, 401, "MFA 验证码错误"),
        (AdminError::InvalidLogin, 401, "登录状态无效"),
        (AdminError::WrongPassword, 400, "当前密码错误"),
        (AdminError::NewPassword(PasswordFlaw::Mismatch), 400, "两次输入的新密码不一致"),
        (AdminError::NewPassword(PasswordFlaw::Length), 400, "密码长度必须为 12 到 128 个字符"),
        (AdminError::NewPassword(PasswordFlaw::Guessable), 400, "密码不能使用默认密码或包含用户名"),
        (
            AdminError::NewPassword(PasswordFlaw::Simple),
            400,
            "密码必须同时包含大小写字母、数字和特殊字符",
        ),
        (AdminError::SamePassword, 400, "新密码不能与当前密码相同"),
        (AdminError::NoMfaSecret, 400, "请先生成 MFA 密钥"),
        (AdminError::WrongCode, 400, "验证码错误"),
        (AdminError::WrongPasswordOrCode, 400, "密码或验证码错误"),
        (AdminError::NotLoggedIn, 401, "请先登录"),
        (AdminError::SessionExpired, 401, "登录已过期"),
        (AdminError::MustChangePassword, 403, "首次登录必须修改密码"),
        (AdminError::NewSettings(SettingsFlaw::UnknownKey), 400, "包含未知设置项"),
        (
            AdminError::NewSettings(SettingsFlaw::FileSize),
            400,
            "最大文件大小必须在 1 到 102400 MB 之间",
        ),
        (
            AdminError::NewSettings(SettingsFlaw::LogRetention),
            400,
            "日志存储上限必须在 1000 到 1000000 条之间",
        ),
        (AdminError::NewSettings(SettingsFlaw::Switch), 400, "开关值必须为 true 或 false"),
    ];
    for (error, status, words) in cases {
        assert_eq!(error.status(), status);
        assert_eq!(error.message(), words);
    }
}

#[test]
fn texts_are_escaped_and_spelled() {
    assert_eq!(url_encode("a-._~Z9 /:\u{e9}"), "a-._~Z9%20%2F%3A%C3%A9");
    assert_eq!(hex(&[0, 15, 16, 255]), "000f10ff");
    assert_eq!(active_since(50_000), 5_000);
}

#[test]
fn log_retention_follows_the_setting() {
    assert_eq!(log_retention(Some("1000")), 1000);
    assert_eq!(log_retention(Some("many")), 10_000);
    assert_eq!(log_retention(Some("")), 10_000);
    assert_eq!(log_retention(None), 10_000);
    assert_eq!(log_page(200), 200);
    assert_eq!(log_page(1005), 1000);
}

#[test]
fn keys_are_made_once_and_read_back() {
    let made = load_or_create_server_keys(None).unwrap();
    let documents = made.to_save.unwrap();
    let copy = KeyDocuments { sign: documents.sign.clone(), crypt: documents.crypt.clone() };
    let read = load_or_create_server_keys(Some(copy)).unwrap();
    assert!(read.to_save.is_none());
    assert_eq!(
        read.keys.crypt_public_key_der_b64().unwrap(),
        made.keys.crypt_public_key_der_b64().unwrap()
    );
    assert_eq!(
        read.keys.sign_public_key_der_b64().unwrap(),
        made.keys.sign_public_key_der_b64().unwrap()
    );
    assert_ne!(documents.sign, documents.crypt);
    let broken = KeyDocuments { sign: vec![1], crypt: documents.crypt };
    assert!(matches!(
        load_or_create_server_keys(Some(broken)),
        Err(SecureError::PrivateKey(words))
            if words == SecretKey::from_pkcs8_der(&[1]).unwrap_err().to_string()
    ));
}

#[test]
fn imports_legacy_hub_state_once() {
    let keys = ServerKeys::generate();
    let (sign, crypt) = keys.private_keys_pkcs8().unwrap();
    let legacy = LegacyHub {
        sign_private_key: STANDARD.encode(&sign),
        crypt_private_key: STANDARD.encode(&crypt),
        clients: vec![LegacyClient {
            app_instance_id: "legacy-client".to_string(),
            paired_at_ms: 123,
            crypt_public_key: STANDARD.encode([1, 2, 3]),
        }],
    };
    assert!(takes_over_legacy(false, true));
    let documents = legacy_keys(&legacy).unwrap();
    assert_eq!((&documents.sign, &documents.crypt), (&sign, &crypt));
    let client = legacy_client(&legacy.clients[0]).unwrap();
    assert_eq!(client.app_instance_id, "legacy-client");
    assert_eq!(client.paired_at_ms, 123);
    assert_eq!(client.crypt_public_key, vec![1, 2, 3]);
    assert!(!takes_over_legacy(true, true));
    assert!(!takes_over_legacy(false, false));
    let broken = LegacyClient {
        app_instance_id: "x".to_string(),
        paired_at_ms: 0,
        crypt_public_key: "?".to_string(),
    };
    assert!(matches!(legacy_client(&broken), Err(SecureError::Base64(words))
        if words == "Invalid symbol 63, offset 0."));
    let unreadable = LegacyHub { crypt_private_key: "?".to_string(), ..legacy };
    assert!(matches!(legacy_keys(&unreadable), Err(SecureError::Base64(words))
        if words == "Invalid symbol 63, offset 0."));
}

#[test]
fn what_administrators_do_is_told() {
    for (act, action, detail) in [
        (AdminAct::PasswordChanged, "password_changed", "password updated"),
        (AdminAct::MfaEnabled, "mfa_enabled", "TOTP enabled"),
        (AdminAct::MfaDisabled, "mfa_disabled", "TOTP disabled"),
        (AdminAct::SettingsUpdated("{}".to_string()), "settings_updated", "{}"),
        (AdminAct::ClientRemoved("c".to_string()), "client_removed", "c"),
    ] {
        let entry = act.entry("root");
        assert_eq!(entry.username.as_deref(), Some("root"));
        assert_eq!(entry.action, action);
        assert_eq!(entry.detail, detail);
    }
}
