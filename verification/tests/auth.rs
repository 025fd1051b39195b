//! Signing in, sessions and passwords.
use hmac::{KeyInit, Mac};
use wherebus::auth::{
    hash_password, hash_password_from, hash_password_with, user_from_members, verify_init_data, verify_password, AdminSessions, AuthError, JsonMember, Session,
    Sessions, TelegramUser, ADMIN_SESSION_TTL_SECS, MAX_AUTH_AGE_SECS, SESSION_TTL_SECS,
};
use wherebus::crypto::{constant_time_eq, decode_hex, hex, pbkdf2, percent_decode, unescape};

const TOKEN: &str = "123456:TEST-TOKEN";

fn hmac(key: &[u8], message: &[u8]) -> Vec<u8> {
    let mut mac = hmac::Hmac::<sha2::Sha256>::new_from_slice(key).unwrap();
    mac.update(message);
    mac.finalize().into_bytes().to_vec()
}

/// Data that is signed as Telegram signs it.
fn sign(pairs: &[(&str, &str)]) -> String {
    let mut sorted: Vec<(&str, &str)> = pairs.to_vec();
    sorted.sort_by(|a, b| a.0.cmp(b.0));
    let check = sorted
        .iter()
        .map(|(key, value)| format!("{key}={value}"))
        .collect::<Vec<_>>()
        .join("\n");
    let secret = hmac(b"WebAppData", TOKEN.as_bytes());
    let digest = hmac(&secret, check.as_bytes());
    let hash: String = digest.iter().map(|byte| format!("{byte:02x}")).collect();
    let encoded = sorted
        .iter()
        .map(|(key, value)| format!("{key}={}", percent_encode(value)))
        .collect::<Vec<_>>()
        .join("&");
    format!("{encoded}&hash={hash}")
}

fn percent_encode(raw: &str) -> String {
    raw.bytes()
        .map(|byte| match byte {
            b'A'..=b'Z' | b'a'..=b'z' | b'0'..=b'9' | b'-' | b'_' | b'.' | b'~' => (byte as char).to_string(),
            other => format!("%{other:02X}"),
        })
        .collect()
}

fn user(id: i64) -> TelegramUser {
    TelegramUser { id, name: "小明".into(), username: None }
}

#[test]
fn accepts_a_correctly_signed_init_data() {
    let user = r#"{"id":42,"first_name":"小明","last_name":"王","username":"xiaoming"}"#;
    let init_data = sign(&[("auth_date", "1000"), ("query_id", "AAA"), ("user", user)]);
    let parsed = verify_init_data(&init_data, TOKEN, 1200).unwrap();
    assert_eq!(
        parsed,
        TelegramUser { id: 42, name: "小明 王".into(), username: Some("xiaoming".into()) }
    );
}

#[test]
fn rejects_tampered_or_stale_data() {
    let user = r#"{"id":42,"first_name":"小明"}"#;
    let init_data = sign(&[("auth_date", "1000"), ("user", user)]);

    let tampered = init_data.replace("42", "43");
    assert_eq!(verify_init_data(&tampered, TOKEN, 1200), Err(AuthError::BadSignature));
    assert_eq!(verify_init_data(&init_data, "999:OTHER", 1200), Err(AuthError::BadSignature));
    assert_eq!(
        verify_init_data(&init_data, TOKEN, 1000 + MAX_AUTH_AGE_SECS + 1),
        Err(AuthError::Expired)
    );
    assert!(matches!(verify_init_data("auth_date=1000", TOKEN, 1000), Err(AuthError::Malformed(_))));
}

#[test]
fn data_is_good_for_a_day() {
    let init_data = sign(&[("auth_date", "1000"), ("user", r#"{"id":42}"#)]);
    assert!(verify_init_data(&init_data, TOKEN, 1000 + MAX_AUTH_AGE_SECS).is_ok());
    assert!(verify_init_data(&init_data, TOKEN, 500).is_ok());
}

#[test]
fn malformed_data_says_what_is_wrong() {
    let what = |data: &str| verify_init_data(data, TOKEN, 1000);
    assert_eq!(what("auth_date"), Err(AuthError::Malformed("参数缺少 = 分隔")));
    assert_eq!(what("auth_date=1000"), Err(AuthError::Malformed("缺少 hash")));
    assert_eq!(what("user=1&hash=00"), Err(AuthError::Malformed("缺少 auth_date")));
    assert_eq!(what("auth_date=soon&hash=00"), Err(AuthError::Malformed("缺少 auth_date")));
    assert_eq!(what("auth_date=1000&hash=xy"), Err(AuthError::Malformed("hash 不是十六进制")));
    assert_eq!(what(&sign(&[("auth_date", "1000")])), Err(AuthError::Malformed("缺少 user")));
    assert_eq!(
        what(&sign(&[("auth_date", "1000"), ("user", "{")])),
        Err(AuthError::Malformed("user 不是合法 JSON"))
    );
    assert_eq!(
        what(&sign(&[("auth_date", "1000"), ("user", r#"{"id":"x"}"#)])),
        Err(AuthError::Malformed("user.id 缺失"))
    );
    assert_eq!(AuthError::Malformed("缺少 user").message(), "登录数据格式不正确：缺少 user");
    assert_eq!(AuthError::BadSignature.message(), "登录数据签名校验失败");
    assert_eq!(AuthError::Expired.message(), "登录数据已过期，请重新打开小程序");
}

#[test]
fn a_signature_of_the_other_kind_is_left_aside() {
    let init_data = sign(&[("auth_date", "1000"), ("user", r#"{"id":42}"#)]);
    assert!(verify_init_data(&format!("{init_data}&signature=abc"), TOKEN, 1000).is_ok());
    assert!(verify_init_data(&format!("&&{init_data}&"), TOKEN, 1000).is_ok());
}

#[test]
fn a_user_without_a_name_is_called_by_the_id() {
    let data = |user: &str| sign(&[("auth_date", "1000"), ("user", user)]);
    let nobody = verify_init_data(&data(r#"{"id":7,"username":""}"#), TOKEN, 1000).unwrap();
    assert_eq!(nobody, TelegramUser { id: 7, name: "用户 7".into(), username: None });
    let last = verify_init_data(&data(r#"{"id":7,"last_name":"王"}"#), TOKEN, 1000).unwrap();
    assert_eq!(last.name, "王");
}

#[test]
fn members_make_a_user() {
    let none: Vec<JsonMember> = Vec::new();
    assert!(matches!(user_from_members(&none), Err(AuthError::Malformed(_))));
}

#[test]
fn percent_decoding_handles_utf8_and_plus() {
    assert_eq!(percent_decode("%E5%85%AC%E4%BA%A4"), "公交");
    assert_eq!(percent_decode("a+b"), "a b");
    assert_eq!(percent_decode("plain"), "plain");
}

#[test]
fn broken_escapes_stand_for_themselves() {
    assert_eq!(percent_decode("100%"), "100%");
    assert_eq!(percent_decode("%zz"), "%zz");
    assert_eq!(unescape(b"%41%"), b"A%");
    assert_eq!(percent_decode("%FF"), "\u{fffd}");
}

#[test]
fn hexadecimal_digits_read_back() {
    assert_eq!(hex(&[0, 15, 16, 255]), "000f10ff");
    assert_eq!(decode_hex("000F10ff"), Some(vec![0, 15, 16, 255]));
    assert_eq!(decode_hex("0"), None);
    assert_eq!(decode_hex("0g"), None);
}

#[test]
fn key_derivation_gives_the_known_blocks() {
    assert_eq!(
        hex(&pbkdf2(b"password", b"salt", 1)),
        "120fb6cffcf8b32c43e7225256c4f837a86548c92ccc35480805987cb70be17b"
    );
    assert_eq!(
        hex(&pbkdf2(b"password", b"salt", 2)),
        "ae4d0c95af6b46d32d0adff928f06dd02a303f8ef3c251dfd6e2d85a95474c43"
    );
    assert_eq!(pbkdf2(b"password", b"salt", 0), pbkdf2(b"password", b"salt", 1));
}

#[test]
fn bytes_are_compared_in_full() {
    assert!(constant_time_eq(&[1, 2], &[1, 2]));
    assert!(!constant_time_eq(&[1, 2], &[1, 3]));
    assert!(!constant_time_eq(&[1, 2], &[1]));
}

#[test]
fn password_hash_roundtrip_and_rejects_wrong_input() {
    let stored = hash_password("正确的口令").unwrap();
    assert!(stored.starts_with("pbkdf2$sha256$"));
    assert!(verify_password("正确的口令", &stored));
    assert!(!verify_password("错误的口令", &stored));
    assert!(!verify_password("", &stored));
    assert_ne!(stored, hash_password("正确的口令").unwrap());
    assert!(!verify_password("正确的口令", "乱七八糟"));
    assert!(!verify_password("正确的口令", "pbkdf2$sha256$x$y$z"));
}

#[test]
fn a_stored_password_names_its_salt() {
    let stored = hash_password_with("口令", &vec![1, 2, 3]);
    assert!(stored.starts_with("pbkdf2$sha256$200000$010203$"));
    assert!(verify_password("口令", &stored));
    assert!(!verify_password("口令", "pbkdf2$sha1$1$00$00"));
}

#[test]
fn admin_sessions_expire_and_revoke() {
    let mut sessions = AdminSessions::new();
    let token = sessions.issue().unwrap();
    assert!(sessions.valid(&token));
    assert!(!sessions.valid("别的令牌"));
    sessions.revoke(&token);
    assert!(!sessions.valid(&token));

    let first = sessions.issue().unwrap();
    let second = sessions.issue().unwrap();
    assert_ne!(first, second);
    assert_eq!(sessions.active(), 2);
    sessions.revoke_all();
    assert_eq!(sessions.active(), 0);
}

#[test]
fn console_sessions_last_eight_hours() {
    let mut sessions = AdminSessions::new();
    sessions.issue_at("a".into(), 1000);
    assert!(sessions.valid_at("a", 1000 + ADMIN_SESSION_TTL_SECS - 1));
    assert!(!sessions.valid_at("a", 1000 + ADMIN_SESSION_TTL_SECS));
    sessions.issue_at("b".into(), 1000 + ADMIN_SESSION_TTL_SECS);
    assert_eq!(sessions.active(), 1);
}

#[test]
fn sessions_are_unique_per_login() {
    let mut sessions = Sessions::new();
    let user = TelegramUser { id: 42, name: "小明".into(), username: None };
    let (token_a, session) = sessions.issue(user.clone()).unwrap();
    let (token_b, _) = sessions.issue(user.clone()).unwrap();
    assert_ne!(token_a, token_b);
    assert_eq!(token_a.len(), 64);
    assert_eq!(session.user.id, 42);
    assert_eq!(sessions.lookup(&token_a).unwrap().user.id, 42);
    assert!(sessions.lookup("不存在").is_none());

    sessions.revoke(&token_a);
    assert!(sessions.lookup(&token_a).is_none());
    sessions.revoke_user(42);
    assert!(sessions.lookup(&token_b).is_none());
    assert_eq!(sessions.active(), 0);
}

#[test]
fn sessions_last_twelve_hours() {
    let mut sessions = Sessions::new();
    let session: Session = sessions.issue_at("a".into(), user(1), 1000);
    assert_eq!(session.issued_at, 1000);
    assert!(sessions.lookup_at("a", 1000 + SESSION_TTL_SECS - 1).is_some());
    assert!(sessions.lookup_at("a", 1000 + SESSION_TTL_SECS).is_none());
    assert_eq!(sessions.active(), 0);
}

#[test]
fn revoking_one_user_keeps_the_others() {
    let mut sessions = Sessions::new();
    sessions.issue_at("a".into(), user(1), 1000);
    sessions.issue_at("b".into(), user(2), 1000);
    sessions.revoke_user(1);
    assert!(sessions.lookup_at("a", 1000).is_none());
    assert_eq!(sessions.lookup_at("b", 1000).unwrap().user.id, 2);
}

#[test]
fn a_password_is_stored_with_the_salt_that_was_had() {
    assert_eq!(hash_password_from("口令", Some(vec![1, 2, 3])), Some(hash_password_with("口令", &vec![1, 2, 3])));
    assert_eq!(hash_password_from("口令", None), None);
}
