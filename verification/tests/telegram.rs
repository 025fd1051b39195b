//! What is sent to Telegram, and what comes back.
use serde_json::Value;
use wherebus::telegram::{
    api_base, check_envelope, clamp, first_chars, inline_keyboard, keyboard, location_keyboard, remove_keyboard, Key, Press, TgError,
    MAX_TEXT_CHARS,
};

fn parsed(text: &str) -> Value {
    serde_json::from_str(text).unwrap()
}

#[test]
fn long_text_is_truncated_with_notice() {
    let text = "站".repeat(MAX_TEXT_CHARS + 100);
    let out = clamp(&text);
    assert!(out.chars().count() <= MAX_TEXT_CHARS + 20);
    assert!(out.ends_with("（内容过长已截断）"));
    assert_eq!(clamp("短文本"), "短文本");
}

#[test]
fn not_modified_error_is_recognised() {
    let error = TgError::Api {
        code: 400,
        description: "Bad Request: message is not modified".into(),
        retry_after: None,
    };
    assert!(error.is_not_modified());
    assert!(!TgError::Network("boom".into()).is_not_modified());
}

#[test]
fn keyboard_shape_matches_bot_api() {
    let markup = parsed(&inline_keyboard(vec![vec![("刷新".into(), "m:home".into())]]));
    assert_eq!(markup["inline_keyboard"][0][0]["text"], "刷新");
    assert_eq!(markup["inline_keyboard"][0][0]["callback_data"], "m:home");
}

#[test]
fn labels_are_quoted() {
    let markup = parsed(&inline_keyboard(vec![
        vec![("a\"b\\c\n".into(), "x".into()), ("second".into(), "y".into())],
        vec![],
    ]));
    assert_eq!(markup["inline_keyboard"][0][0]["text"], "a\"b\\c\n");
    assert_eq!(markup["inline_keyboard"][0][1]["callback_data"], "y");
    assert_eq!(markup["inline_keyboard"].as_array().unwrap().len(), 2);
}

#[test]
fn buttons_open_web_pages() {
    let rows = vec![vec![Key { label: "面板".into(), press: Press::WebApp("https://example.org".into()) }]];
    let markup = parsed(&keyboard(&rows));
    assert_eq!(markup["inline_keyboard"][0][0]["web_app"]["url"], "https://example.org");
}

#[test]
fn keyboards_for_the_position() {
    let ask = parsed(&location_keyboard());
    assert_eq!(ask["keyboard"][0][0]["request_location"], true);
    assert_eq!(ask["resize_keyboard"], true);
    assert_eq!(ask["one_time_keyboard"], true);
    assert_eq!(parsed(&remove_keyboard())["remove_keyboard"], true);
}

#[test]
fn replies_are_unwrapped() {
    assert!(check_envelope(true, true, None, None, None).is_none());
    let missing = check_envelope(true, false, None, None, None).unwrap();
    assert_eq!(missing.message(), "Telegram 接口错误 0: 接口返回成功但缺少 result");
    let limited = check_envelope(false, true, Some(429), Some("slow down".into()), Some(7)).unwrap();
    assert_eq!(limited.message(), "Telegram 接口错误 429: slow down");
    assert_eq!(limited.retry_after(), Some(7));
    let unknown = check_envelope(false, false, None, None, None).unwrap();
    assert_eq!(unknown.message(), "Telegram 接口错误 0: 未知错误");
    let network = TgError::Network("boom".into());
    assert_eq!(network.message(), "网络错误: boom");
    assert_eq!(network.retry_after(), None);
}

#[test]
fn the_address_of_the_interface() {
    assert_eq!(api_base(None, "1:A"), "https://api.telegram.org/bot1:A");
    assert_eq!(api_base(Some("  ".into()), "1:A"), "https://api.telegram.org/bot1:A");
    assert_eq!(api_base(Some("http://localhost:8000//".into()), "1:A"), "http://localhost:8000/bot1:A");
}

#[test]
fn texts_are_cut_by_characters() {
    assert_eq!(first_chars("公交车站", 2), "公交");
    assert_eq!(first_chars("ab", 5), "ab");
}
