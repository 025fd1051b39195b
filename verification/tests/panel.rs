//! The panel of a user, the console, and what administrators may do.
use wherebus::admin;
use wherebus::api::{bearer, login, session};
use wherebus::auth::{hash_password_with, AdminSessions, Sessions, TelegramUser};
use wherebus::console;
use wherebus::dialog::Step;
use wherebus::miniapp;
use wherebus::models::City;
use wherebus::provider::registry::ServiceEntry;
use wherebus::store::{AlertSettings, Favorite, Store, UserState, WatchSpec};

fn header(value: &str) -> Option<String> {
    Some(value.to_string())
}

fn user(id: i64) -> TelegramUser {
    TelegramUser { id, name: "小明".into(), username: None }
}

fn services() -> Vec<ServiceEntry> {
    let city = || City { name: "深圳".into(), province: "广东".into() };
    vec![
        ServiceEntry { id: "dbg".into(), city: city(), provider: "Debug".into() },
        ServiceEntry { id: "sz".into(), city: city(), provider: "掌上公交".into() },
    ]
}

fn watch() -> WatchSpec {
    WatchSpec {
        service: "sz".into(),
        city_label: "深圳".into(),
        line_name: "1路".into(),
        direction: "1路:1".into(),
        station_name: "站".into(),
        order: 3,
        chat_id: 1,
        card_message_id: 2,
        target_bus: None,
        started_at: 5,
    }
}

fn text_of(step: Option<Step>) -> String {
    match step {
        Some(Step::Edit { page, .. }) => page.text,
        _ => String::new(),
    }
}

#[test]
fn tokens_are_taken_from_the_header() {
    assert_eq!(bearer(&header("Bearer  abc ")), Some("abc".to_string()));
    assert_eq!(bearer(&header("Basic abc")), None);
    assert_eq!(bearer(&None), None);
}

#[test]
fn sessions_are_checked() {
    let (mut sessions, mut store) = (Sessions::new(), Store::new());
    sessions.issue_at("tok".into(), user(42), 1000);
    let status = |sessions: &mut Sessions, store: &Store, h: &Option<String>, now: u64| match session(sessions, store, h, now) {
        Ok(s) => Ok(s.user.id),
        Err(e) => Err((e.status, e.message)),
    };
    assert_eq!(status(&mut sessions, &store, &header("Bearer tok"), 1000), Ok(42));
    assert_eq!(status(&mut sessions, &store, &None, 1000), Err((401, "缺少会话令牌，请重新登录".into())));
    assert_eq!(status(&mut sessions, &store, &header("Bearer "), 1000), Err((401, "缺少会话令牌，请重新登录".into())));
    assert_eq!(status(&mut sessions, &store, &header("Bearer x"), 1000), Err((401, "会话已过期，请重新登录".into())));
    store.update_at(42, 1000, |user| user.banned = true);
    assert_eq!(status(&mut sessions, &store, &header("Bearer tok"), 1000), Err((403, "账号已被停用".into())));
}

#[test]
fn unsigned_data_does_not_sign_in() {
    let mut store = Store::new();
    let refused = login(&mut store, "auth_date=1000", "1:A", 1000).err().unwrap();
    assert_eq!((refused.status, refused.message.as_str()), (401, "登录数据格式不正确：缺少 hash"));
    assert_eq!(store.user_count(), 0);
}

#[test]
fn settings_are_saved_and_unknown_names_refused() {
    let mut store = Store::new();
    let values = vec![("poll_secs".to_string(), 1), ("alert_stations".to_string(), 3)];
    let shown = miniapp::save_settings(&mut store, 1, false, &values, 1000).ok().unwrap();
    assert_eq!(shown.alerts.values, AlertSettings { poll_secs: 5, alert_stations: 3, ..AlertSettings::default() });
    assert!(!shown.alerts.using_defaults);
    let wrong = vec![("x".to_string(), 1), ("max_minutes".to_string(), 30), ("y".to_string(), 1)];
    let refused = miniapp::save_settings(&mut store, 1, false, &wrong, 1000).err().unwrap();
    assert_eq!((refused.status, refused.message.as_str()), (400, "未知的设置项：x、y"));
    assert_eq!(store.alerts_for(1).max_minutes, 30);
    let shown = miniapp::save_settings(&mut store, 1, true, &wrong, 1000).ok().unwrap();
    assert!(shown.alerts.using_defaults);
    assert_eq!(store.get(1).alerts, None);
}

#[test]
fn the_panel_shows_the_fields() {
    let view = miniapp::alerts_json(&AlertSettings::default(), true);
    let keys: Vec<&str> = view.fields.iter().map(|f| f.key.as_str()).collect();
    assert_eq!(keys, vec!["poll_secs", "alert_stations", "alert_distance_m", "repeat_secs", "max_minutes"]);
    let distance = &view.fields[2];
    assert_eq!((distance.label.as_str(), distance.unit.as_str()), ("距离提醒", "米"));
    assert_eq!((distance.step, distance.min, distance.max), (100, 0, 5000));
}

#[test]
fn the_panel_shows_a_user() {
    let mut store = Store::new();
    store.update_at(1, 1000, |user| {
        for hour in 0..12 {
            user.record_query_at("sz", "1路", &format!("1路:{hour}"), "站", 3, hour, 1000);
        }
        user.watch = Some(watch());
    });
    let shown = miniapp::user_payload(&store, 1);
    assert_eq!(shown.habits.len(), 10);
    assert_eq!(shown.hour_histogram.len(), 24);
    assert_eq!(shown.hour_histogram[3], 1);
    assert_eq!(shown.watch_label.as_deref(), Some("1路 @ 站 · 最近一班"));
    assert_eq!(shown.state.queries, 12);
}

#[test]
fn a_city_can_be_chosen() {
    let mut store = Store::new();
    let refused = miniapp::set_city(&mut store, &services(), 1, "dbg", 1000).err().unwrap();
    assert_eq!((refused.status, refused.message.as_str()), (400, "请选择有效的城市与数据源"));
    assert!(!store.has_user(1));
    assert!(miniapp::set_city(&mut store, &services(), 1, "sz", 1000).is_ok());
    assert_eq!(store.get(1).city_label.as_deref(), Some("深圳 · 掌上公交"));
    assert_eq!(miniapp::service_label(&services(), "nope"), None);
}

#[test]
fn favourites_can_be_deleted() {
    let mut store = Store::new();
    store.update_at(1, 1000, |user| {
        user.toggle_favorite_at(Favorite { service: "sz".into(), direction: "d".into(), order: 2, ..Default::default() }, 1000);
    });
    let refused = miniapp::delete_favorite(&mut store, 1, "sz", "d", 3, 1000).err().unwrap();
    assert_eq!((refused.status, refused.message.as_str()), (404, "没有这条收藏"));
    let shown = miniapp::delete_favorite(&mut store, 1, "sz", "d", 2, 1000).ok().unwrap();
    assert!(shown.state.favorites.is_empty());
}

#[test]
fn watches_are_checked_before_they_begin() {
    let mut store = Store::new();
    let message = |store: &Store, service: Option<&str>, order: u32| {
        miniapp::start_watch(store, &services(), 1, &service.map(|s| s.to_string()), order).map_err(|e| e.message)
    };
    assert_eq!(message(&store, None, 3), Err("还没有选择城市".to_string()));
    assert_eq!(message(&store, Some("dbg"), 3), Err("请选择有效的城市与数据源".to_string()));
    assert_eq!(message(&store, Some("sz"), 0), Err("站序无效".to_string()));
    assert_eq!(message(&store, Some("sz"), 10_001), Err("站序无效".to_string()));
    store.update_at(1, 1000, |user| user.service = Some("sz".into()));
    assert_eq!(message(&store, None, 3), Ok("sz".to_string()));
    assert_eq!(miniapp::watch_started(&store, 1).err().unwrap().status, 502);
    store.update_at(1, 1000, |user| user.watch = Some(watch()));
    assert!(miniapp::watch_started(&store, 1).is_ok());
    let (stopped, step, shown) = miniapp::stop_watch(&mut store, 1, true, 1100);
    assert!(stopped && text_of(step).contains("你在用户面板里停止了盯车。"));
    assert_eq!(shown.watch_label, None);
}

#[test]
fn users_can_delete_themselves() {
    let (mut store, mut sessions) = (Store::new(), Sessions::new());
    store.update_at(1, 1000, |user| user.watch = Some(watch()));
    store.update_at(2, 1000, |_| {});
    sessions.issue_at("a".into(), user(1), 1000);
    sessions.issue_at("b".into(), user(2), 1000);
    let (removed, step) = miniapp::forget_me(&mut store, &mut sessions, 1, true, 1000);
    assert!(removed && text_of(step).contains("账号数据已删除，盯车结束。"));
    assert!(!store.has_user(1) && store.has_user(2));
    assert_eq!(sessions.active(), 1);
    assert!(!miniapp::forget_me(&mut store, &mut sessions, 1, false, 1000).0);
}

#[test]
fn the_console_has_a_password() {
    let stored = Some(hash_password_with("longenough", &vec![1]));
    let message = |r: Result<(), wherebus::api::ApiError>| r.map_err(|e| (e.status, e.message));
    assert_eq!(message(console::setup(&None, "1234567")), Err((400, "口令至少 8 位".into())));
    assert_eq!(message(console::setup(&None, "密码密码密码密码")), Ok(()));
    assert_eq!(message(console::setup(&stored, "12345678")), Err((409, "管理口令已经设置过了，请直接登录".into())));
    assert_eq!(message(console::login(&None, "x")), Err((409, "还没有设置管理口令，请先完成首次设置".into())));
    assert_eq!(message(console::login(&stored, "wrong")), Err((401, "口令不正确".into())));
    assert_eq!(message(console::login(&stored, "longenough")), Ok(()));
    assert_eq!(message(console::change_password(&None, "a", "b")), Err((409, "还没有设置管理口令".into())));
    assert_eq!(message(console::change_password(&stored, "a", "12345678")), Err((401, "当前口令不正确".into())));
    assert_eq!(message(console::change_password(&stored, "longenough", "b")), Err((400, "口令至少 8 位".into())));
    assert_eq!(message(console::change_password(&stored, "longenough", "12345678")), Ok(()));
}

#[test]
fn the_console_asks_for_its_token() {
    let mut sessions = AdminSessions::new();
    sessions.issue_at("tok".into(), 1000);
    assert!(console::authorize(&sessions, &header("Bearer tok"), 1000).is_ok());
    for h in [None, header("Bearer "), header("Bearer x"), header("tok")] {
        assert_eq!(console::authorize(&sessions, &h, 1000).err().unwrap().message, "请先登录管理控制台");
    }
}

#[test]
fn the_console_counts_users() {
    let mut store = Store::new();
    store.update_at(1, 1000, |user| {
        user.banned = true;
        user.queries = 5;
        user.toggle_favorite_at(Favorite::default(), 1000);
    });
    store.update_at(2, 2000, |user| {
        user.queries = 7;
        user.watch = Some(watch());
        user.record_query_at("sz", "1路", "1路:1", "站", 3, 9, 2000);
    });
    let figures = console::overview(&store.all_users());
    assert_eq!((figures.users, figures.banned, figures.watching), (2, 1, 1));
    assert_eq!((figures.favorites, figures.queries), (1, 13));
    let users = console::list_users(&store);
    assert_eq!(users[0].id, 2);
    assert_eq!(users[0].peak_hour, Some(9));
    assert_eq!(users[1].peak_hour, None);
    assert!(users[0].alerts.using_defaults && !users[0].has_location);
    let shown = console::console_user(3, &UserState::default(), &AlertSettings { poll_secs: 1, ..AlertSettings::default() });
    assert_eq!(shown.alerts.values.poll_secs, 5);
}

#[test]
fn users_are_banned_let_back_in_and_deleted() {
    let (mut store, mut sessions) = (Store::new(), Sessions::new());
    store.update_at(1, 1000, |user| user.watch = Some(watch()));
    sessions.issue_at("a".into(), user(1), 1000);
    let (result, _) = console::user_action(&mut store, &mut sessions, 9, "ban", true, false, 1000);
    assert_eq!(result.err().unwrap().status, 404);
    let (result, _) = console::user_action(&mut store, &mut sessions, 1, "promote", true, false, 1000);
    assert_eq!(result.err().unwrap().message, "不支持的操作：promote");
    let (result, step) = console::user_action(&mut store, &mut sessions, 1, "ban", true, true, 1000);
    assert!(result.is_ok() && text_of(step).contains("账号已被管理员停用。"));
    assert!(store.get(1).banned && store.get(1).watch.is_none());
    assert_eq!(sessions.active(), 0);
    console::user_action(&mut store, &mut sessions, 1, "unban", true, false, 1000);
    assert!(!store.get(1).banned);
    let (result, _) = console::user_action(&mut store, &mut sessions, 1, "stop_watch", false, false, 1000);
    assert_eq!(result.ok(), Some(Some(false)));
    store.update_at(1, 1000, |user| user.watch = Some(watch()));
    let (result, step) = console::user_action(&mut store, &mut sessions, 1, "stop_watch", true, true, 1000);
    assert_eq!(result.ok(), Some(Some(true)));
    assert!(text_of(step).contains("管理员停止了这次盯车。"));
    console::user_action(&mut store, &mut sessions, 1, "delete", false, false, 1000);
    assert!(!store.has_user(1));
}

#[test]
fn the_console_changes_the_defaults() {
    let mut store = Store::new();
    let settings = console::save_settings(&mut store, Some(false), &vec![("repeat_secs".into(), 100_000)]).ok().unwrap();
    assert!(!settings.allow_new_users);
    assert_eq!(settings.defaults.repeat_secs, 600);
    let refused = console::save_settings(&mut store, None, &vec![("nope".into(), 1)]).err().unwrap();
    assert_eq!(refused.message, "未知的设置项：nope");
    assert!(!store.settings().allow_new_users);
}

#[test]
fn administrators_are_protected() {
    let (mut store, mut sessions) = (Store::new(), Sessions::new());
    for id in [1, 2, 3] {
        store.update_at(id, 1000, |_| {});
    }
    let admins = vec![1, 2];
    assert!(admin::is_admin(&admins, 2) && !admin::is_admin(&admins, 3));
    assert_eq!(admin::admin_session(&admins, 3).err().unwrap().message, "需要管理员权限");
    let mut act = |own: i64, id: i64, action: &str| {
        admin::user_action(&mut store, &mut sessions, &admins, own, id, action, false, 1000).0.map_err(|e| e.message)
    };
    assert_eq!(act(1, 2, "ban"), Err("不能停用管理员".to_string()));
    assert_eq!(act(1, 1, "ban"), Err("不能停用管理员".to_string()));
    assert_eq!(act(1, 2, "delete"), Err("不能删除其他管理员".to_string()));
    assert_eq!(act(1, 9, "ban"), Err("没有这个用户".to_string()));
    assert_eq!(act(1, 3, "ban"), Ok(None));
    assert_eq!(act(2, 2, "delete"), Ok(None));
    assert!(store.get(3).banned && !store.has_user(2) && store.has_user(1));
}
