//! The conversation of the bot.
use wherebus::dialog::{
    begin_watch, clock_is_sane, detail_key, finish_watch, handle, is_fresh, live_reply, next_backoff, next_offset, on_converted, parse_command,
    parse_time_zone, replace_watch, restore_watches, setting_value, stop_by_user, stop_watch, toggle_reply, upstream_failure, wait_secs,
    watch_stop_name, Env, Step, HELP_TEXT, LINES_CACHE_TTL_SECS,
};
use wherebus::models::{City, Double, GeoPoint, LineDetail, LineStop, RealTimeData, RouteTopology, RunState, StopStatus, Terminal};
use wherebus::pages::{markup, Board, Page};
use wherebus::provider::registry::ServiceEntry;
use wherebus::store::{Pending, Store};
use wherebus::telegram::{CallbackQuery, Chat, Location, Message, Update, User};
use wherebus::text::shorten;
use wherebus::tokens::{Action, TokenTable, MAX_TOKENS};

fn double(x: f64) -> Double {
    Double { bits: x.to_bits() }
}

fn env() -> Env {
    Env {
        services: vec![ServiceEntry {
            id: "sz".into(),
            city: City { name: "深圳".into(), province: "广东".into() },
            provider: "掌上公交".into(),
        }],
        tz_offset: 8,
        miniapp_url: None,
    }
}

fn sender() -> User {
    User { id: 42, first_name: "小明".into(), username: Some("xiaoming".into()) }
}

fn message(text: Option<&str>, location: Option<Location>) -> Message {
    Message {
        message_id: 9,
        chat: Chat { id: 42, kind: "private".into() },
        from: Some(sender()),
        text: text.map(|t| t.to_string()),
        location,
    }
}

fn said(text: &str) -> Update {
    Update { update_id: 1, message: Some(message(Some(text), None)), callback_query: None }
}

fn pressed(data: &str) -> Update {
    Update {
        update_id: 1,
        message: None,
        callback_query: Some(CallbackQuery {
            id: "cb".into(),
            from: sender(),
            message: Some(message(None, None)),
            data: Some(data.into()),
        }),
    }
}

fn detail() -> LineDetail {
    LineDetail {
        id: None,
        name: "M375".into(),
        direction_id: "M375:1".into(),
        reverse_id: Some("M375:2".into()),
        topology: RouteTopology {
            start: Terminal::named("起点"),
            end: Terminal::named("终点"),
            stations: (1..=3)
                .map(|order| LineStop {
                    id: None,
                    name: format!("第{order}站"),
                    alias: None,
                    order,
                    lat: double(0.0),
                    lng: double(0.0),
                    status: StopStatus::Normal,
                    track_index: None,
                })
                .collect(),
            track_points: vec![],
        },
        meta: Default::default(),
    }
}

fn quiet() -> RealTimeData {
    RealTimeData {
        run_state: RunState::NoRealtime,
        plan_time: None,
        buses: vec![],
        station_arrivals: vec![],
        segments: vec![],
        arrival_estimates: vec![],
    }
}

fn text_of(step: &Step) -> String {
    match step {
        Step::Send { page, .. } => page.text.clone(),
        Step::Edit { page, .. } => page.text.clone(),
        Step::Answer { text, .. } => text.clone(),
        _ => String::new(),
    }
}

#[test]
fn commands_ignore_bot_suffix_and_case() {
    assert_eq!(parse_command("/City@WhereBusBot 深圳"), Some(("city".into(), "深圳".into())));
    assert_eq!(parse_command("/fav"), Some(("fav".into(), String::new())));
    assert_eq!(parse_command("M375"), None);
    assert_eq!(parse_command("/"), None);
}

#[test]
fn tokens_round_trip_and_expire_oldest_first() {
    let mut table = TokenTable::new();
    let action = Action::Live { service: "shenzhen".into(), direction: "M375:1".into(), order: 5 };
    let key = table.put(action.clone());
    assert!(key.len() <= 64);
    assert_eq!(table.get(&key), Some(action));
    assert_eq!(table.get("t:999999"), None);
    assert_eq!(table.get("m:home"), None);
}

#[test]
fn token_table_is_bounded() {
    let mut table = TokenTable::new();
    let first = table.put(Action::NearbyHere);
    for _ in 0..MAX_TOKENS {
        table.put(Action::NearbyHere);
    }
    assert_eq!(table.get(&first), None, "最旧的 token 应被淘汰");
}

#[test]
fn button_labels_are_truncated() {
    assert_eq!(shorten("科技园北区总站", 4), "科技园…");
    assert_eq!(shorten("M375", 10), "M375");
}

#[test]
fn young_tokens_are_kept() {
    let mut table = TokenTable::new();
    let first = table.put(Action::WatchStop);
    for _ in 0..MAX_TOKENS - 1 {
        table.put(Action::NearbyHere);
    }
    assert_eq!(table.get(&first), Some(Action::WatchStop));
    let last = table.put(Action::SettingsReset);
    assert_eq!(table.get(&first), None);
    assert_eq!(table.get(&last), Some(Action::SettingsReset));
    assert_ne!(first, last);
}

#[test]
fn a_city_is_chosen_before_lines_are_looked_up() {
    let (mut store, mut tokens, env) = (Store::new(), TokenTable::new(), env());
    let steps = handle(&mut store, &tokens, &env, &said("M375"), 1000);
    assert_eq!(steps.len(), 1);
    assert!(text_of(&steps[0]).contains("请先选择城市"));
    assert_eq!(store.get(42).pending, Pending::City);
    assert_eq!(store.get(42).display_name, "小明");

    let steps = handle(&mut store, &tokens, &env, &said("深圳"), 1000);
    let Step::Send { page: Page { board, .. }, .. } = &steps[0] else { panic!("a page of cities is sent") };
    let keys = markup(board, &mut tokens).unwrap();
    let start = keys.find("\"t:").unwrap() + 1;
    let data: String = keys[start..].chars().take_while(|c| *c != '"').collect();
    let steps = handle(&mut store, &tokens, &env, &pressed(&data), 1000);
    assert_eq!(text_of(&steps[0]), "查询中…");
    assert!(text_of(&steps[1]).contains("已切换到 <b>深圳 · 掌上公交</b>"));
    assert_eq!(store.get(42).service.as_deref(), Some("sz"));
    assert_eq!(store.get(42).pending, Pending::Nothing);

    let steps = handle(&mut store, &tokens, &env, &said("M375"), 1000);
    assert!(steps.iter().any(|s| matches!(s, Step::Search { keyword, .. } if keyword == "M375")));
}

#[test]
fn banned_users_are_turned_away() {
    let (mut store, tokens, env) = (Store::new(), TokenTable::new(), env());
    store.update_at(42, 1, |user| user.banned = true);
    let steps = handle(&mut store, &tokens, &env, &said("/start"), 1000);
    assert_eq!(steps.len(), 1);
    assert_eq!(text_of(&steps[0]), "你的账号已被管理员停用。");
    let steps = handle(&mut store, &tokens, &env, &pressed("m:home"), 1000);
    assert_eq!(text_of(&steps[1]), "账号不可用");
}

#[test]
fn new_users_can_be_kept_out() {
    let (mut store, tokens, env) = (Store::new(), TokenTable::new(), env());
    store.update_settings(|settings| settings.allow_new_users = false);
    let steps = handle(&mut store, &tokens, &env, &said("/start"), 1000);
    assert_eq!(text_of(&steps[0]), "机器人当前不接受新用户，请联系管理员。");
    assert!(!store.has_user(42));
}

#[test]
fn old_buttons_are_refused() {
    let (mut store, tokens, env) = (Store::new(), TokenTable::new(), env());
    let steps = handle(&mut store, &tokens, &env, &pressed("t:12"), 1000);
    assert_eq!(steps.len(), 1);
    assert_eq!(text_of(&steps[0]), "按钮已过期（机器人重启过），请重新查询。");
    let mut old = pressed("m:home");
    old.callback_query.as_mut().unwrap().message = None;
    let steps = handle(&mut store, &tokens, &env, &old, 1000);
    assert_eq!(text_of(&steps[0]), "消息太旧，请重新发送命令。");
}

#[test]
fn an_empty_update_does_nothing() {
    let mut store = Store::new();
    let update = Update { update_id: 1, message: None, callback_query: None };
    assert!(handle(&mut store, &TokenTable::new(), &env(), &update, 1000).is_empty());
    assert!(!store.has_user(42));
}

#[test]
fn help_is_given() {
    let mut store = Store::new();
    let steps = handle(&mut store, &TokenTable::new(), &env(), &said("/help"), 1000);
    assert_eq!(text_of(&steps[0]), HELP_TEXT);
}

#[test]
fn settings_are_adjusted_by_buttons() {
    let (mut store, mut tokens, env) = (Store::new(), TokenTable::new(), env());
    let more = tokens.put(Action::SettingsAdjust { field: wherebus::store::AlertField::Distance, steps: 2 });
    handle(&mut store, &tokens, &env, &pressed(&more), 1000);
    assert_eq!(store.alerts_for(42).alert_distance_m, 700);
    let reset = tokens.put(Action::SettingsReset);
    handle(&mut store, &tokens, &env, &pressed(&reset), 1000);
    assert_eq!(store.get(42).alerts, None);
}

#[test]
fn positions_lead_to_the_stops_nearby() {
    let (mut store, tokens, env) = (Store::new(), TokenTable::new(), env());
    let at = Location { latitude: double(30.0), longitude: double(120.0) };
    let update = |at| Update { update_id: 1, message: Some(message(None, Some(at))), callback_query: None };
    let steps = handle(&mut store, &tokens, &env, &update(at), 1000);
    assert!(text_of(&steps[0]).contains("还没选城市"));
    let nan = Location { latitude: double(f64::NAN), longitude: double(120.0) };
    let steps = handle(&mut store, &tokens, &env, &update(nan), 1000);
    assert_eq!(text_of(&steps[0]), "位置无效，请重新发送。");
    store.update_at(42, 1000, |user| user.service = Some("sz".into()));
    let steps = handle(&mut store, &tokens, &env, &update(at), 1000);
    assert!(matches!(steps[0], Step::Convert { user_id: 42, .. }));
    let shifted = GeoPoint { lat: double(30.1), lng: double(120.1) };
    let steps = on_converted(&mut store, 42, 42, "sz", shifted, 1000);
    assert_eq!(store.get(42).last_location, Some(shifted));
    assert!(matches!(steps.last(), Some(Step::Nearby { .. })));
}

#[test]
fn looking_at_arrivals_is_counted_once() {
    let mut store = Store::new();
    let (detail, quiet) = (detail(), quiet());
    let page = live_reply(&mut store, &env(), 42, &detail, &quiet, "sz", 2, true, 0);
    assert!(page.text.contains("第2站"));
    assert_eq!(store.get(42).queries, 1);
    assert_eq!(store.get(42).hour_histogram()[8], 1);
    live_reply(&mut store, &env(), 42, &detail, &quiet, "sz", 2, false, 0);
    assert_eq!(store.get(42).queries, 1);
}

#[test]
fn favourites_are_toggled_with_the_line_that_was_fetched() {
    let mut store = Store::new();
    let detail = detail();
    assert!(toggle_reply(&mut store, 42, Some(&detail), "sz", "M375:1", 2, 100));
    assert_eq!(store.get(42).favorites[0].station_name, "第2站");
    assert!(!toggle_reply(&mut store, 42, Some(&detail), "sz", "M375:1", 2, 200));
    assert!(store.get(42).favorites.is_empty());
}

#[test]
fn watches_begin_stop_and_survive() {
    let mut store = Store::new();
    let detail = detail();
    assert_eq!(watch_stop_name(&detail, "sz", 2).ok(), Some("第2站".to_string()));
    assert!(watch_stop_name(&detail, "sz", 9).err().unwrap().text.contains("当前没有第 9 站"));
    let spec = begin_watch(&mut store, 42, &detail, "sz", "第2站", 2, 42, 7, None, 1000);
    assert_eq!(spec.city_label, "sz");
    assert_eq!(spec.started_at, 1000);

    let kept = restore_watches(&mut store, 1000 + 59 * 60);
    assert_eq!(kept.len(), 1);
    assert_eq!(kept[0].0, 42);
    assert!(restore_watches(&mut store, 1000 + 60 * 60).is_empty());
    assert!(store.get(42).watch.is_none());

    begin_watch(&mut store, 42, &detail, "sz", "第2站", 2, 42, 7, Some("A".into()), 1000);
    let step = replace_watch(&mut store, 42, true, 1100).unwrap();
    assert!(text_of(&step).contains("已被新的盯车任务替换。"));
    assert!(replace_watch(&mut store, 42, false, 1100).is_none());
    let (had, step) = stop_watch(&mut store, 42, false, "x", 1200);
    assert!(!had && step.is_none());
    let steps = stop_by_user(&mut store, 42, 42, 9, false, 1200);
    assert_eq!(text_of(&steps[0]), "当前没有进行中的盯车。");
    begin_watch(&mut store, 42, &detail, "sz", "第2站", 2, 42, 7, None, 1000);
    let steps = stop_by_user(&mut store, 42, 42, 9, true, 1200);
    assert!(text_of(&steps[0]).contains("你手动停止了盯车。"));
    assert!(finish_watch(&mut store, 42, "x", 1300).is_none());
}

#[test]
fn polling_waits_longer_and_longer() {
    assert_eq!(next_offset(0, 10), 11);
    assert_eq!(next_offset(20, 10), 20);
    assert_eq!(wait_secs(Some(7), 2), 7);
    assert_eq!(wait_secs(None, 2), 2);
    assert_eq!(next_backoff(1), 2);
    assert_eq!(next_backoff(20), 30);
    assert_eq!(next_backoff(30), 30);
}

#[test]
fn settings_from_the_environment() {
    let zone = |v: &str| parse_time_zone(&Some(v.to_string()));
    assert_eq!(zone(" -5 "), -5);
    assert_eq!(zone("14"), 14);
    assert_eq!(zone("15"), 8);
    assert_eq!(zone("x"), 8);
    assert_eq!(parse_time_zone(&None), 8);
    assert_eq!(setting_value(&Some("  a ".into())), Some("a".to_string()));
    assert_eq!(setting_value(&Some("  ".into())), None);
    assert!(clock_is_sane(1_700_000_000, 8));
    assert!(!clock_is_sane(u64::MAX / 2, 14));
}

#[test]
fn failures_are_told_and_lines_are_kept_by_key() {
    assert_eq!(upstream_failure(Some("x")), "⚠️ 公交数据源暂时不可用：x");
    assert_eq!(upstream_failure(None), "⚠️ 公交数据源响应超时，请稍后重试。");
    assert_eq!(detail_key("sz", "M375:1"), "sz|M375:1");
}

#[test]
fn boards_become_json() {
    let mut tokens = TokenTable::new();
    assert_eq!(markup(&Board::Bare, &mut tokens), None);
    assert!(markup(&Board::Location, &mut tokens).unwrap().contains("request_location"));
    assert!(markup(&Board::Remove, &mut tokens).unwrap().contains("remove_keyboard"));
}

#[test]
fn others_stay_as_they_are() {
    let mut store = Store::new();
    store.update_at(7, 500, |user| user.queries = 3);
    let other = format!("{:?}", store.get(7));
    let mut tokens = TokenTable::new();
    let pick = tokens.put(Action::PickService { service: "sz".into(), label: "深圳".into() });
    for update in [said("/start"), said("深圳"), said("/city"), pressed(&pick), said("K155"), pressed("m:city"), pressed("m:fav")] {
        handle(&mut store, &tokens, &env(), &update, 1000);
        assert_eq!(format!("{:?}", store.get(7)), other);
    }
    assert_eq!(store.get(42).service.as_deref(), Some("sz"));
    assert_eq!(store.user_count(), 2);
    store.update_at(42, 1000, |user| user.banned = true);
    let banned = format!("{:?}", store.get(42));
    for update in [said("/start"), pressed(&pick), pressed("m:city")] {
        handle(&mut store, &tokens, &env(), &update, 2000);
        assert_eq!(format!("{:?}", store.get(42)), banned);
    }
}

#[test]
fn a_forgotten_token_stays_forgotten() {
    let mut table = TokenTable::new();
    let first = table.put(Action::WatchStop);
    for _ in 0..MAX_TOKENS {
        table.put(Action::NearbyHere);
    }
    for _ in 0..50 {
        assert_eq!(table.get(&first), None);
        assert_ne!(table.put(Action::NearbyHere), first);
    }
}

#[test]
fn what_was_read_keeps_for_a_while() {
    assert!(is_fresh(0, LINES_CACHE_TTL_SECS));
    assert!(is_fresh(LINES_CACHE_TTL_SECS - 1, LINES_CACHE_TTL_SECS));
    assert!(!is_fresh(LINES_CACHE_TTL_SECS, LINES_CACHE_TTL_SECS));
    assert!(!is_fresh(0, 0));
}
