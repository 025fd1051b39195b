//! Lists of vehicles, commands, and the parts of signing in.
use wherebus::auth::{
    read_stored, signed_text, store_key, token_from, user_text, AdminSessions, AuthError, Field, Sessions, TelegramUser,
};
use wherebus::dialog::{live_reply, parse_command, restore_watches, split_command, toggle_reply, Env};
use wherebus::models::{
    ArrivalDetail, BusPosition, CrowdLevel, Double, EndpointsView, LineDetail, LineMeta, LineStop, RealTimeData, RouteTopology, RunState,
    StopStatus, Terminal,
};
use wherebus::pages::{line_answers, watch_setup_view, Board};
use wherebus::render::live_text;
use wherebus::store::{AlertSettings, Store, WatchSpec};
use wherebus::telegram::inline_keyboard;
use wherebus::tokens::{Action, Target};
use wherebus::watch::{locate, nearest_first};

fn zero() -> Double {
    Double { bits: 0 }
}

fn detail() -> LineDetail {
    let stations = (1..=6)
        .map(|order| LineStop {
            id: None,
            name: format!("第{order}站"),
            alias: None,
            order,
            lat: zero(),
            lng: zero(),
            status: StopStatus::Normal,
            track_index: None,
        })
        .collect();
    LineDetail {
        id: None,
        name: "1路".into(),
        direction_id: "1路:1".into(),
        reverse_id: None,
        topology: RouteTopology { start: Terminal::Unknown, end: Terminal::Unknown, stations, track_points: vec![] },
        meta: LineMeta::default(),
    }
}

fn bus(id: &str, station_index: u32, is_arriving: bool, secs: u32) -> BusPosition {
    BusPosition {
        bus_id: id.into(),
        station_index,
        is_arriving,
        lat: None,
        lng: None,
        angle: None,
        distance_to_station: None,
        distance_shown_m: None,
        stop_distances_m: vec![],
        travel_time_secs: Some(secs),
        station_name: None,
        crowd_status: CrowdLevel::Unknown,
        track_segment_index: None,
        state_description: None,
    }
}

fn data(buses: Vec<BusPosition>, estimates: Vec<ArrivalDetail>) -> RealTimeData {
    RealTimeData {
        run_state: RunState::Running,
        plan_time: None,
        buses,
        station_arrivals: vec![],
        segments: vec![],
        arrival_estimates: estimates,
    }
}

fn some_buses() -> Vec<BusPosition> {
    vec![
        bus("远", 1, false, 600),
        bus("刚走", 5, false, 0),
        bus("", 3, false, 300),
        bus("近", 4, false, 120),
        bus("同站", 3, false, 300),
        bus("过了", 6, false, 0),
    ]
}

#[test]
fn vehicles_are_listed_from_the_nearest() {
    let stops = detail().topology.stations;
    assert_eq!(nearest_first(&some_buses(), &stops, 5), vec![3, 2, 4, 0, 1, 5]);
    let text = live_text(&detail(), &data(some_buses(), vec![]), 5, "深圳", "08:00", false);
    let places: Vec<usize> = ["车辆 近", "车辆 3（上游未提供编号）", "车辆 同站", "车辆 远", "车辆 刚走", "车辆 过了"]
        .iter()
        .map(|name| text.find(name).unwrap())
        .collect();
    assert!(places.windows(2).all(|pair| pair[0] < pair[1]));
}

#[test]
fn the_list_begins_with_the_vehicle_that_is_followed() {
    let realtime = data(some_buses(), vec![]);
    let page = watch_setup_view(&detail(), &realtime, "sz", 5, &AlertSettings::default());
    let Board::Inline(rows) = page.board else { panic!("vehicles have buttons") };
    let chosen: Vec<Option<String>> = rows
        .iter()
        .filter_map(|row| match &row[0].target {
            Target::Act(Action::WatchStart { bus, .. }) => Some(bus.clone()),
            _ => None,
        })
        .collect();
    let wanted: Vec<Option<String>> = vec![None, Some("近".into()), Some("同站".into()), Some("远".into())];
    assert_eq!(chosen, wanted);
    assert!(!page.text.contains("刚走") && !page.text.contains("过了"));
    let followed = locate(&realtime, &detail().topology.stations, 5, None).unwrap();
    assert_eq!(followed.label, "车辆 近");
}

#[test]
fn estimates_are_never_passed_off_as_vehicles() {
    let estimates = vec![ArrivalDetail { stations_away: 2, minutes_away: 4, distance_m: 900 }];
    let stops = detail().topology.stations;
    let none_left = data(vec![bus("过了", 6, false, 0)], estimates.clone());
    let found = locate(&none_left, &stops, 5, None).unwrap();
    assert!(found.anonymous && found.location.is_none());
    assert_eq!(found.label, "综合预估（上游未提供车辆编号）");
    assert!(locate(&none_left, &stops, 5, Some("A")).is_none());
    let coming = data(vec![bus("A", 1, false, 60)], estimates);
    assert!(!locate(&coming, &stops, 5, None).unwrap().anonymous);
}

#[test]
fn commands_are_taken_apart() {
    let parts = |a: &str, b: &str| Some((a.to_string(), b.to_string()));
    assert_eq!(split_command("/City@WhereBot  深圳 "), parts("City", "深圳"));
    assert_eq!(split_command("/@x"), parts("", ""));
    assert_eq!(split_command("city"), None);
    assert_eq!(parse_command("/City@WhereBot  深圳 "), parts("city", "深圳"));
    assert_eq!(parse_command("/@x"), None);
}

#[test]
fn lines_answer_by_name_and_ends() {
    let ends = EndpointsView { origin: "机场T3".into(), origin_alias: None, terminus: "火车站".into(), terminus_alias: None };
    assert!(line_answers(&ends, "k155路", "k155", "K155"));
    assert!(line_answers(&ends, "x", "t3", "T3"));
    assert!(line_answers(&ends, "x", "火车", "火车"));
    assert!(!line_answers(&ends, "x", "t3", "t3"));
}

#[test]
fn texts_are_quoted_in_keyboards() {
    let rows = vec![vec![("a\"b\\c\n\u{1}\u{7f}/站".to_string(), "m:home".to_string())]];
    assert_eq!(
        inline_keyboard(rows),
        "{\"inline_keyboard\":[[{\"text\":\"a\\\"b\\\\c\\n\\u0001\u{7f}/站\",\"callback_data\":\"m:home\"}]]}"
    );
}

fn field(key: &str, value: &str) -> Field {
    Field { key: key.into(), value: value.into() }
}

#[test]
fn the_signed_text_is_put_together() {
    let fields = vec![
        field("user", "{}"),
        field("hash", "00"),
        field("signature", "x"),
        field("auth_date", "1000"),
        field("hash", "0aFF"),
    ];
    let (text, tag) = signed_text(&fields, 1000).unwrap();
    assert_eq!(text, "auth_date=1000\nuser={}");
    assert_eq!(tag, vec![10, 255]);
    assert_eq!(user_text(&fields).unwrap(), "{}");
    let wrong = |fields: Vec<Field>, now: u64| signed_text(&fields, now).err().unwrap();
    assert_eq!(wrong(vec![field("auth_date", "1000")], 1000), AuthError::Malformed("缺少 hash"));
    assert_eq!(wrong(vec![field("hash", "00")], 1000), AuthError::Malformed("缺少 auth_date"));
    assert_eq!(wrong(vec![field("hash", "00"), field("auth_date", "x")], 1000), AuthError::Malformed("缺少 auth_date"));
    assert_eq!(wrong(vec![field("hash", "0"), field("auth_date", "1000")], 1000), AuthError::Malformed("hash 不是十六进制"));
    assert_eq!(wrong(vec![field("hash", "00"), field("auth_date", "1000")], 87_401), AuthError::Expired);
    assert!(signed_text(&vec![field("hash", "00"), field("auth_date", "1000")], 87_400).is_ok());
    assert_eq!(user_text(&vec![field("hash", "00")]).err().unwrap(), AuthError::Malformed("缺少 user"));
}

#[test]
fn stored_keys_are_read_back() {
    let stored = store_key(&vec![1, 2], &vec![255]);
    assert_eq!(stored, "pbkdf2$sha256$200000$0102$ff");
    assert_eq!(read_stored(&stored), Some((200_000, vec![1, 2], vec![255])));
    for wrong in ["", "pbkdf2$sha256$1$00", "pbkdf2$md5$1$00$00", "pbkdf2$sha256$x$00$00", "pbkdf2$sha256$1$0$00"] {
        assert_eq!(read_stored(wrong), None);
    }
    assert_eq!(read_stored("pbkdf2$sha256$3$00$01$rest"), Some((3, vec![0], vec![1])));
}

#[test]
fn a_favourite_is_no_query() {
    let mut store = Store::new();
    let env = Env { services: vec![], tz_offset: 8, miniapp_url: None };
    let realtime = data(vec![], vec![]);
    live_reply(&mut store, &env, 1, &detail(), &realtime, "sz", 5, true, 1000);
    assert!(toggle_reply(&mut store, 1, Some(&detail()), "sz", "1路:1", 5, 1100));
    live_reply(&mut store, &env, 1, &detail(), &realtime, "sz", 5, false, 1200);
    let user = store.get(1);
    assert_eq!((user.queries, user.habits.len(), user.habits[0].total, user.favorites.len()), (1, 1, 1, 1));
    for now in 1300..1310 {
        live_reply(&mut store, &env, 1, &detail(), &realtime, "sz", 5, true, now);
        live_reply(&mut store, &env, 1, &detail(), &realtime, "sz", 4, true, now);
    }
    let user = store.get(1);
    let keys: Vec<&str> = user.habits.iter().map(|habit| habit.key.as_str()).collect();
    assert_eq!(keys, vec!["sz|1路:1|5", "sz|1路:1|4"]);
    assert_eq!(user.favorites[0].hits, 10);
}

#[test]
fn only_watches_that_ran_out_are_written_off() {
    let watch = |started_at: u64| WatchSpec {
        service: "sz".into(),
        city_label: "深圳".into(),
        line_name: "1路".into(),
        direction: "1路:1".into(),
        station_name: "站".into(),
        order: 3,
        chat_id: 1,
        card_message_id: 2,
        target_bus: None,
        started_at,
    };
    let mut store = Store::new();
    store.update_at(1, 5000, |user| user.watch = Some(watch(5000)));
    assert!(store.begin_flush().is_some());
    assert_eq!(restore_watches(&mut store, 8599).len(), 1);
    assert!(store.begin_flush().is_none());
    assert!(restore_watches(&mut store, 8600).is_empty());
    assert!(store.begin_flush().is_some());
    assert!(store.get(1).watch.is_none());
}

#[test]
fn tokens_come_of_the_bytes_that_there_are() {
    assert_eq!(token_from(Some(vec![0, 10, 255])), Some("000aff".to_string()));
    assert_eq!(token_from(Some(vec![])), Some(String::new()));
    assert_eq!(token_from(None), None);

    let user = |id: i64| TelegramUser { id, name: "小明".into(), username: None };
    let mut sessions = Sessions::new();
    assert!(sessions.issue_with(None, user(1), 1000).is_none());
    assert_eq!(sessions.active(), 0);
    let (token, session) = sessions.issue_with(Some("t".into()), user(1), 1000).unwrap();
    assert_eq!((token.as_str(), session.user.id, session.issued_at), ("t", 1, 1000));
    assert_eq!(sessions.lookup_at("t", 1000).unwrap().user.id, 1);

    let mut console = AdminSessions::new();
    assert_eq!(console.issue_with(None, 1000), None);
    assert_eq!(console.active(), 0);
    assert_eq!(console.issue_with(Some("t".into()), 1000), Some("t".to_string()));
    assert!(console.valid_at("t", 1000));
}

#[test]
fn a_vehicle_that_has_just_left_does_not_lead_the_list() {
    let buses = vec![bus("刚走", 5, false, 0), bus("远", 1, false, 600)];
    let stops = detail().topology.stations;
    assert_eq!(nearest_first(&buses, &stops, 5), vec![1, 0]);
    let followed = locate(&data(buses, vec![]), &stops, 5, None).unwrap();
    assert_eq!(followed.label, "车辆 远");
}
