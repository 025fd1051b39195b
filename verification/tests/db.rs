//! What users become in the tables, and what is read out of them.
use wherebus::db::{hours_or_none, load_settings, load_users, save_settings, save_user, FavoriteRow, HabitRow, UserRow, WatchRow};
use wherebus::models::{Double, GeoPoint};
use wherebus::store::{AlertSettings, Favorite, GlobalSettings, Pending, UserState, WatchSpec};

fn double(x: f64) -> Double {
    Double { bits: x.to_bits() }
}

fn full_user() -> UserState {
    let mut user = UserState::default();
    user.service = Some("sz".into());
    user.city_label = Some("深圳 · 掌上公交".into());
    user.display_name = "小明".into();
    user.username = Some("xiaoming".into());
    user.first_seen = 100;
    user.last_seen = 200;
    user.last_location = Some(GeoPoint { lat: double(22.5), lng: double(114.0) });
    user.pending = Pending::Line;
    user.banned = true;
    user.alerts = Some(AlertSettings { poll_secs: 20, alert_stations: 2, alert_distance_m: 800, repeat_secs: 30, max_minutes: 90 });
    user.toggle_favorite_at(
        Favorite {
            service: "sz".into(),
            city_label: "深圳".into(),
            line_name: "M375".into(),
            direction: "M375:1".into(),
            station_name: "科技园".into(),
            order: 5,
            ..Default::default()
        },
        150,
    );
    user.record_query_at("sz", "M375", "M375:1", "科技园", 5, 8, 160);
    user.watch = Some(WatchSpec {
        service: "sz".into(),
        city_label: "深圳".into(),
        line_name: "M375".into(),
        direction: "M375:1".into(),
        station_name: "科技园".into(),
        order: 5,
        chat_id: 42,
        card_message_id: 7,
        target_bus: Some("A".into()),
        started_at: 170,
    });
    user
}

fn row(id: i64) -> UserRow {
    save_user(id, &UserState::default()).user
}

#[test]
fn a_saved_user_is_loaded() {
    let user = full_user();
    let rows = save_user(42, &user);
    assert_eq!(rows.user.pending, "Line");
    assert_eq!(rows.habits[0].hours, "[0,0,0,0,0,0,0,0,1,0,0,0,0,0,0,0,0,0,0,0,0,0,0,0]");
    let other = save_user(7, &UserState { queries: 3, ..UserState::default() });
    let users = vec![rows.user, other.user];
    let watches: Vec<WatchRow> = rows.watch.into_iter().collect();
    let loaded = load_users(&users, &rows.favorites, &rows.habits, &watches);
    assert_eq!(loaded.len(), 2);
    assert_eq!(loaded[0].0, 42);
    assert_eq!(format!("{:?}", loaded[0].1), format!("{user:?}"));
    assert_eq!(loaded[1].1.queries, 3);
    assert!(loaded[1].1.favorites.is_empty() && loaded[1].1.watch.is_none());
}

#[test]
fn rows_of_nobody_are_left_aside() {
    let rows = save_user(42, &full_user());
    let watches: Vec<WatchRow> = rows.watch.into_iter().collect();
    assert!(load_users(&vec![], &rows.favorites, &rows.habits, &watches).is_empty());
}

#[test]
fn numbers_below_zero_and_missing_ones() {
    let broken = UserRow {
        first_seen: -5,
        last_lat: Some(double(1.0)),
        pending: "?".into(),
        banned: 2,
        alert_poll_secs: Some(-1),
        alert_distance_m: Some(0x1_0000_0064),
        ..row(1)
    };
    let loaded = load_users(&vec![broken], &vec![], &vec![], &vec![]);
    let user = &loaded[0].1;
    assert_eq!(user.first_seen, 0);
    assert_eq!(user.last_location, None);
    assert_eq!(user.pending, Pending::Nothing);
    assert!(user.banned);
    assert_eq!(
        user.alerts,
        Some(AlertSettings { poll_secs: 5, alert_stations: 1, alert_distance_m: 100, repeat_secs: 60, max_minutes: 60 })
    );
    assert_eq!(load_users(&vec![row(1)], &vec![], &vec![], &vec![])[0].1.alerts, None);
}

#[test]
fn hours_are_read_from_json() {
    let rows = save_user(1, &full_user());
    let with = |hours: &str| {
        let habit = HabitRow {
            user_id: 1,
            key: "k".into(),
            label: "l".into(),
            service: "s".into(),
            line_name: "n".into(),
            direction: "d".into(),
            station_name: "t".into(),
            stop_order: 1,
            hours: hours.into(),
            total: 1,
            last_at: 1,
        };
        load_users(&vec![row(1)], &Vec::<FavoriteRow>::new(), &vec![habit], &vec![])[0].1.habits[0].hours.clone()
    };
    assert_eq!(with(" [1, 2,3] "), vec![1, 2, 3]);
    assert_eq!(with("[]"), Vec::<u32>::new());
    assert_eq!(with("[-1]"), vec![0; 24]);
    assert_eq!(with("nonsense"), vec![0; 24]);
    assert_eq!(hours_or_none(None), vec![0; 24]);
    assert_eq!(rows.habits.len(), 1);
}

#[test]
fn the_last_watch_of_a_user_counts() {
    let watch = |bus: &str| save_user(1, &UserState {
        watch: Some(WatchSpec { target_bus: Some(bus.into()), ..full_user().watch.unwrap() }),
        ..UserState::default()
    })
    .watch
    .unwrap();
    let loaded = load_users(&vec![row(1)], &vec![], &vec![], &vec![watch("A"), watch("B")]);
    assert_eq!(loaded[0].1.watch.as_ref().unwrap().target_bus.as_deref(), Some("B"));
}

#[test]
fn settings_are_saved_and_loaded() {
    let settings = GlobalSettings {
        defaults: AlertSettings { poll_secs: 1, ..AlertSettings::default() },
        allow_new_users: false,
    };
    let (defaults, allow) = save_settings(&settings);
    assert_eq!(allow, "0");
    let loaded = load_settings(Some(defaults), &Some(allow.to_string()));
    assert!(!loaded.allow_new_users);
    assert_eq!(loaded.defaults.poll_secs, 5);
    assert_eq!(load_settings(None, &None), GlobalSettings::default());
    assert!(load_settings(None, &Some("yes".into())).allow_new_users);
}

#[test]
fn settings_come_back_within_their_ranges() {
    let alerts = AlertSettings { poll_secs: 1, alert_stations: 2, alert_distance_m: 999_999, repeat_secs: 30, max_minutes: 90 };
    let user = UserState { alerts: Some(alerts), ..full_user() };
    let rows = save_user(1, &user);
    let loaded = load_users(&vec![rows.user], &rows.favorites, &rows.habits, &rows.watch.into_iter().collect());
    assert_eq!(loaded[0].1.alerts, Some(alerts.clamped()));
    assert_eq!(loaded[0].1.alerts.unwrap().poll_secs, 5);
    let huge = AlertSettings { poll_secs: 1 << 63, ..alerts };
    let rows = save_user(1, &UserState { alerts: Some(huge), ..UserState::default() });
    assert_eq!(rows.user.alert_poll_secs, Some(i64::MIN));
}

#[test]
fn favourites_come_back_by_their_time() {
    let mut user = UserState::default();
    for (order, at) in [(5, 300), (6, 100), (7, 200)] {
        let favorite = Favorite { service: "sz".into(), direction: "M375:1".into(), order, ..Default::default() };
        user.toggle_favorite_at(favorite, at);
    }
    let rows = save_user(1, &user);
    let mut stored = rows.favorites;
    stored.extend(save_user(2, &full_user()).favorites);
    stored.sort_by_key(|f| f.added_at);
    let loaded = load_users(&vec![rows.user, row(2)], &stored, &rows.habits, &vec![]);
    let orders: Vec<u32> = loaded[0].1.favorites.iter().map(|f| f.order).collect();
    assert_eq!(orders, vec![6, 7, 5]);
    assert_eq!(loaded[1].1.favorites.len(), 1);
    let alone = load_users(&vec![save_user(1, &user).user], &save_user(1, &user).favorites, &vec![], &vec![]);
    assert_eq!(format!("{:?}", alone[0].1), format!("{user:?}"));
}
