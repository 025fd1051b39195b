//! What is kept of users.
use wherebus::store::{
    habit_key, import_users, local_clock, local_clock_secs, local_hour, now_secs, AlertField, AlertSettings, Favorite, GlobalSettings, Pending, Store,
    UserState, WatchSpec,
};

fn favorite() -> Favorite {
    Favorite {
        service: "shenzhen".into(),
        city_label: "深圳 · 掌上公交".into(),
        line_name: "M375".into(),
        direction: "M375:1".into(),
        station_name: "科技园".into(),
        order: 5,
        ..Default::default()
    }
}

/// Writes the store out and reads it back, where something has changed.
fn reloaded(store: &mut Store) -> Store {
    let (users, settings) = store.begin_flush().unwrap();
    Store::restore(users, settings)
}

#[test]
fn toggle_favorite_adds_then_removes() {
    let mut user = UserState::default();
    assert!(user.toggle_favorite(favorite()));
    assert!(user.is_favorite("shenzhen", "M375:1", 5));
    assert_eq!(user.favorites.len(), 1);
    assert!(!user.toggle_favorite(favorite()));
    assert!(user.favorites.is_empty());
}

#[test]
fn habits_accumulate_per_hour_and_bump_favorite_hits() {
    let mut user = UserState::default();
    user.toggle_favorite(favorite());
    for _ in 0..3 {
        user.record_query("shenzhen", "M375", "M375:1", "科技园", 5, 8);
    }
    user.record_query("shenzhen", "M375", "M375:1", "科技园", 5, 18);
    user.record_query("shenzhen", "42", "42:1", "会展中心", 2, 18);

    assert_eq!(user.queries, 5);
    assert_eq!(user.favorites[0].hits, 4);
    let histogram = user.hour_histogram();
    assert_eq!(histogram[8], 3);
    assert_eq!(histogram[18], 2);
    assert_eq!(user.top_habits(1)[0].label, "M375 @ 科技园");
    assert_eq!(user.suggestions(8, 3).len(), 1);
    assert_eq!(user.suggestions(8, 3)[0].line_name, "M375");
    assert!(user.suggestions(3, 3).is_empty());
}

#[test]
fn store_roundtrips_through_disk() {
    let mut store = Store::new();
    store.update(42, |user| {
        user.service = Some("shenzhen".into());
        user.toggle_favorite(favorite());
        user.record_query("shenzhen", "M375", "M375:1", "科技园", 5, 8);
    });

    let reloaded = reloaded(&mut store);
    let user = reloaded.get(42);
    assert_eq!(user.service.as_deref(), Some("shenzhen"));
    assert_eq!(user.favorites.len(), 1);
    assert_eq!(user.habits[0].total, 1);
    assert_eq!(reloaded.get(7).favorites.len(), 0);
}

#[test]
fn alert_settings_stay_inside_their_range() {
    let mut alerts = AlertSettings::default();
    assert_eq!(alerts.poll_secs, 10);
    assert_eq!(alerts.alert_stations, 1);
    assert_eq!(alerts.alert_distance_m, 500);

    assert_eq!(alerts.adjust(AlertField::Poll, -10), 5);
    assert_eq!(alerts.adjust(AlertField::Poll, -1), 5);
    assert_eq!(alerts.adjust(AlertField::Distance, 5), 1000);
    assert_eq!(alerts.set(AlertField::Distance, 99_999), 5000);
    assert_eq!(alerts.set(AlertField::Stations, 0), 0);

    let wild = AlertSettings {
        poll_secs: 1,
        alert_stations: 99,
        alert_distance_m: 999_999,
        repeat_secs: 0,
        max_minutes: 0,
    }
    .clamped();
    assert_eq!(wild.poll_secs, 5);
    assert_eq!(wild.alert_stations, 10);
    assert_eq!(wild.repeat_secs, 15);
    assert_eq!(AlertField::parse("alert_distance_m"), Some(AlertField::Distance));
    assert_eq!(AlertField::parse("nope"), None);
}

#[test]
fn personal_alerts_override_global_defaults() {
    let mut store = Store::new();
    assert_eq!(store.alerts_for(1).poll_secs, 10);

    store.update_settings(|settings| settings.defaults.poll_secs = 20);
    assert_eq!(store.alerts_for(1).poll_secs, 20);

    store.update(1, |user| {
        let mut alerts = AlertSettings::default();
        alerts.poll_secs = 30;
        user.alerts = Some(alerts);
    });
    assert_eq!(store.alerts_for(1).poll_secs, 30);
    assert_eq!(store.alerts_for(2).poll_secs, 20);

    let reloaded = reloaded(&mut store);
    assert_eq!(reloaded.settings().defaults.poll_secs, 20);
    assert_eq!(reloaded.alerts_for(1).poll_secs, 30);
}

#[test]
fn local_time_uses_fixed_offset() {
    assert_eq!(local_hour(0, 8), 8);
    assert_eq!(local_clock(0, 8), "08:00");
    assert_eq!(local_clock_secs(3661, 0), "01:01:01");
    assert_eq!(local_hour(3600 * 20, 8), 4);
    assert_eq!(local_hour(0, -5), 19);
}

#[test]
fn the_clock_goes_forward() {
    let first = now_secs();
    assert!(first > 1_600_000_000);
    assert!(now_secs() >= first);
}

#[test]
fn settings_have_names_steps_and_ranges() {
    assert_eq!(AlertField::ALL.len(), 5);
    for field in AlertField::ALL {
        assert_eq!(AlertField::parse(field.key()), Some(field));
        let (low, high) = field.range();
        assert!(low < high && field.step() > 0);
        assert!(!field.label().is_empty() && !field.unit().is_empty());
        let mut alerts = AlertSettings::default();
        assert_eq!(alerts.set(field, u64::MAX), high);
        assert_eq!(alerts.get(field), high);
        assert_eq!(alerts.adjust(field, i64::MIN), low);
    }
    let mut alerts = AlertSettings::default();
    alerts.set(AlertField::Repeat, 120);
    assert_eq!(alerts, AlertSettings { repeat_secs: 120, ..AlertSettings::default() });
}

#[test]
fn out_of_range_defaults_are_moved_into_range() {
    let mut store = Store::new();
    store.update_settings(|settings| settings.defaults.max_minutes = 100_000);
    assert_eq!(store.settings().defaults.max_minutes, 240);
    store.set_settings(GlobalSettings { allow_new_users: false, ..GlobalSettings::default() });
    assert!(!store.settings().allow_new_users);
}

#[test]
fn users_are_seen_listed_and_removed() {
    let mut store = Store::new();
    assert!(!store.has_user(1));
    store.update_at(1, 100, |user| user.banned = true);
    store.update_at(2, 300, |_| {});
    store.update_at(1, 200, |_| {});
    assert_eq!(store.user_count(), 2);
    assert_eq!(store.get(1).first_seen, 100);
    assert_eq!(store.get(1).last_seen, 200);
    let ids: Vec<i64> = store.all_users().iter().map(|(id, _)| *id).collect();
    assert_eq!(ids, vec![2, 1]);
    assert!(store.remove(1));
    assert!(!store.remove(1));
    assert!(!store.has_user(1));
}

#[test]
fn only_changes_are_written_out() {
    let mut store = Store::new();
    assert!(store.begin_flush().is_none());
    store.update_at(1, 100, |_| {});
    assert!(store.begin_flush().is_some());
    assert!(store.begin_flush().is_none());
    store.flush_failed();
    assert!(store.begin_flush().is_some());
}

#[test]
fn watches_are_listed_with_their_user() {
    let mut store = Store::new();
    let spec = WatchSpec {
        service: "s".into(),
        city_label: "c".into(),
        line_name: "1路".into(),
        direction: "1路:1".into(),
        station_name: "站".into(),
        order: 3,
        chat_id: 1,
        card_message_id: 2,
        target_bus: None,
        started_at: 5,
    };
    assert_eq!(spec.label(), "1路 @ 站 · 最近一班");
    let named = WatchSpec { target_bus: Some("A".into()), ..spec.clone() };
    assert_eq!(named.label(), "1路 @ 站 · 车辆 A");
    store.update_at(1, 100, |user| user.watch = Some(spec));
    store.update_at(2, 100, |_| {});
    let watches = store.active_watches();
    assert_eq!(watches.len(), 1);
    assert_eq!(watches[0].0, 1);
}

#[test]
fn habits_are_scored_around_an_hour() {
    let mut user = UserState::default();
    user.record_query_at("s", "1路", "1路:1", "站", 3, 23, 100);
    user.record_query_at("s", "1路", "1路:1", "站", 3, 0, 200);
    let habit = &user.habits[0];
    assert_eq!(habit.key, habit_key("s", "1路:1", 3));
    assert_eq!(habit.key, "s|1路:1|3");
    assert_eq!(habit.score_at(23), 4);
    assert_eq!(habit.score_at(0), 4);
    assert_eq!(habit.score_at(1), 1);
    assert_eq!(habit.score_at(12), 0);
    assert_eq!(habit.last_at, 200);
}

#[test]
fn favorites_stay_different() {
    let mut user = UserState::default();
    assert!(user.toggle_favorite_at(favorite(), 100));
    assert!(user.toggle_favorite_at(Favorite { order: 6, ..favorite() }, 200));
    assert_eq!(user.favorites[1].added_at, 200);
    assert_eq!(user.favorite_index("shenzhen", "M375:1", 6), Some(1));
    assert_eq!(user.favorite_index("shenzhen", "M375:1", 7), None);
    assert_eq!(user.favorites[0].label(), "M375 @ 科技园");
}

#[test]
fn what_is_waited_for_reads_back() {
    for pending in [Pending::Nothing, Pending::City, Pending::Line] {
        assert_eq!(Pending::from_str(pending.as_str()), pending);
    }
    assert_eq!(Pending::Nothing.as_str(), "None");
    assert_eq!(Pending::from_str("???"), Pending::Nothing);
}

#[test]
fn users_are_taken_over_once() {
    let mut store = Store::restore(vec![], GlobalSettings::default());
    let settings = GlobalSettings { defaults: AlertSettings { poll_secs: 1, ..AlertSettings::default() }, allow_new_users: false };
    let users = vec![(1, UserState { queries: 3, ..UserState::default() }), (2, UserState::default())];
    assert_eq!(import_users(&mut store, users, settings), 2);
    assert_eq!(store.user_count(), 2);
    assert_eq!(store.get(1).queries, 3);
    assert!(!store.settings().allow_new_users);
    assert_eq!(store.settings().defaults.poll_secs, 5);
    assert!(store.begin_flush().is_some());
    let again = vec![(1, UserState { queries: 9, ..UserState::default() }), (3, UserState::default())];
    assert_eq!(import_users(&mut store, again, GlobalSettings::default()), 0);
    assert_eq!((store.user_count(), store.get(1).queries), (2, 3));
    assert!(!store.settings().allow_new_users);
    assert!(store.begin_flush().is_none());
}
