//! Which vehicle is meant, and when somebody is alerted.
use wherebus::models::{ArrivalDetail, BusPosition, CrowdLevel, Double, LineStop, RealTimeData, RunState, StopStatus};
use wherebus::store::{AlertSettings, WatchSpec};
use wherebus::watch::{
    after_alert, alert_text, begin_round, decide_alert, distance_to_target, locate, observe, on_failure, pause_secs, proximity_key, Alert,
    AlertState, Approach, WatchState,
};

fn double(x: f64) -> Double {
    Double { bits: x.to_bits() }
}

/// Metres along a great circle.
fn haversine(lat1: f64, lng1: f64, lat2: f64, lng2: f64) -> f64 {
    let (a, b) = ((lat2 - lat1).to_radians(), (lng2 - lng1).to_radians());
    let h = (a / 2.0).sin().powi(2) + lat1.to_radians().cos() * lat2.to_radians().cos() * (b / 2.0).sin().powi(2);
    2.0 * 6_371_000.0 * h.sqrt().asin()
}

/// Fills in how far a vehicle is from each stop.
fn measured(mut bus: BusPosition, stops: &[LineStop]) -> BusPosition {
    if let (Some(lat), Some(lng)) = (bus.lat, bus.lng) {
        let (lat, lng) = (f64::from_bits(lat.bits), f64::from_bits(lng.bits));
        bus.stop_distances_m = stops
            .iter()
            .map(|stop| haversine(lat, lng, f64::from_bits(stop.lat.bits), f64::from_bits(stop.lng.bits)).round() as u32)
            .collect();
    }
    bus
}

fn stops() -> Vec<LineStop> {
    (1..=6)
        .map(|order| LineStop {
            id: None,
            name: format!("第{order}站"),
            alias: None,
            order,
            lat: double(0.0),
            lng: double(0.0),
            status: StopStatus::Normal,
            track_index: None,
        })
        .collect()
}

fn bus(id: &str, station_index: u32, is_arriving: bool, distance: Option<f64>) -> BusPosition {
    BusPosition {
        bus_id: id.into(),
        station_index,
        is_arriving,
        lat: None,
        lng: None,
        angle: None,
        distance_to_station: distance.map(double),
        distance_shown_m: distance.map(|metres| metres.round() as i64),
        stop_distances_m: vec![],
        travel_time_secs: Some(180),
        station_name: None,
        crowd_status: CrowdLevel::Unknown,
        track_segment_index: None,
        state_description: None,
    }
}

fn realtime(buses: Vec<BusPosition>, estimates: Vec<ArrivalDetail>) -> RealTimeData {
    RealTimeData {
        run_state: RunState::Running,
        plan_time: None,
        buses,
        station_arrivals: vec![],
        segments: vec![],
        arrival_estimates: estimates,
    }
}

fn spec() -> WatchSpec {
    WatchSpec {
        service: "hz571801".into(),
        city_label: "杭州 · 掌上公交".into(),
        line_name: "1路".into(),
        direction: "1路:1".into(),
        station_name: "运河天地".into(),
        order: 3,
        chat_id: 42,
        card_message_id: 7,
        target_bus: Some("A".into()),
        started_at: 0,
    }
}

#[test]
fn named_target_is_tracked_even_when_another_bus_is_closer() {
    let data = realtime(vec![bus("A", 4, false, Some(300.0)), bus("B", 2, false, Some(2400.0))], vec![]);
    let found = locate(&data, &stops(), 5, Some("B")).unwrap();
    assert_eq!(found.label, "车辆 B");
    assert_eq!(found.stations_away, Some(3));
    assert_eq!(found.distance_m, None);
    assert!(!found.passed);
    assert!(locate(&data, &stops(), 5, Some("C")).is_none());
}

#[test]
fn auto_mode_picks_the_nearest_bus_that_has_not_passed() {
    let data = realtime(
        vec![
            bus("已过站", 6, false, Some(100.0)),
            bus("远", 1, false, Some(3000.0)),
            bus("近", 3, false, Some(900.0)),
        ],
        vec![],
    );
    let found = locate(&data, &stops(), 5, None).unwrap();
    assert_eq!(found.label, "车辆 近");
    assert_eq!(found.stations_away, Some(2));
}

#[test]
fn distance_is_measured_to_the_boarding_stop() {
    let mut stops = stops();
    stops[4].lat = double(24.8740);
    stops[4].lng = double(118.6760);

    let mut near = bus("近", 4, false, Some(9999.0));
    near.lat = Some(double(24.8745));
    near.lng = Some(double(118.6762));
    let near = measured(near, &stops);
    let distance = distance_to_target(&near, &stops, 5).unwrap();
    assert!((40..90).contains(&distance), "实际 {distance} 米");

    let mut blank = bus("无坐标", 4, false, Some(120.0));
    blank.lat = None;
    blank.lng = None;
    let blank = measured(blank, &stops);
    assert_eq!(distance_to_target(&blank, &stops, 5), None);
    let mut zero = bus("零坐标", 4, false, Some(120.0));
    zero.lat = Some(double(0.0));
    zero.lng = Some(double(0.0));
    let zero = measured(zero, &stops);
    assert_eq!(distance_to_target(&zero, &stops, 5), None);
    assert_eq!(distance_to_target(&near, &stops, 1), None);
}

#[test]
fn buses_sort_from_nearest_to_farthest() {
    let stops = stops();
    let mut buses = vec![
        bus("远", 1, false, Some(3000.0)),
        bus("位置对不上", 99, false, Some(0.0)),
        bus("近", 4, false, Some(200.0)),
        bus("中", 3, false, Some(900.0)),
    ];
    buses.sort_by_key(|bus| proximity_key(bus, &stops, 5));
    let order: Vec<&str> = buses.iter().map(|bus| bus.bus_id.as_str()).collect();
    assert_eq!(order, vec!["近", "中", "远", "位置对不上"]);

    let mut same_stop = vec![
        BusPosition { travel_time_secs: Some(600), ..bus("慢", 3, false, Some(800.0)) },
        BusPosition { travel_time_secs: Some(120), ..bus("快", 3, false, Some(900.0)) },
    ];
    same_stop.sort_by_key(|bus| proximity_key(bus, &stops, 5));
    assert_eq!(same_stop[0].bus_id, "快");
}

#[test]
fn anonymous_estimates_are_labelled_as_such() {
    let data = realtime(
        vec![],
        vec![
            ArrivalDetail { stations_away: 4, minutes_away: 9, distance_m: 2000 },
            ArrivalDetail { stations_away: 1, minutes_away: 3, distance_m: 600 },
        ],
    );
    let found = locate(&data, &stops(), 5, None).unwrap();
    assert!(found.anonymous);
    assert!(found.label.contains("未提供车辆编号"));
    assert_eq!(found.stations_away, Some(1));
    assert_eq!(found.location, None);
    assert!(locate(&realtime(vec![], vec![]), &stops(), 5, None).is_none());
}

fn approach(stations: Option<u32>, distance: Option<u32>) -> Approach {
    Approach {
        label: "车辆 A".into(),
        location: None,
        stations_away: stations,
        minutes_away: None,
        distance_m: distance,
        passed: false,
        at_target: false,
        anonymous: false,
    }
}

#[test]
fn station_alert_fires_once_then_distance_alert_repeats() {
    let alerts = AlertSettings::default();
    let mut state = AlertState::default();

    assert_eq!(decide_alert(&approach(Some(3), Some(1800)), &alerts, &state, 100), None);

    assert_eq!(
        decide_alert(&approach(Some(1), Some(1200)), &alerts, &state, 100),
        Some(Alert::Stations(1))
    );
    state.stations_alerted = true;
    assert_eq!(decide_alert(&approach(Some(1), Some(1200)), &alerts, &state, 110), None);

    assert_eq!(
        decide_alert(&approach(Some(1), Some(400)), &alerts, &state, 200),
        Some(Alert::Distance(400))
    );
    state.last_distance_alert = 200;
    assert_eq!(decide_alert(&approach(Some(1), Some(300)), &alerts, &state, 230), None);
    assert_eq!(
        decide_alert(&approach(Some(1), Some(200)), &alerts, &state, 260),
        Some(Alert::Distance(200))
    );
}

#[test]
fn arriving_and_passed_end_the_watch() {
    let alerts = AlertSettings::default();
    let state = AlertState::default();
    let arriving = Approach { at_target: true, ..approach(Some(0), Some(0)) };
    assert_eq!(decide_alert(&arriving, &alerts, &state, 0), Some(Alert::Arriving));
    assert!(Alert::Arriving.is_final());

    let passed = Approach { passed: true, ..approach(None, None) };
    assert_eq!(decide_alert(&passed, &alerts, &state, 0), Some(Alert::Passed));
    assert!(Alert::Passed.is_final());
    assert!(!Alert::Distance(10).is_final());
}

#[test]
fn thresholds_of_zero_disable_their_alert() {
    let alerts = AlertSettings { alert_stations: 0, alert_distance_m: 0, ..AlertSettings::default() };
    let state = AlertState::default();
    assert_eq!(decide_alert(&approach(Some(0), Some(10)), &alerts, &state, 9999), None);
}

#[test]
fn alert_text_mentions_line_station_and_numbers() {
    let text = alert_text(Alert::Distance(420), &spec(), &approach(Some(1), Some(420)));
    assert!(text.contains("1路"));
    assert!(text.contains("运河天地"));
    assert!(text.contains("420 米"));
}

#[test]
fn alert_texts_are_exact() {
    let a = approach(Some(1), Some(420));
    assert_eq!(
        alert_text(Alert::Stations(1), &spec(), &a),
        "🔔 <b>1路</b> 还有 1 站到「运河天地」\n车辆 A\n还有 1 站 · 直线 420 米\n\n准备上车。"
    );
    assert_eq!(
        alert_text(Alert::Arriving, &spec(), &a),
        "🚏 <b>1路</b> 正在进站「运河天地」\n车辆 A\n\n盯车结束。"
    );
    assert_eq!(
        alert_text(Alert::Passed, &spec(), &a),
        "⚪️ <b>1路</b> 已驶过「运河天地」\n车辆 A\n\n盯车结束，需要的话再开一次。"
    );
}

#[test]
fn a_round_gives_card_and_alert() {
    let stops = stops();
    let alerts = AlertSettings::default();
    let data = realtime(vec![bus("A", 2, false, None)], vec![]);
    let mut state = WatchState::new();
    state.errors = 3;
    let round = observe(&mut state, &spec(), &stops, &data, &alerts, "08:00:00", 1000);
    assert_eq!(state.errors, 0);
    assert!(round.card.contains("1路"));
    let (alert, text) = round.alert.unwrap();
    assert_eq!(alert, Alert::Stations(1));
    assert!(text.contains("还有 1 站"));
    assert_eq!(after_alert(&mut state, alert, 1000), None);
    assert!(state.alerts.stations_alerted);
    assert!(observe(&mut state, &spec(), &stops, &data, &alerts, "08:00:10", 1010).alert.is_none());
    assert_eq!(after_alert(&mut state, Alert::Distance(10), 1020), None);
    assert_eq!(state.alerts.last_distance_alert, 1020);
    assert_eq!(after_alert(&mut state, Alert::Passed, 1030), Some("盯车已结束。"));
}

#[test]
fn a_watch_ends_by_time_ban_or_failures() {
    let alerts = AlertSettings::default();
    assert_eq!(begin_round(false, &alerts, 0, 3599), None);
    assert_eq!(begin_round(false, &alerts, 0, 3600), Some("⏱ 已达到最长盯车时间，盯车结束。"));
    assert_eq!(begin_round(true, &alerts, 0, 0), Some("账号已被停用，盯车结束。"));
    let mut state = WatchState::new();
    for _ in 0..5 {
        assert_eq!(on_failure(&mut state, "超时"), None);
    }
    assert_eq!(
        on_failure(&mut state, "超时"),
        Some("连续 6 次获取实时数据失败，盯车已停止。\n超时".to_string())
    );
    assert_eq!(pause_secs(&AlertSettings { poll_secs: 0, ..alerts }), 1);
    assert_eq!(pause_secs(&alerts), 10);
}

#[test]
fn a_vehicle_that_has_passed_is_the_farthest() {
    let stops = stops();
    let passed = (u32::MAX, u32::MAX, u32::MAX);
    assert_eq!(proximity_key(&bus("刚走", 5, false, None), &stops, 5), passed);
    assert_eq!(proximity_key(&bus("过了", 6, true, None), &stops, 5), passed);
    assert!(proximity_key(&bus("到了", 5, true, None), &stops, 5) < passed);
}

#[test]
fn a_distance_of_the_source_is_not_a_measure() {
    let stops = stops();
    let without = bus("A", 3, false, None);
    let with = bus("A", 3, false, Some(12.5));
    assert_eq!(distance_to_target(&with, &stops, 5), distance_to_target(&without, &stops, 5));
    assert_eq!(distance_to_target(&with, &stops, 5), None);
}
