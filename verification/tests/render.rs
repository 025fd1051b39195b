//! The texts of messages.
use wherebus::models::{
    ArrivalDetail, ArrivalEstimate, BusPosition, CrowdLevel, Double, LineDetail, LineStop, RealTimeData, RouteTopology, RunState, StopStatus,
    Terminal,
};
use wherebus::render::{
    alert_settings_text, arrival_text, crowd_text, describe_bus, escape, habit_button_label, habits_text, line_detail_text, live_text,
    peak_hour, run_state_text, sparkline, stop_status_note, watch_card,
};
use wherebus::store::{AlertSettings, UserState, WatchSpec};

fn double(x: f64) -> Double {
    Double { bits: x.to_bits() }
}

fn stops() -> Vec<LineStop> {
    (1..=5)
        .map(|order| LineStop {
            id: None,
            name: format!("第{order}站"),
            alias: None,
            order,
            lat: double(0.0),
            lng: double(0.0),
            status: StopStatus::Normal,
            track_index: None,
        })
        .collect()
}

fn bus(station_index: u32, is_arriving: bool) -> BusPosition {
    BusPosition {
        bus_id: "粤B12345".into(),
        station_index,
        is_arriving,
        lat: None,
        lng: None,
        angle: None,
        distance_to_station: None,
        distance_shown_m: None,
        stop_distances_m: vec![],
        travel_time_secs: None,
        station_name: None,
        crowd_status: CrowdLevel::Unknown,
        track_segment_index: None,
        state_description: None,
    }
}

fn detail() -> LineDetail {
    LineDetail {
        id: None,
        name: "M375".into(),
        direction_id: "M375:1".into(),
        reverse_id: None,
        topology: RouteTopology {
            start: Terminal::named("起点"),
            end: Terminal::named("终点"),
            stations: stops(),
            track_points: vec![],
        },
        meta: Default::default(),
    }
}

fn quiet() -> RealTimeData {
    RealTimeData {
        run_state: RunState::NoRealtime,
        plan_time: None,
        buses: vec![],
        station_arrivals: vec![],
        segments: vec![],
        arrival_estimates: vec![],
    }
}

#[test]
fn bus_before_target_reports_station_gap() {
    let view = describe_bus(&bus(2, false), 0, &stops(), 4);
    assert!(!view.passed);
    assert!(view.location.contains("已离开：第2站 → 开往 第3站"));
    assert!(view.estimate.contains("站序相差 2 站"));
}

#[test]
fn bus_at_and_past_target_are_distinguished() {
    let at_target = describe_bus(&bus(4, true), 0, &stops(), 4);
    assert!(at_target.at_target);
    assert_eq!(at_target.estimate, "正在进入你的上车站");

    let left_target = describe_bus(&bus(4, false), 0, &stops(), 4);
    assert!(left_target.passed);
    assert_eq!(left_target.estimate, "已驶过你的上车站");

    let past = describe_bus(&bus(5, true), 0, &stops(), 4);
    assert!(past.passed);
}

#[test]
fn missing_bus_id_is_labelled_not_guessed() {
    let mut raw = bus(2, false);
    raw.bus_id = String::new();
    let view = describe_bus(&raw, 3, &stops(), 4);
    assert_eq!(view.identity, "车辆 4（上游未提供编号）");
}

#[test]
fn live_text_says_when_there_is_nothing_to_show() {
    let detail = detail();
    let realtime = quiet();
    let text = live_text(&detail, &realtime, 3, "深圳 · 掌上公交", "08:30", true);
    assert!(text.contains("当前没有车辆到站预估"));
    assert!(text.contains("暂无实时数据"));
    assert!(text.contains("⭐"));

    let with_estimates = RealTimeData {
        arrival_estimates: vec![ArrivalDetail { stations_away: 2, minutes_away: 5, distance_m: 900 }],
        ..realtime
    };
    let text = live_text(&detail, &with_estimates, 3, "深圳", "08:30", false);
    assert!(text.contains("上游未关联车辆编号"));
    assert!(!text.contains("当前没有车辆到站预估"));
}

#[test]
fn html_is_escaped() {
    assert_eq!(escape("A<b>&C"), "A&lt;b&gt;&amp;C");
}

#[test]
fn sparkline_handles_empty_history() {
    assert_eq!(sparkline(&[0; 24]), "—");
    let mut values = [0u32; 24];
    values[8] = 10;
    values[9] = 5;
    let line = sparkline(&values);
    assert_eq!(line.chars().count(), 24);
    assert_eq!(line.chars().nth(8), Some('█'));
    assert_eq!(line.chars().nth(0), Some('·'));
}

#[test]
fn names_of_states_and_levels() {
    assert_eq!(run_state_text(RunState::NoRealtime), "暂无实时数据");
    assert_eq!(crowd_text(CrowdLevel::Unknown), None);
    assert!(crowd_text(CrowdLevel::Full).is_some());
    assert_eq!(stop_status_note(StopStatus::Normal), None);
    assert!(stop_status_note(StopStatus::NotStopping).is_some());
}

#[test]
fn arrivals_name_what_is_known() {
    let text = arrival_text(&ArrivalEstimate::Approaching {
        stations_away: 3,
        minutes_away: Some(6),
        distance_m: Some(1200),
    });
    assert!(text.contains("3 站") && text.contains("6 分钟") && text.contains("1200"));
    assert_ne!(arrival_text(&ArrivalEstimate::Arriving), arrival_text(&ArrivalEstimate::NoService));
}

#[test]
fn the_last_of_two_busy_hours_is_the_peak() {
    let mut hours = [0u32; 24];
    assert_eq!(peak_hour(&hours), 23);
    hours[3] = 5;
    hours[7] = 5;
    assert_eq!(peak_hour(&hours), 7);
}

#[test]
fn a_line_is_described_with_its_ends() {
    let text = line_detail_text(&detail(), "深圳");
    assert!(text.contains("M375") && text.contains("起点") && text.contains("终点"));
}

#[test]
fn settings_and_habits_are_described() {
    let text = alert_settings_text(&AlertSettings::default(), true);
    assert!(text.contains("刷新间隔") && text.contains("500"));
    let mut user = UserState::default();
    assert!(habits_text(&user, 8).contains("还没有查询记录"));
    user.record_query_at("shenzhen", "M<1>", "M:1", "科技园", 5, 8, 100);
    let text = habits_text(&user, 8);
    assert!(text.contains("M&lt;1&gt; @ 科技园"));
    assert!(text.contains("高峰时段：08:00（1 次）"));
    assert_eq!(habit_button_label(&user.habits[0]), "🕘 M<1> @ 科技园");
}

#[test]
fn the_card_of_a_watch_names_line_and_stop() {
    let spec = WatchSpec {
        service: "s".into(),
        city_label: "深圳".into(),
        line_name: "1路".into(),
        direction: "1路:1".into(),
        station_name: "运河天地".into(),
        order: 3,
        chat_id: 1,
        card_message_id: 2,
        target_bus: None,
        started_at: 0,
    };
    let card = watch_card(&spec, None, &AlertSettings::default(), RunState::Running, "08:30:00");
    assert!(card.contains("1路") && card.contains("运河天地") && card.contains("08:30:00"));
}

#[test]
fn html_is_escaped_by_pieces_and_reads_back() {
    let (a, b) = ("1 < 2 &", "amp; & 站>");
    assert_eq!(escape(&format!("{a}{b}")), escape(a) + &escape(b));
    assert_eq!(escape("&lt;"), "&amp;lt;");
    assert_eq!(escape("科技园 \"'"), "科技园 \"'");
    let written = escape("&amp;<&lt;>");
    let read = written.replace("&lt;", "<").replace("&gt;", ">").replace("&amp;", "&");
    assert_eq!(read, "&amp;<&lt;>");
}
