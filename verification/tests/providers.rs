//! How the replies of the sources are read.
use wherebus::models::{ArrivalEstimate, CongestionLevel, Double, GeoPoint, RunState, StopStatus};
use wherebus::provider::chelaile;
use wherebus::provider::chelaile::{ChelaileProvider, NearLine, NearStation, NearTarget, NearbyResponse, RouteLine, RouteReply, RouteStop, Vehicle};
use wherebus::provider::mygolbs;
use wherebus::provider::mygolbs::{
    MygolbsProvider, RawBus, RawCount, RawEta, RawHours, RawLine, RawRealtime, RawRoute, RawSpeed, RawStation, RawStationLine, RawStop,
};
use wherebus::provider::reading::{find_number, number_of_digits, parse_station_name};

fn double(x: f64) -> Double {
    Double { bits: x.to_bits() }
}

#[test]
fn numbers_stand_before_their_unit() {
    assert_eq!(find_number("还有12站", '站'), Some(12));
    assert_eq!(find_number("12 站", '站'), None);
    assert_eq!(find_number("无", '站'), None);
    assert_eq!(find_number("99999999999站", '站'), None);
    assert_eq!(number_of_digits("约1小时20分"), Some(120));
    assert_eq!(number_of_digits("无"), None);
}

#[test]
fn names_carry_their_alias_in_brackets() {
    assert_eq!(parse_station_name(" 科技园（北） "), ("科技园".into(), Some("北".into())));
    assert_eq!(parse_station_name("科技园(北)"), ("科技园".into(), Some("北".into())));
    assert_eq!(parse_station_name("科技园︵北︶"), ("科技园".into(), Some("北".into())));
    assert_eq!(parse_station_name("科技园（）"), ("科技园".into(), None));
    assert_eq!(parse_station_name("科技园"), ("科技园".into(), None));
}

#[test]
fn arrivals_of_the_first_source() {
    let read = |text: &str, dis: &str, time: &str, num: i32, metres: Option<u32>| {
        mygolbs::parse_arrival(text, dis, time, num, metres)
    };
    let coming = |stations_away, minutes_away, distance_m| ArrivalEstimate::Approaching { stations_away, minutes_away, distance_m };
    assert_eq!(read("", "", "", 3, None), ArrivalEstimate::Unknown);
    assert_eq!(read("即将到站", "", "", 0, None), ArrivalEstimate::Arriving);
    assert_eq!(read("等待发车", "", "", 3, None), ArrivalEstimate::NoService);
    assert_eq!(read("x", "", "", -1, None), ArrivalEstimate::NoService);
    assert_eq!(read("还有3站", "", "", 0, None), coming(3, None, None));
    assert_eq!(read("x", "", "", 4, Some(900)), coming(4, Some(2), Some(900)));
    assert_eq!(read("x", "", "", 4, Some(100)), coming(4, Some(1), Some(100)));
    assert_eq!(read("x", "19分钟/6.2公里", "", 0, Some(6200)), coming(0, Some(19), Some(6200)));
    assert_eq!(read("还有2站", "", "不到1分钟", 0, None), coming(2, Some(0), None));
    assert_eq!(read("约5分", "19分钟", "", 0, None), coming(0, Some(5), None));
    assert_eq!(read("x", "", "", 0, Some(500)), ArrivalEstimate::Unknown);
}

#[test]
fn distances_are_taken_apart() {
    let parts = |s: &str| mygolbs::parse_neardis(s);
    assert_eq!(parts("19分钟/6.2公里"), (Some(19), Some("6.2公里".to_string())));
    assert_eq!(parts("0分钟/6.2公里").0, None);
    assert_eq!(parts("780米"), (None, Some("780米".to_string())));
    assert_eq!(parts("19分钟"), (Some(19), None));
    assert_eq!(parts(" "), (None, None));
    let number = |s: &str| mygolbs::distance_number(s);
    assert_eq!(number("6.2公里"), Some(("6.2".to_string(), true)));
    assert_eq!(number(" 1.2 km"), Some(("1.2".to_string(), true)));
    assert_eq!(number("780米"), Some(("780".to_string(), false)));
    assert_eq!(number("780m"), Some(("780".to_string(), false)));
    assert_eq!(number("780"), Some(("780".to_string(), false)));
    assert_eq!(number(" "), None);
    assert_eq!(mygolbs::parse_time_field("12分钟"), Some(12));
    assert_eq!(mygolbs::parse_time_field("小于1分钟"), Some(0));
    assert_eq!(mygolbs::parse_time_field(""), None);
}

#[test]
fn states_of_the_first_source() {
    assert_eq!(mygolbs::infer_run_state_from_text(" "), RunState::NoRealtime);
    assert_eq!(mygolbs::infer_run_state_from_text("等待发车"), RunState::NotOperating);
    assert_eq!(mygolbs::infer_run_state_from_text("已收班"), RunState::Stopped);
    assert_eq!(mygolbs::infer_run_state_from_text("3站"), RunState::Running);
    assert_eq!(mygolbs::infer_realtime_run_state(1, 1, &None), RunState::Stopped);
    assert_eq!(mygolbs::infer_realtime_run_state(0, 0, &Some("08:00".into())), RunState::NotOperating);
    assert_eq!(mygolbs::infer_realtime_run_state(0, 0, &Some(" ".into())), RunState::NoRealtime);
    assert_eq!(mygolbs::infer_realtime_run_state(0, 1, &None), RunState::Running);
    assert_eq!(mygolbs::congestion_from_color("#4caf50"), CongestionLevel::Smooth);
    assert_eq!(mygolbs::congestion_from_color("orange"), CongestionLevel::Slow);
    assert_eq!(mygolbs::congestion_from_color("red"), CongestionLevel::Congested);
    assert_eq!(mygolbs::congestion_from_color(""), CongestionLevel::Unknown);
}

#[test]
fn ids_of_the_first_source() {
    assert_eq!(MygolbsProvider::parse_direction_id("a:b:2"), ("a:b".into(), "2".into()));
    assert_eq!(MygolbsProvider::parse_direction_id("1路"), ("1路".into(), "1".into()));
    assert_eq!(MygolbsProvider::new("杭州", "k").name, "杭州");
}

#[test]
fn lines_of_the_first_source() {
    let stop = |name: &str, order| RawStop {
        show_name: name.into(),
        station_order: order,
        lat: double(1.0),
        lng: double(2.0),
        status: StopStatus::Normal,
        nihe_point_index: order,
    };
    let raw = RawLine {
        route_name: "1路".into(),
        direction: "1".into(),
        first_last: vec![RawHours { first: "06:00".into(), last: " ".into() }],
        data: vec![stop("甲（东）", 1), stop("乙", 2)],
        nihelist: vec![None, Some(GeoPoint { lat: double(1.0), lng: double(2.0) })],
        comments: " ".into(),
    };
    let line = MygolbsProvider::line_detail(&raw);
    assert_eq!(line.direction_id, "1路:1");
    assert_eq!(line.reverse_id.as_deref(), Some("1路:2"));
    assert_eq!(line.topology.start.as_str(), Some("甲"));
    assert_eq!(line.topology.end.as_str(), Some("乙"));
    assert_eq!(line.topology.stations[0].alias.as_deref(), Some("东"));
    assert_eq!(line.topology.track_points.len(), 1);
    assert!(line.meta.first_service.is_some() && line.meta.last_service.is_none());
    assert_eq!(line.meta.notes, None);

    let near = MygolbsProvider::nearby_stations(&vec![RawStation {
        name: "甲（东）".into(),
        lat: double(1.0),
        lng: double(2.0),
        dis: 30,
        same_num: 2,
    }]);
    assert_eq!((near[0].name.as_str(), near[0].distance_m), ("甲", 30));

    let lines = MygolbsProvider::station_lines(&vec![RawStationLine {
        line_name: "1路".into(),
        neartext: "还有3站".into(),
        neardis: "".into(),
        neartime: "".into(),
        nearnum: 0,
        direction: "".into(),
        station_order: 4,
        distance_m: None,
    }]);
    assert_eq!(lines[0].direction_id, "1路:1");
    assert_eq!(lines[0].run_state, RunState::Running);

    let all = MygolbsProvider::all_lines(&vec![RawRoute {
        line_name: "1路".into(),
        direction: "2".into(),
        from: "甲（东）".into(),
        to: "乙".into(),
        company: "".into(),
    }]);
    assert_eq!(all[0].direction_id, "1路:2");
    assert_eq!(all[0].start.as_str(), Some("甲（东）"));
    assert_eq!(all[0].endpoints.origin, "甲");
    assert_eq!(all[0].company, None);
}

#[test]
fn live_data_of_the_first_source() {
    let raw = RawRealtime {
        run_state: 0,
        has_real: 1,
        plan_time: None,
        dislist: vec![double(10.0), double(20.0)],
        speedlist: vec![RawSpeed { speed: None, co: "red".into() }],
        list: vec![RawBus {
            bus_number: "A".into(),
            index: 3,
            status_type: "0".into(),
            lat: None,
            lng: None,
            angle: double(0.0),
            distance: double(80.4),
            shown_m: 80,
            stop_distances_m: vec![1, 2],
            station_name: "".into(),
            nihe_point_index: -1,
        }],
        data: vec![RawCount { index: 1, station_name: "甲".into(), arrive: 1, come: 2 }],
        rtime_list: vec![
            RawEta { count: -1, minutes: 1, distance: 1 },
            RawEta { count: 2, minutes: 5, distance: 900 },
        ],
    };
    let live = MygolbsProvider::realtime(&raw);
    assert_eq!(live.run_state, RunState::Running);
    assert_eq!(live.segments.len(), 1);
    assert_eq!(live.segments[0].congestion, CongestionLevel::Congested);
    assert!(live.buses[0].is_arriving);
    assert_eq!(live.buses[0].station_name, None);
    assert_eq!((live.buses[0].distance_to_station, live.buses[0].distance_shown_m), (Some(double(80.4)), Some(80)));
    assert_eq!(live.station_arrivals[0].leaving_count, 2);
    assert_eq!(live.arrival_estimates.len(), 1);
    assert_eq!(live.arrival_estimates[0].stations_away, 2);
}

#[test]
fn arrivals_of_the_second_source() {
    let read = |desc: &str, state, metres| chelaile::parse_chelaile_arrival(desc, state, metres);
    assert_eq!(read("3站", -3, 0), ArrivalEstimate::NoService);
    assert_eq!(read("", -1, 0), ArrivalEstimate::NoService);
    assert_eq!(read("末班时间已过", 0, 0), ArrivalEstimate::NoService);
    assert_eq!(read("", 0, 0), ArrivalEstimate::Unknown);
    assert_eq!(read("进站中", 0, 0), ArrivalEstimate::Arriving);
    assert_eq!(
        read("还有3站 不到1分钟", 0, 0),
        ArrivalEstimate::Approaching { stations_away: 3, minutes_away: Some(0), distance_m: None }
    );
    assert_eq!(
        read("还有3站", 0, 1300),
        ArrivalEstimate::Approaching { stations_away: 3, minutes_away: Some(3), distance_m: Some(1300) }
    );
    assert_eq!(read("x", 0, 1300), ArrivalEstimate::Unknown);
    assert_eq!(chelaile::infer_run_state_from_text("末班"), RunState::NotOperating);
    assert_eq!(chelaile::infer_run_state_from_text("停运"), RunState::Stopped);
}

#[test]
fn ids_of_the_second_source() {
    assert_eq!(ChelaileProvider::extract_direction_from_key("0755-M375-1"), "1");
    assert_eq!(ChelaileProvider::extract_direction_from_key("0755-123"), "");
    assert_eq!(ChelaileProvider::extract_direction_from_key("0755-x"), "");
    assert_eq!(ChelaileProvider::extract_direction_from_key("0755-"), "");
    assert_eq!(ChelaileProvider::make_reverse_id("a-0").as_deref(), Some("a-1"));
    assert_eq!(ChelaileProvider::make_reverse_id("a-1").as_deref(), Some("a-0"));
    assert_eq!(ChelaileProvider::make_reverse_id("a-2"), None);
    assert_eq!(ChelaileProvider::make_reverse_id("a"), None);
}

#[test]
fn stops_of_the_second_source_are_kept() {
    let line = NearLine {
        line_id: "id-0".into(),
        name: "1路".into(),
        desc: "还有3站".into(),
        state: 0,
        start_sn: "甲".into(),
        end_sn: "乙".into(),
        target_station: Some(NearTarget { order: 4, distance_to_sp: 0 }),
    };
    let reply = NearbyResponse {
        near_lines: vec![NearStation {
            s_id: "s".into(),
            station_name: "站".into(),
            lat: double(1.0),
            lng: double(2.0),
            distance: 30,
            lines: vec![line],
        }],
    };
    let mut source = ChelaileProvider::new("034");
    assert!(source.cached().is_none());
    let near = source.nearby_stations(reply);
    assert_eq!(near[0].id.as_deref(), Some("s"));
    let kept = source.cached().unwrap();
    let lines = ChelaileProvider::station_lines(&kept, "站");
    assert_eq!((lines[0].direction_id.as_str(), lines[0].station_order), ("id-0", 4));
    assert!(ChelaileProvider::station_lines(&kept, "无").is_empty());
}

fn vehicle(order: u32, secs: Option<u32>, text: &str) -> Vehicle {
    Vehicle {
        bus_id: "A".into(),
        order,
        state: "0".into(),
        lat: None,
        lng: None,
        distance: double(900.6),
        shown_m: 901,
        metres: 899,
        stop_distances_m: vec![],
        travel_time: secs,
        time_str: text.into(),
    }
}

#[test]
fn live_data_of_the_second_source() {
    let buses = vec![vehicle(2, Some(30), ""), vehicle(3, Some(200), "x"), vehicle(5, Some(10), ""), vehicle(1, None, "")];
    let live = ChelaileProvider::realtime(&buses, 5);
    assert_eq!(live.buses.len(), 4);
    assert_eq!(live.buses[0].state_description, None);
    assert_eq!((live.buses[0].distance_to_station, live.buses[0].distance_shown_m), (Some(double(900.6)), Some(901)));
    let found: Vec<(u32, u32, u32)> =
        live.arrival_estimates.iter().map(|e| (e.stations_away, e.minutes_away, e.distance_m)).collect();
    assert_eq!(found, vec![(3, 1, 899), (2, 3, 899)]);
    assert_eq!(live.run_state, RunState::Running);
    assert_eq!(ChelaileProvider::realtime(&vec![], 5).run_state, RunState::NoRealtime);
    assert_eq!(chelaile::infer_realtime_run_state(&vec![vehicle(1, None, "未发车")]), RunState::NotOperating);
    assert_eq!(chelaile::infer_realtime_run_state(&vec![vehicle(1, None, "停运"), vehicle(1, None, "收班")]), RunState::Stopped);
}

#[test]
fn lines_of_the_second_source() {
    let stop = |name: &str, order| RouteStop { s_id: name.into(), station_name: name.into(), order, lat: double(0.0), lng: double(0.0) };
    let reply = RouteReply {
        line: Some(RouteLine {
            line_no: "1".into(),
            first_time: "06:00".into(),
            last_time: "".into(),
            price: "".into(),
            company: "公司".into(),
        }),
        stations: vec![stop("甲", 1), stop("乙", 2)],
    };
    let line = ChelaileProvider::line_detail(&reply, "k-0");
    assert_eq!(line.reverse_id.as_deref(), Some("k-1"));
    assert_eq!(line.topology.end.as_str(), Some("乙"));
    assert_eq!(line.meta.company.as_deref(), Some("公司"));
    let query = ChelaileProvider::realtime_query(&reply, "k-0", 1);
    assert_eq!(
        (query.line_name.as_str(), query.direction.as_str(), query.station_name.as_str(), query.next_station_name.as_str()),
        ("1", "0", "甲", "乙")
    );
    assert_eq!(ChelaileProvider::realtime_query(&reply, "k-0", 2).next_station_name, "");
    let bare = ChelaileProvider::line_detail(&RouteReply { line: None, stations: vec![] }, "k");
    assert_eq!((bare.name.as_str(), bare.reverse_id), ("", None));
}
