//! The simulated source.
use wherebus::models::{ArrivalEstimate, Double, RunState, StopStatus};
use wherebus::provider::debug::{
    all_lines, all_stops, draw_buses, draw_live, draw_vehicles, find_route, line_detail, nearby_stations, realtime, sim_arrival_estimates,
    sim_run_state, start_index, station_lines, Levels, Place, Rng, SimRoute, SimStop,
};

fn double(x: f64) -> Double {
    Double { bits: x.to_bits() }
}

fn levels() -> Levels {
    Levels {
        stopped: false,
        offline: 0,
        full: 1600,
        crowded: 3200,
        normal: 6200,
        congested: 1500,
        slow: 3000,
        min_buses: 5,
        max_buses: 11,
        max_estimates: 5,
        minutes_fast: 1,
        minutes_common: 3,
        minutes_slow: 4,
    }
}

fn stop(id: &str, name: &str) -> SimStop {
    SimStop { id: id.into(), name: name.into(), alias: None, lat: double(39.9), lng: double(116.4), status: StopStatus::Normal }
}

fn route(id: &str, stops: Vec<SimStop>) -> SimRoute {
    SimRoute {
        id: id.into(),
        name: format!("{id}路"),
        dir_id: format!("{id}_a"),
        reverse_id: format!("{id}_b"),
        origin: "甲".into(),
        origin_alias: None,
        terminus: "丙".into(),
        terminus_alias: None,
        company: "公司".into(),
        first_service: "05:00".into(),
        last_service: "23:00".into(),
        fare: "2元".into(),
        contact: "010".into(),
        notes: None,
        stops,
    }
}

fn routes() -> Vec<SimRoute> {
    vec![
        route("1", vec![stop("s1", "甲"), stop("s2", "乙"), stop("s3", "丙")]),
        route("2", vec![stop("s4", "乙"), stop("s5", "丁")]),
    ]
}

#[test]
fn the_generator_shifts_and_mixes() {
    let mut rng = Rng::new(1);
    assert_eq!(rng.next(), 1 ^ (1 << 13) ^ ((1 ^ (1 << 13)) >> 7) ^ (((1 ^ (1 << 13)) ^ ((1 ^ (1 << 13)) >> 7)) << 17));
    for _ in 0..100 {
        assert!((3..=7).contains(&rng.range(3, 7)));
        assert!(rng.tick() < 10_000);
    }
    let before = rng.state;
    assert_eq!(rng.range(7, 3), 7);
    assert_eq!(rng.state, before);
}

#[test]
fn lines_go_by_three_ids() {
    let routes = routes();
    assert_eq!(find_route(&routes, "2").id, "2");
    assert_eq!(find_route(&routes, "2_a").id, "2");
    assert_eq!(find_route(&routes, "2_b").id, "2");
    assert_eq!(find_route(&routes, "nope").id, "1");
}

#[test]
fn lines_run_within_their_hours() {
    let routes = routes();
    let at = |hour: u64, levels: &Levels| sim_run_state(levels, &routes[0], &mut Rng::new(7), hour * 3600);
    assert_eq!(at(4, &levels()), RunState::NotOperating);
    assert_eq!(at(5, &levels()), RunState::Running);
    assert_eq!(at(23, &levels()), RunState::Stopped);
    assert_eq!(at(12, &Levels { stopped: true, ..levels() }), RunState::Stopped);
    assert_eq!(at(12, &Levels { offline: 10_000, ..levels() }), RunState::NoRealtime);
    let night = SimRoute { first_service: "23:20".into(), last_service: "04:50".into(), ..route("3", vec![]) };
    assert_eq!(sim_run_state(&levels(), &night, &mut Rng::new(7), 12 * 3600), RunState::Running);
}

#[test]
fn vehicles_have_different_plates() {
    let draws = draw_buses(&Levels { min_buses: 50, max_buses: 60, ..levels() }, &mut Rng::new(99), 7, 3, 1000);
    let mut plates: Vec<usize> = draws.iter().map(|d| d.plate).collect();
    plates.sort();
    assert_eq!(plates, vec![0, 1, 2, 3, 4, 5, 6]);
    assert!(draws.iter().all(|d| d.phase < 360));
    assert_eq!(start_index(9, 3), 1);
    assert_eq!(start_index(0, 3), 0);
}

fn place(station_idx: usize, is_arriving: bool, travel_secs: u32) -> Place {
    Place {
        station_idx,
        is_arriving,
        lat: double(39.9),
        lng: double(116.4),
        angle: double(0.0),
        distance: double(100.25),
        shown_m: 100,
        travel_secs,
        stop_distances_m: vec![],
    }
}

#[test]
fn live_data_is_put_together() {
    let routes = routes();
    let plates: Vec<String> = (0..5).map(|i| format!("京A{i}")).collect();
    let mut rng = Rng::new(12345);
    let levels = Levels { min_buses: 3, max_buses: 3, ..levels() };
    let (state, draws) = draw_vehicles(&levels, &routes[0], plates.len(), &mut rng, 12 * 3600);
    assert_eq!(state, RunState::Running);
    assert_eq!(draws.len(), 3);
    let places = vec![place(1, false, 130), place(0, true, 10), place(0, false, 59)];
    let live = draw_live(&levels, &routes[0], &plates, state, &draws, &places, 3, &mut rng);
    let index: Vec<u32> = live.buses.iter().map(|b| b.station_index).collect();
    assert_eq!(index, vec![1, 1, 2]);
    assert_eq!(live.buses[0].state_description.as_deref(), Some("乙即将到站"));
    assert_eq!(live.buses[1].state_description.as_deref(), Some("即将到站"));
    assert_eq!(live.buses[2].state_description.as_deref(), Some("距丙还有3分钟"));
    assert_eq!(live.segments.len(), 2);
    assert!(live.station_arrivals.iter().any(|a| a.station_index == 1 && a.leaving_count == 1 && a.arriving_count >= 1));
    let data = realtime(live, &routes[0], vec![]);
    assert_eq!(data.plan_time.as_deref(), Some("05:00"));

    let (state, draws) = draw_vehicles(&levels, &routes[0], plates.len(), &mut rng, 3 * 3600);
    assert_eq!(state, RunState::NotOperating);
    assert!(draws.is_empty());
    let idle = draw_live(&levels, &routes[0], &plates, state, &draws, &vec![], 3, &mut rng);
    assert!(idle.buses.is_empty() && idle.arrival_estimates.is_empty());
    assert_eq!(idle.segments.len(), 2);
}

#[test]
fn estimates_go_outward() {
    for seed in 1..50 {
        let list = sim_arrival_estimates(&levels(), 10, 9, &mut Rng::new(seed));
        assert!(list.len() <= 5);
        for pair in list.windows(2) {
            assert!(pair[0].stations_away < pair[1].stations_away);
        }
        assert!(list.iter().all(|e| (1..9).contains(&e.stations_away)));
        assert!(list.iter().all(|e| (300..=1200).contains(&(e.distance_m / e.stations_away))));
    }
    assert!(sim_arrival_estimates(&levels(), 10, 0, &mut Rng::new(1)).is_empty());
    assert!(sim_arrival_estimates(&levels(), 10, 11, &mut Rng::new(1)).is_empty());
}

#[test]
fn stops_nearby_are_listed_once_by_distance() {
    let stops = all_stops(&routes());
    assert_eq!(stops.len(), 5);
    let near = nearby_stations(&stops, &vec![1999, 500, 2000, 100, 700], &mut Rng::new(5));
    let found: Vec<(&str, u32)> = near.iter().map(|s| (s.name.as_str(), s.distance_m)).collect();
    assert_eq!(found, vec![("乙", 500), ("丁", 700), ("甲", 1999)]);
    assert!(near.iter().all(|s| (1..=4).contains(&s.same_name_count)));
    let many: Vec<SimStop> = (0..12).map(|i| stop("x", &format!("站{i}"))).collect();
    assert_eq!(nearby_stations(&many, &vec![10; 12], &mut Rng::new(5)).len(), 10);
}

#[test]
fn lines_call_at_stops() {
    let routes = routes();
    let found = station_lines(&levels(), &routes, "乙", &mut Rng::new(5), 12 * 3600);
    let orders: Vec<u32> = found.iter().map(|l| l.station_order).collect();
    assert_eq!(orders, vec![2, 1]);
    let idle = station_lines(&levels(), &routes, "s5", &mut Rng::new(5), 3 * 3600);
    assert_eq!(idle[0].arrival, ArrivalEstimate::NoService);
    assert!(station_lines(&levels(), &routes, "无", &mut Rng::new(5), 0).is_empty());
}

#[test]
fn lines_are_described() {
    let routes = routes();
    let line = line_detail(&routes[0], vec![]);
    assert_eq!(line.reverse_id.as_deref(), Some("1_b"));
    assert_eq!(line.topology.stations[2].order, 3);
    assert_eq!(line.topology.stations[2].track_index, Some(8));
    assert_eq!(all_lines(&routes).len(), 2);
    assert_eq!(all_lines(&routes)[1].direction_id, "2_a");
}
