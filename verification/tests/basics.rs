//! Texts, orders and stops.
use wherebus::models::{finite, in_range, valid_point, ArrivalEstimate, Double, LineStop, ServiceTime, StopStatus, Terminal};
use wherebus::pages::{favorites_view, find_cities, find_lines, home_view, nearby_view, Board};
use wherebus::sort::{key_of_text, order_of};
use wherebus::stops::{find_stop, progress};
use wherebus::store::{Favorite, UserState};
use wherebus::text::{
    after_prefix, blank, contains, decimal, decimal2, decimal_int, join, parse_i64, parse_nat, parse_u32, split, trimmed, trimmed_end, trimmed_start,
};

fn double(x: f64) -> Double {
    Double { bits: x.to_bits() }
}

fn stops() -> Vec<LineStop> {
    (1..=5)
        .map(|order| LineStop {
            id: None,
            name: format!("第{order}站"),
            alias: None,
            order,
            lat: double(0.0),
            lng: double(0.0),
            status: StopStatus::Normal,
            track_index: None,
        })
        .collect()
}

#[test]
fn white_space_is_trimmed() {
    assert_eq!(trimmed(" \t公 交\u{3000}\n"), "公 交");
    assert_eq!(trimmed_start("  a "), "a ");
    assert_eq!(trimmed_end("  a "), "  a");
    assert!(blank(" \u{a0}\u{3000}") && !blank("a"));
    for c in (0..0x3100u32).filter_map(char::from_u32) {
        assert_eq!(blank(&c.to_string()), c.is_whitespace(), "{c:?}");
    }
}

#[test]
fn texts_are_searched_and_split() {
    assert!(contains("等待发车", "发车") && contains("x", "") && !contains("x", "xx"));
    assert_eq!(split("a,,b", ','), vec!["a", "", "b"]);
    assert_eq!(split("", ','), vec![""]);
    assert_eq!(join(&vec!["a".into(), "b".into()], "、"), "a、b");
    assert_eq!(after_prefix("m:home", "m:"), Some("home".to_string()));
    assert_eq!(after_prefix("home", "m:"), None);
}

#[test]
fn numbers_are_read_as_the_language_reads_them() {
    for s in ["0", "+7", "-7", "", "+", "007", "4294967295", "4294967296", "18446744073709551615", "18446744073709551616", " 1", "1a", "-0"] {
        assert_eq!(parse_nat(s, u64::MAX), s.parse::<u64>().ok(), "{s}");
        assert_eq!(parse_u32(s), s.parse::<u32>().ok(), "{s}");
        assert_eq!(parse_i64(s), s.parse::<i64>().ok(), "{s}");
    }
    for s in ["9223372036854775807", "9223372036854775808", "-9223372036854775808", "-9223372036854775809", "--1"] {
        assert_eq!(parse_i64(s), s.parse::<i64>().ok(), "{s}");
    }
    assert_eq!(decimal(0), "0");
    assert_eq!(decimal(u64::MAX), u64::MAX.to_string());
    assert_eq!(decimal2(7), "07");
    assert_eq!(decimal_int(i64::MIN), i64::MIN.to_string());
}

#[test]
fn orders_are_stable() {
    let keys = vec![vec![2, 1], vec![1], vec![2], vec![1], vec![2, 0]];
    assert_eq!(order_of(&keys), vec![1, 3, 2, 4, 0]);
    assert_eq!(key_of_text("ab"), vec![97, 98]);
}

#[test]
fn vehicles_progress_along_the_stops() {
    let stops = stops();
    assert_eq!(find_stop(&stops, 3), 2);
    assert_eq!(find_stop(&stops, 9), 5);
    assert_eq!(progress(2, false, &stops, 4), (Some(2), false, false));
    assert_eq!(progress(4, true, &stops, 4), (Some(0), false, true));
    assert_eq!(progress(4, false, &stops, 4), (Some(0), true, false));
    assert_eq!(progress(5, true, &stops, 4), (None, true, false));
    assert_eq!(progress(9, true, &stops, 4), (None, false, false));
}

#[test]
fn points_are_judged_by_their_bits() {
    for (lat, lng) in [(0.0, 0.0), (-0.0, 0.0), (90.0, 180.0), (-90.0, -180.0), (90.0000001, 0.0), (1.0, f64::NAN), (5e-324, 0.0), (f64::NEG_INFINITY, 1.0)] {
        let inside = lat >= -90.0 && lat <= 90.0 && lng >= -180.0 && lng <= 180.0;
        assert_eq!(in_range(double(lat), double(lng)), inside, "{lat} {lng}");
        assert_eq!(valid_point(double(lat), double(lng)), inside && (lat != 0.0 || lng != 0.0), "{lat} {lng}");
        assert_eq!(finite(double(lat)), lat.is_finite());
    }
}

#[test]
fn small_types_say_what_they_hold() {
    assert_eq!(Terminal::named(" ").as_str(), None);
    assert_eq!(Terminal::named("甲").as_str(), Some("甲"));
    assert!(ServiceTime::parse(" ").is_none());
    assert_eq!(ServiceTime::parse(" 06:00 ").unwrap().text, "06:00");
    let far = ArrivalEstimate::Approaching { stations_away: 3, minutes_away: None, distance_m: None };
    assert!(ArrivalEstimate::Arriving.proximity_score() < far.proximity_score());
    assert!(far.proximity_score() < ArrivalEstimate::NoService.proximity_score());
}

#[test]
fn pages_list_what_there_is() {
    let mut user = UserState::default();
    assert!(home_view(&user, 8, &None).text.contains("当前城市：<b>未选择</b>"));
    let empty = favorites_view(&user);
    for order in 1..=3 {
        user.toggle_favorite_at(
            Favorite { service: "s".into(), line_name: format!("{order}路"), direction: "d".into(), order, hits: order, ..Default::default() },
            100,
        );
    }
    let page = favorites_view(&user);
    assert_ne!(page.text, empty.text);
    let Board::Inline(rows) = page.board else { panic!("favourites have buttons") };
    assert!(rows[0][0].label.contains("3路"));
    assert!(find_cities(&vec![], "深圳").is_empty());
    assert!(find_lines(&vec![], "1").is_empty());
    assert!(!nearby_view(&vec![], "s", double(1.0), double(2.0)).text.is_empty());
}
